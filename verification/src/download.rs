//! `download file`: the download tags of a message, the choice among them, and where the
//! downloaded files are written.
use vstd::prelude::*;
use crate::chat_url::{chosen_url, is_bad_url_error, is_no_message_id_error, parse_chatwork_message_url, url_parts_spec};
use crate::message::{is_usage0, is_usage1, msg0, msg1, usage_error, CliError, UsageContext};
use crate::paths::{expand_home, expand_home_spec, join_spec, opt_view, path_join};
use crate::text::{
    ascii_lower, chars_of, decimal, decimal_chars, eq_ignore_ascii_case_spec, eq_ignore_ascii_case_str, find,
    find_char, find_spec, is_digit, lemma_decimal_digits, lemma_find_from, lemma_find_from_first,
    lemma_parse_decimal, lemma_parse_unsigned_range, lemma_split_absent, lemma_split_piece, lemma_trim_unchanged, occurs_at, parse_u64, parse_unsigned_spec, parse_usize, push_all,
    slice_chars, split_chars, split_on, split_once, split_once_spec, starts_with_spec, string_of, trim,
    trim_spec,
};

verus! {

/// Opens a download tag: `[download:<file_id>]<label>[/download]`.
pub const TAG_OPEN: &'static str = "[download:";

/// Closes a download tag.
pub const TAG_CLOSE: &'static str = "[/download]";

/// A file attached to a chat message, as its download tag names it.
#[derive(Clone, Debug, PartialEq, Eq)]
pub struct DownloadTag {
    pub file_id: u64,
    pub label: String,
}

/// A download tag as plain values.
pub open spec fn tag_view(t: DownloadTag) -> (u64, Seq<char>) {
    (t.file_id, t.label@)
}

/// A sequence of download tags as plain values.
pub open spec fn tags_view(ts: Seq<DownloadTag>) -> Seq<(u64, Seq<char>)> {
    ts.map_values(|t: DownloadTag| tag_view(t))
}

/// Why the download tags of a message cannot be read.
pub enum TagIssue {
    /// A `[download:` without a `]` after it.
    MissingBracket,
    /// The text between `[download:` and `]`, trimmed, is no file id.
    BadFileId(Seq<char>),
    /// A tag without `[/download]` after it.
    MissingClose,
}

/// The download tags in `rest`, from the first on, or the first problem met.
pub open spec fn scan_tags(rest: Seq<char>) -> Result<Seq<(u64, Seq<char>)>, TagIssue>
    decreases rest.len(),
{
    match find_spec(rest, TAG_OPEN@) {
        None => Ok(Seq::empty()),
        Some(start) => {
            let after_start = rest.skip(start + TAG_OPEN@.len());
            match find_spec(after_start, seq![']']) {
                None => Err(TagIssue::MissingBracket),
                Some(end) => {
                    let id_text = trim_spec(after_start.take(end));
                    match parse_unsigned_spec(id_text, u64::MAX as int) {
                        None => Err(TagIssue::BadFileId(id_text)),
                        Some(id) => {
                            let after_open = after_start.skip(end + 1);
                            match find_spec(after_open, TAG_CLOSE@) {
                                None => Err(TagIssue::MissingClose),
                                Some(close) => {
                                    proof {
                                        lemma_find_from(rest, TAG_OPEN@, 0);
                                        lemma_find_from(after_start, seq![']'], 0);
                                        lemma_find_from(after_open, TAG_CLOSE@, 0);
                                    }
                                    let label = trim_spec(after_open.take(close));
                                    match scan_tags(after_open.skip(close + TAG_CLOSE@.len())) {
                                        Ok(more) => Ok(seq![(id as u64, label)] + more),
                                        Err(e) => Err(e),
                                    }
                                },
                            }
                        },
                    }
                },
            }
        },
    }
}

/// `r` is the error that `extract_download_tags` gives for `issue`.
pub open spec fn is_tag_issue_error(e: CliError, issue: TagIssue) -> bool {
    match issue {
        TagIssue::MissingBracket => is_usage0(
            e,
            UsageContext::DownloadFile,
            "Missing closing `]` for download tag."@,
        ),
        TagIssue::BadFileId(t) => is_usage1(
            e,
            UsageContext::DownloadFile,
            "Failed to parse file_id from download tag: {tag}"@,
            "tag"@,
            t,
        ),
        TagIssue::MissingClose => is_usage0(
            e,
            UsageContext::DownloadFile,
            "Missing closing `[/download]` for download tag."@,
        ),
    }
}

/// The error for a message without download tags.
pub open spec fn is_no_tag_error(e: CliError) -> bool {
    is_usage0(e, UsageContext::DownloadFile, "The message does not contain a download tag."@)
}

/// Reads the download tags of a message body, in order. A message without tags, or with
/// a tag that is not well formed, is an error.
pub fn extract_download_tags(body: &str) -> (r: Result<Vec<DownloadTag>, CliError>)
    ensures
        match scan_tags(body@) {
            Ok(ts) => if ts.len() == 0 {
                r is Err && is_no_tag_error(r->Err_0)
            } else {
                r is Ok && tags_view(r->Ok_0@) == ts
            },
            Err(issue) => r is Err && is_tag_issue_error(r->Err_0, issue),
        },
{
    let open = chars_of(TAG_OPEN);
    let close = chars_of(TAG_CLOSE);
    let mut tags: Vec<DownloadTag> = Vec::new();
    let mut rest = chars_of(body);
    loop
        invariant
            open@ == TAG_OPEN@,
            close@ == TAG_CLOSE@,
            scan_tags(body@) == match scan_tags(rest@) {
                Ok(more) => Ok(tags_view(tags@) + more),
                Err(e) => Err::<Seq<(u64, Seq<char>)>, TagIssue>(e),
            },
        decreases rest@.len(),
    {
        let ghost old_rest = rest@;
        let ghost old_tags = tags@;
        let start = match find(&rest, &open) {
            Some(s) => s,
            None => {
                assert(tags_view(tags@) + Seq::<(u64, Seq<char>)>::empty() =~= tags_view(tags@));
                if tags.len() == 0 {
                    return Err(
                        usage_error(
                            UsageContext::DownloadFile,
                            msg0("The message does not contain a download tag."),
                        ),
                    );
                }
                return Ok(tags);
            },
        };
        proof {
            lemma_find_from(rest@, open@, 0);
            let ff = crate::text::find_from(rest@, open@, 0);
            assert(crate::text::occurs_at(rest@, open@, ff->0));
        }
        let rl: usize = rest.len();
        let ol: usize = open.len();
        let after_start = slice_chars(&rest, start + ol, rl);
        assert(after_start@ =~= rest@.skip(start + TAG_OPEN@.len()));
        let end = match find_char(&after_start, ']') {
            Some(e) => e,
            None => {
                return Err(
                    usage_error(
                        UsageContext::DownloadFile,
                        msg0("Missing closing `]` for download tag."),
                    ),
                );
            },
        };
        proof {
            lemma_find_from(after_start@, seq![']'], 0);
            let ff = crate::text::find_from(after_start@, seq![']'], 0);
            assert(ff->0 < after_start@.len());
        }
        let id_raw = slice_chars(&after_start, 0, end);
        let id_text = trim(&id_raw);
        assert(id_raw@ =~= after_start@.take(end as int));
        let file_id = match parse_u64(&id_text) {
            Some(v) => v,
            None => {
                return Err(
                    usage_error(
                        UsageContext::DownloadFile,
                        msg1(
                            "Failed to parse file_id from download tag: {tag}",
                            "tag",
                            string_of(&id_text),
                        ),
                    ),
                );
            },
        };
        let al: usize = after_start.len();
        let after_open = slice_chars(&after_start, end + 1, al);
        assert(after_open@ =~= after_start@.skip(end + 1));
        let ci = match find(&after_open, &close) {
            Some(c) => c,
            None => {
                return Err(
                    usage_error(
                        UsageContext::DownloadFile,
                        msg0("Missing closing `[/download]` for download tag."),
                    ),
                );
            },
        };
        proof {
            lemma_find_from(after_open@, close@, 0);
            let ff = crate::text::find_from(after_open@, close@, 0);
            assert(crate::text::occurs_at(after_open@, close@, ff->0));
        }
        let label_raw = slice_chars(&after_open, 0, ci);
        assert(label_raw@ =~= after_open@.take(ci as int));
        let label = trim(&label_raw);
        let cl: usize = close.len();
        let aol: usize = after_open.len();
        let next = slice_chars(&after_open, ci + cl, aol);
        assert(next@ =~= after_open@.skip(ci + TAG_CLOSE@.len()));
        tags.push(DownloadTag { file_id, label: string_of(&label) });
        proof {
            assert(tags_view(tags@) =~= tags_view(old_tags).push((file_id, label@)));
            match scan_tags(next@) {
                Ok(more) => {
                    assert(tags_view(old_tags) + (seq![(file_id, label@)] + more) =~= tags_view(
                        tags@,
                    ) + more);
                },
                Err(_) => {},
            }
        }
        rest = next;
    }
}

/// The tag to download without asking, when the message holds exactly one; `None`
/// when the user has to choose.
pub fn select_download_tags(tags: &Vec<DownloadTag>) -> (r: Option<Vec<DownloadTag>>)
    ensures
        tags@.len() == 1 ==> r is Some && r->0@ == tags@,
        tags@.len() != 1 ==> r is None,
{
    if tags.len() == 1 {
        let t = &tags[0];
        let mut v: Vec<DownloadTag> = Vec::new();
        v.push(DownloadTag { file_id: t.file_id, label: t.label.clone() });
        assert(v@ =~= tags@);
        Some(v)
    } else {
        None
    }
}

/// The line that lists tag number `number` (counted from 1) in the selection menu:
/// `<number>. <label> (file_id=<file_id>)`.
pub open spec fn menu_line_spec(number: nat, t: (u64, Seq<char>)) -> Seq<char> {
    decimal(number) + ". "@ + t.1 + " (file_id="@ + decimal(t.0 as nat) + ")"@
}

/// The lines of the selection menu, one per tag.
pub fn download_menu_lines(tags: &Vec<DownloadTag>) -> (r: Vec<String>)
    ensures
        r@.len() == tags@.len(),
        forall|i: int| 0 <= i < r@.len() ==> (#[trigger] r@[i])@ == menu_line_spec(
            (i + 1) as nat,
            tag_view(tags@[i]),
        ),
{
    let mut lines: Vec<String> = Vec::new();
    let mut i: usize = 0;
    while i < tags.len()
        invariant
            i <= tags@.len(),
            lines@.len() == i,
            forall|k: int| 0 <= k < i ==> (#[trigger] lines@[k])@ == menu_line_spec(
                (k + 1) as nat,
                tag_view(tags@[k]),
            ),
        decreases tags@.len() - i,
    {
        let t = &tags[i];
        let next: usize = i + 1;
        let n: u64 = next as u64;
        let mut line = decimal_chars(n);
        push_all(&mut line, &chars_of(". "));
        push_all(&mut line, &chars_of(t.label.as_str()));
        push_all(&mut line, &chars_of(" (file_id="));
        push_all(&mut line, &decimal_chars(t.file_id));
        push_all(&mut line, &chars_of(")"));
        assert(line@ =~= menu_line_spec((i + 1) as nat, tag_view(tags@[i as int])));
        lines.push(string_of(&line));
        i += 1;
    }
    lines
}

/// `acc` with index `i` added at the end, unless it is there already.
pub open spec fn add_index(acc: Seq<int>, i: int) -> Seq<int> {
    if acc.contains(i) {
        acc
    } else {
        acc.push(i)
    }
}

/// `acc` with the indices `lo`, `lo + 1`, ..., `hi - 1` added in turn.
pub open spec fn add_range(acc: Seq<int>, lo: int, hi: int) -> Seq<int>
    decreases hi - lo,
{
    if lo >= hi {
        acc
    } else {
        add_range(add_index(acc, lo), lo + 1, hi)
    }
}

/// The indices (counted from 0) that the comma-separated items `parts` select among `n`
/// tags, added to `acc`; `None` when an item is empty, no number, no range `a-b`, or
/// names a tag that does not exist. Items are counted from 1.
pub open spec fn select_parts(parts: Seq<Seq<char>>, n: nat, acc: Seq<int>) -> Option<Seq<int>>
    decreases parts.len(),
{
    if parts.len() == 0 {
        Some(acc)
    } else {
        let part = trim_spec(parts[0]);
        if part.len() == 0 {
            None
        } else {
            match split_once_spec(part, '-') {
                Some((a, b)) => match (
                    parse_unsigned_spec(trim_spec(a), usize::MAX as int),
                    parse_unsigned_spec(trim_spec(b), usize::MAX as int),
                ) {
                    (Some(lo), Some(hi)) => if lo == 0 || hi == 0 || lo > hi || hi > n {
                        None
                    } else {
                        select_parts(parts.drop_first(), n, add_range(acc, lo - 1, hi))
                    },
                    _ => None,
                },
                None => match parse_unsigned_spec(part, usize::MAX as int) {
                    Some(i) => if i == 0 || i > n {
                        None
                    } else {
                        select_parts(parts.drop_first(), n, add_index(acc, i - 1))
                    },
                    None => None,
                },
            }
        }
    }
}

/// The indices of the tags that the answer `input` selects among `n` tags, in the order
/// in which they are first named. An empty answer, `a` or `all` (in any case) selects
/// every tag.
pub open spec fn selection_spec(input: Seq<char>, n: nat) -> Option<Seq<int>> {
    if input.len() == 0 || eq_ignore_ascii_case_spec(input, "a"@) || eq_ignore_ascii_case_spec(
        input,
        "all"@,
    ) {
        Some(Seq::new(n, |i: int| i))
    } else {
        match select_parts(split_on(input, ','), n, Seq::empty()) {
            Some(s) => if s.len() == 0 {
                None
            } else {
                Some(s)
            },
            None => None,
        }
    }
}

/// Indices that are all below `n` and pairwise distinct.
pub open spec fn distinct_below(s: Seq<int>, n: int) -> bool {
    &&& forall|k: int| 0 <= k < s.len() ==> 0 <= #[trigger] s[k] < n
    &&& forall|k: int, l: int| 0 <= k < l < s.len() ==> s[k] != s[l]
}

proof fn lemma_add_index(acc: Seq<int>, i: int, n: int)
    requires
        distinct_below(acc, n),
        0 <= i < n,
    ensures
        distinct_below(add_index(acc, i), n),
        add_index(acc, i).contains(i),
        forall|j: int| acc.contains(j) ==> add_index(acc, i).contains(j),
        acc.len() <= add_index(acc, i).len(),
{
    if !acc.contains(i) {
        let r = acc.push(i);
        assert forall|j: int| acc.contains(j) implies r.contains(j) by {
            let k = choose|k: int| 0 <= k < acc.len() && acc[k] == j;
            assert(r[k] == j);
        }
        assert(r[acc.len() as int] == i);
    }
}

proof fn lemma_add_range(acc: Seq<int>, lo: int, hi: int, n: int)
    requires
        distinct_below(acc, n),
        0 <= lo,
        hi <= n,
    ensures
        distinct_below(add_range(acc, lo, hi), n),
        acc.len() <= add_range(acc, lo, hi).len(),
        lo < hi ==> add_range(acc, lo, hi).len() > 0,
    decreases hi - lo,
{
    if lo < hi {
        lemma_add_index(acc, lo, n);
        lemma_add_range(add_index(acc, lo), lo + 1, hi, n);
        assert(add_index(acc, lo).len() > 0) by {
            let s = add_index(acc, lo);
            if s.len() == 0 {
                assert(!s.contains(lo));
            }
        }
    }
}

proof fn lemma_select_parts(parts: Seq<Seq<char>>, n: nat, acc: Seq<int>)
    requires
        distinct_below(acc, n as int),
    ensures
        match select_parts(parts, n, acc) {
            Some(s) => distinct_below(s, n as int) && acc.len() <= s.len(),
            None => true,
        },
    decreases parts.len(),
{
    if parts.len() > 0 {
        let part = trim_spec(parts[0]);
        if part.len() > 0 {
            match split_once_spec(part, '-') {
                Some((a, b)) => {
                    lemma_parse_unsigned_range(trim_spec(a), usize::MAX as int);
                    lemma_parse_unsigned_range(trim_spec(b), usize::MAX as int);
                    match (
                    parse_unsigned_spec(trim_spec(a), usize::MAX as int),
                    parse_unsigned_spec(trim_spec(b), usize::MAX as int),
                ) {
                    (Some(lo), Some(hi)) => if !(lo == 0 || hi == 0 || lo > hi || hi > n) {
                        lemma_add_range(acc, lo - 1, hi, n as int);
                        lemma_select_parts(parts.drop_first(), n, add_range(acc, lo - 1, hi));
                    },
                    _ => {},
                    }
                },
                None => match parse_unsigned_spec(part, usize::MAX as int) {
                    Some(i) => if !(i == 0 || i > n) {
                        lemma_parse_unsigned_range(part, usize::MAX as int);
                        lemma_add_index(acc, i - 1, n as int);
                        lemma_select_parts(parts.drop_first(), n, add_index(acc, i - 1));
                    },
                    None => {},
                },
            }
        }
    }
}

/// Every selection names existing tags only, none of them twice, and at least one.
pub proof fn lemma_selection_distinct(input: Seq<char>, n: nat)
    ensures
        match selection_spec(input, n) {
            Some(s) => distinct_below(s, n as int) && (s.len() > 0 || n == 0),
            None => true,
        },
{
    if !(input.len() == 0 || eq_ignore_ascii_case_spec(input, "a"@) || eq_ignore_ascii_case_spec(
        input,
        "all"@,
    )) {
        lemma_select_parts(split_on(input, ','), n, Seq::empty());
    }
}

/// Adding the indices `lo`, ..., `hi - 1` keeps every index that was there, and afterwards
/// each of them is there.
pub proof fn lemma_add_range_contains(acc: Seq<int>, lo: int, hi: int)
    ensures
        forall|j: int| acc.contains(j) ==> add_range(acc, lo, hi).contains(j),
        forall|j: int| lo <= j < hi ==> add_range(acc, lo, hi).contains(j),
    decreases hi - lo,
{
    if lo < hi {
        let next = add_index(acc, lo);
        lemma_add_range_contains(next, lo + 1, hi);
        if !acc.contains(lo) {
            assert(next[acc.len() as int] == lo);
            assert forall|j: int| acc.contains(j) implies next.contains(j) by {
                let k = choose|k: int| 0 <= k < acc.len() && acc[k] == j;
                assert(next[k] == j);
            }
        }
        assert(next.contains(lo));
    }
}

/// The run `base`, `base + 1`, ..., `hi - 1`.
pub open spec fn run(base: int, hi: int) -> Seq<int> {
    Seq::new((hi - base) as nat, |i: int| base + i)
}

/// Adding a range to the run that ends just below it extends the run.
proof fn lemma_add_range_run(base: int, lo: int, hi: int)
    requires
        base <= lo <= hi,
    ensures
        add_range(run(base, lo), lo, hi) == run(base, hi),
    decreases hi - lo,
{
    if lo < hi {
        let acc = run(base, lo);
        assert(!acc.contains(lo)) by {
            if acc.contains(lo) {
                let k = choose|k: int| 0 <= k < acc.len() && acc[k] == lo;
                assert(acc[k] == base + k);
            }
        }
        assert(acc.push(lo) =~= run(base, lo + 1));
        lemma_add_range_run(base, lo + 1, hi);
    } else {
        assert(run(base, lo) =~= run(base, hi));
    }
}

/// The text `a-b` splits at its dash into the decimal texts of `a` and `b`.
proof fn lemma_range_text_split(a: nat, b: nat)
    ensures
        split_once_spec(decimal(a) + "-"@ + decimal(b), '-') == Some((decimal(a), decimal(b))),
{
    reveal_strlit("-");
    let da = decimal(a);
    let db = decimal(b);
    let s = da + "-"@ + db;
    let p = seq!['-'];
    let m = da.len() as int;
    lemma_decimal_digits(a);
    lemma_decimal_digits(b);
    assert(s.subrange(m, m + 1) =~= p);
    assert forall|k: int| 0 <= k < m implies !occurs_at(s, p, k) by {
        assert(s[k] == da[k]);
        assert(is_digit(da[k]));
        assert(s.subrange(k, k + 1)[0] == s[k]);
    }
    lemma_find_from_first(s, p, 0, m);
    assert(s.take(m) =~= da);
    assert(s.skip(m + 1) =~= db);
}

/// The answer `a-b`, for tags `a` to `b` that exist, selects exactly the tags `a`,
/// `a + 1`, ..., `b` (the indices `a - 1` to `b - 1`), in that order.
pub proof fn lemma_selection_of_range(a: nat, b: nat, n: nat)
    requires
        1 <= a <= b <= n <= usize::MAX,
    ensures
        selection_spec(decimal(a) + "-"@ + decimal(b), n) == Some(
            Seq::new((b - a + 1) as nat, |i: int| a - 1 + i),
        ),
{
    reveal_strlit("-");
    reveal_strlit("a");
    reveal_strlit("all");
    let da = decimal(a);
    let db = decimal(b);
    let s = da + "-"@ + db;
    lemma_decimal_digits(a);
    lemma_decimal_digits(b);
    assert(s[0] == da[0]);
    assert(is_digit(da[0]));
    assert(s.last() == db.last());
    assert(is_digit(db[db.len() - 1]));
    assert(!eq_ignore_ascii_case_spec(s, "a"@));
    assert(!eq_ignore_ascii_case_spec(s, "all"@)) by {
        if s.len() == 3 {
            assert(ascii_lower(s[0]) == s[0]);
        }
    }
    assert forall|i: int| 0 <= i < s.len() implies s[i] != ',' by {
        if i < da.len() {
            assert(s[i] == da[i]);
            assert(is_digit(da[i]));
        } else if i > da.len() {
            assert(s[i] == db[i - da.len() - 1]);
            assert(is_digit(db[i - da.len() - 1]));
        }
    }
    lemma_split_absent(s, ',');
    lemma_trim_unchanged(s);
    lemma_trim_unchanged(da);
    lemma_trim_unchanged(db);
    lemma_range_text_split(a, b);
    lemma_parse_decimal(a, usize::MAX as int);
    lemma_parse_decimal(b, usize::MAX as int);
    lemma_add_range_run(a - 1, a - 1, b as int);
    assert(run(a - 1, a - 1) =~= Seq::<int>::empty());
    assert(seq![s].drop_first() =~= Seq::<Seq<char>>::empty());
    assert(run(a - 1, b as int) =~= Seq::new((b - a + 1) as nat, |i: int| a - 1 + i));
    assert(trim_spec(seq![s][0]) == s);
    assert(split_once_spec(s, '-') == Some((da, db)));
    assert(parse_unsigned_spec(trim_spec(da), usize::MAX as int) == Some(a as int));
    assert(parse_unsigned_spec(trim_spec(db), usize::MAX as int) == Some(b as int));
    assert(select_parts(seq![], n, run(a - 1, b as int)) == Some(run(a - 1, b as int)));
    assert(select_parts(seq![s], n, Seq::empty()) == Some(run(a - 1, b as int)));
    assert(run(a - 1, b as int).len() > 0);
}

/// A decimal text is neither `a` nor `all` in any case, holds no `,` or `-`, and has no
/// whitespace to trim.
proof fn lemma_decimal_plain(i: nat)
    ensures
        !eq_ignore_ascii_case_spec(decimal(i), "a"@),
        !eq_ignore_ascii_case_spec(decimal(i), "all"@),
        forall|k: int| 0 <= k < decimal(i).len() ==> decimal(i)[k] != ',' && decimal(i)[k] != '-',
        trim_spec(decimal(i)) == decimal(i),
        split_once_spec(decimal(i), '-') is None,
        decimal(i).len() > 0,
        is_digit(decimal(i)[0]),
{
    reveal_strlit("a");
    reveal_strlit("all");
    let s = decimal(i);
    lemma_decimal_digits(i);
    assert(is_digit(s[0]));
    assert(is_digit(s[s.len() - 1]));
    assert(!eq_ignore_ascii_case_spec(s, "a"@)) by {
        if s.len() == 1 {
            assert(ascii_lower(s[0]) == s[0]);
        }
    }
    assert(!eq_ignore_ascii_case_spec(s, "all"@)) by {
        if s.len() == 3 {
            assert(ascii_lower(s[0]) == s[0]);
        }
    }
    assert forall|k: int| 0 <= k < s.len() implies s[k] != ',' && s[k] != '-' by {
        assert(is_digit(s[k]));
    }
    lemma_trim_unchanged(s);
    lemma_find_from(s, seq!['-'], 0);
    assert forall|k: int| 0 <= k < s.len() implies !occurs_at(s, seq!['-'], k) by {
        assert(s.subrange(k, k + 1)[0] == s[k]);
    }
}

/// An item that names an existing tag by its number adds that tag's index.
proof fn lemma_number_part(i: nat, n: nat, acc: Seq<int>, rest: Seq<Seq<char>>)
    requires
        1 <= i <= n <= usize::MAX,
    ensures
        select_parts(seq![decimal(i)] + rest, n, acc) == select_parts(rest, n, add_index(acc, i - 1)),
{
    lemma_decimal_plain(i);
    lemma_parse_decimal(i, usize::MAX as int);
    let parts = seq![decimal(i)] + rest;
    assert(parts[0] == decimal(i));
    assert(parts.drop_first() =~= rest);
}

/// The answer `i`, for a tag `i` that exists, selects exactly that tag (the index `i - 1`).
pub proof fn lemma_selection_of_number(i: nat, n: nat)
    requires
        1 <= i <= n <= usize::MAX,
    ensures
        selection_spec(decimal(i), n) == Some(seq![i - 1]),
{
    let s = decimal(i);
    lemma_decimal_plain(i);
    lemma_split_absent(s, ',');
    lemma_number_part(i, n, Seq::empty(), Seq::empty());
    assert(seq![s] + Seq::<Seq<char>>::empty() =~= seq![s]);
    assert(!Seq::<int>::empty().contains(i - 1));
    assert(Seq::<int>::empty().push(i - 1) =~= seq![i - 1]);
}

/// The answer `i,j`, for tags `i` and `j` that exist, selects tag `i` and then tag `j`, or
/// tag `i` alone when both name the same tag.
pub proof fn lemma_selection_of_pair(i: nat, j: nat, n: nat)
    requires
        1 <= i <= n <= usize::MAX,
        1 <= j <= n,
    ensures
        selection_spec(decimal(i) + ","@ + decimal(j), n) == Some(
            if i == j {
                seq![i - 1]
            } else {
                seq![i - 1, j - 1]
            },
        ),
{
    reveal_strlit(",");
    reveal_strlit("a");
    reveal_strlit("all");
    let di = decimal(i);
    let dj = decimal(j);
    let s = di + ","@ + dj;
    lemma_decimal_plain(i);
    lemma_decimal_plain(j);
    assert(s[0] == di[0]);
    assert(!eq_ignore_ascii_case_spec(s, "a"@));
    assert(!eq_ignore_ascii_case_spec(s, "all"@)) by {
        if s.len() == 3 {
            assert(ascii_lower(s[0]) == s[0]);
        }
    }
    assert(","@ =~= seq![',']);
    lemma_split_piece(di, ',', dj);
    lemma_split_absent(dj, ',');
    assert(split_on(s, ',') =~= seq![di] + seq![dj]);
    lemma_number_part(i, n, Seq::empty(), seq![dj]);
    let first = add_index(Seq::empty(), i - 1);
    assert(!Seq::<int>::empty().contains(i - 1));
    assert(first =~= seq![i - 1]);
    lemma_number_part(j, n, first, Seq::empty());
    assert(seq![dj] + Seq::<Seq<char>>::empty() =~= seq![dj]);
    if i != j {
        assert(!first.contains(j - 1)) by {
            if first.contains(j - 1) {
                let k = choose|k: int| 0 <= k < first.len() && first[k] == j - 1;
                assert(first[k] == i - 1);
            }
        }
        assert(first.push(j - 1) =~= seq![i - 1, j - 1]);
    } else {
        assert(first[0] == j - 1);
    }
}

/// The tags at the indices `s`.
pub open spec fn pick(tags: Seq<DownloadTag>, s: Seq<int>) -> Seq<(u64, Seq<char>)> {
    s.map_values(|i: int| tag_view(tags[i]))
}

/// Marking index `x` as seen keeps the marks equal to the members of the selection.
proof fn lemma_mark_selected(seen0: Seq<bool>, seen1: Seq<bool>, before: Seq<int>, x: int, n: int)
    requires
        seen0.len() == n,
        0 <= x < n,
        seen1 == seen0.update(x, true),
        !seen0[x],
        forall|k: int| 0 <= k < n ==> (seen0[k] <==> before.contains(k)),
    ensures
        forall|k: int| 0 <= k < n ==> (seen1[k] <==> before.push(x).contains(k)),
        add_index(before, x) == before.push(x),
{
    let after = before.push(x);
    assert(!before.contains(x));
    assert forall|k: int| 0 <= k < n implies (seen1[k] <==> after.contains(k)) by {
        if k == x {
            assert(after[before.len() as int] == k);
        } else {
            assert(seen1[k] == seen0[k]);
            if before.contains(k) {
                let w = choose|w: int| 0 <= w < before.len() && before[w] == k;
                assert(after[w] == k);
            }
            if after.contains(k) {
                let w = choose|w: int| 0 <= w < after.len() && after[w] == k;
                assert(w < before.len());
                assert(before[w] == k);
            }
        }
    }
}

/// Picking one index more adds that tag at the end.
proof fn lemma_pick_push(tags: Seq<DownloadTag>, s: Seq<int>, x: int)
    ensures
        pick(tags, s.push(x)) == pick(tags, s).push(tag_view(tags[x])),
{
    assert(pick(tags, s.push(x)) =~= pick(tags, s).push(tag_view(tags[x])));
}

/// The tags that the answer `input` to the selection menu chooses, each once, in the
/// order in which they are first named; `None` for an answer that cannot be read.
pub fn parse_download_selection_input(input: &str, tags: &Vec<DownloadTag>) -> (r: Option<
    Vec<DownloadTag>,
>)
    ensures
        match selection_spec(input@, tags@.len()) {
            Some(s) => r is Some && tags_view(r->0@) == pick(tags@, s),
            None => r is None,
        },
{
    let text = chars_of(input);
    let n: usize = tags.len();
    if text.len() == 0 || eq_ignore_ascii_case_str(&text, "a") || eq_ignore_ascii_case_str(
        &text,
        "all",
    ) {
        let mut all: Vec<DownloadTag> = Vec::new();
        let mut i: usize = 0;
        while i < n
            invariant
                i <= n == tags@.len(),
                all@.len() == i,
                forall|k: int| 0 <= k < i ==> tag_view(#[trigger] all@[k]) == tag_view(tags@[k]),
            decreases n - i,
        {
            let t = &tags[i];
            all.push(DownloadTag { file_id: t.file_id, label: t.label.clone() });
            i += 1;
        }
        assert(tags_view(all@) =~= pick(tags@, Seq::new(n as nat, |k: int| k)));
        return Some(all);
    }
    let parts = split_chars(&text, ',');
    let ghost pv = split_on(input@, ',');
    let mut selected: Vec<DownloadTag> = Vec::new();
    let mut seen: Vec<bool> = Vec::new();
    let mut j: usize = 0;
    while j < n
        invariant
            j <= n,
            seen@.len() == j,
            forall|k: int| 0 <= k < j ==> !seen@[k],
        decreases n - j,
    {
        seen.push(false);
        j += 1;
    }
    let ghost mut acc: Seq<int> = Seq::empty();
    let mut p: usize = 0;
    proof {
        assert(pv.skip(0) =~= pv);
    }
    while p < parts.len()
        invariant
            n == tags@.len(),
            pv == split_on(input@, ','),
            !(input@.len() == 0 || eq_ignore_ascii_case_spec(input@, "a"@)
                || eq_ignore_ascii_case_spec(input@, "all"@)),
            parts@.len() == pv.len(),
            forall|k: int| 0 <= k < parts@.len() ==> (#[trigger] parts@[k])@ == pv[k],
            p <= parts@.len(),
            seen@.len() == n,
            distinct_below(acc, n as int),
            forall|k: int| 0 <= k < n ==> (seen@[k] <==> acc.contains(k)),
            tags_view(selected@) == pick(tags@, acc),
            select_parts(pv, n as nat, Seq::empty()) == select_parts(pv.skip(p as int), n as nat, acc),
        decreases parts@.len() - p,
    {
        let ghost rest = pv.skip(p as int);
        proof {
            assert(rest[0] == pv[p as int]);
            assert(rest.drop_first() =~= pv.skip(p + 1));
        }
        let part = trim(&parts[p]);
        if part.len() == 0 {
            return None;
        }
        match split_once(&part, '-') {
            Some((a, b)) => {
                let ta = trim(&a);
                let tb = trim(&b);
                let lo = match parse_usize(&ta) {
                    Some(v) => v,
                    None => return None,
                };
                let hi = match parse_usize(&tb) {
                    Some(v) => v,
                    None => return None,
                };
                if lo == 0 || hi == 0 || lo > hi || hi > n {
                    return None;
                }
                let mut k: usize = lo - 1;
                let ghost acc0 = acc;
                while k < hi
                    invariant
                        1 <= lo,
                        lo - 1 <= k <= hi,
                        hi <= n == tags@.len(),
                        seen@.len() == n,
                        distinct_below(acc, n as int),
                        forall|j: int| 0 <= j < n ==> (seen@[j] <==> acc.contains(j)),
                        tags_view(selected@) == pick(tags@, acc),
                        add_range(acc0, lo - 1, hi as int) == add_range(acc, k as int, hi as int),
                    decreases hi - k,
                {
                    let ghost before = acc;
                    proof {
                        lemma_add_index(acc, k as int, n as int);
                    }
                    if !seen[k] {
                        let ghost seen0 = seen@;
                        let ghost sel0 = selected@;
                        let t = &tags[k];
                        selected.push(DownloadTag { file_id: t.file_id, label: t.label.clone() });
                        seen.set(k, true);
                        proof {
                            lemma_mark_selected(seen0, seen@, before, k as int, n as int);
                            lemma_pick_push(tags@, before, k as int);
                            assert(tags_view(selected@) =~= tags_view(sel0).push(tag_view(tags@[k as int])));
                            acc = acc.push(k as int);
                        }
                    } else {
                        assert(add_index(before, k as int) == acc);
                    }
                    k += 1;
                }
                proof {
                    assert(select_parts(rest, n as nat, acc0) == select_parts(
                        rest.drop_first(),
                        n as nat,
                        add_range(acc0, lo - 1, hi as int),
                    ));
                }
            },
            None => {
                let i = match parse_usize(&part) {
                    Some(v) => v,
                    None => return None,
                };
                if i == 0 || i > n {
                    return None;
                }
                let ghost before = acc;
                proof {
                    lemma_add_index(acc, i - 1, n as int);
                }
                if !seen[i - 1] {
                    let ghost seen0 = seen@;
                    let ghost sel0 = selected@;
                    let t = &tags[i - 1];
                    selected.push(DownloadTag { file_id: t.file_id, label: t.label.clone() });
                    seen.set(i - 1, true);
                    proof {
                        lemma_mark_selected(seen0, seen@, before, i - 1, n as int);
                        lemma_pick_push(tags@, before, i - 1);
                        assert(tags_view(selected@) =~= tags_view(sel0).push(tag_view(tags@[i - 1])));
                        acc = acc.push(i - 1);
                    }
                } else {
                    assert(add_index(before, i - 1) == acc);
                }
            },
        }
        p += 1;
    }
    proof {
        assert(pv.skip(p as int) =~= Seq::<Seq<char>>::empty());
    }
    if selected.len() == 0 {
        None
    } else {
        Some(selected)
    }
}

/// The arguments of `download file`. `output` and `out_dir` are paths as given, before
/// `~` is expanded.
#[derive(Debug)]
pub struct DownloadFileArgs {
    pub room_id: Option<u64>,
    pub file_id: Option<u64>,
    pub chat_url: Option<String>,
    pub chat_url_arg: Option<String>,
    pub output: Option<String>,
    pub out_dir: Option<String>,
    pub force: bool,
}

/// Where the files to download are named.
#[derive(Clone, Copy, PartialEq, Eq, Structural, Debug)]
pub enum DownloadSource {
    /// One file, by `--room-id` and `--file-id`.
    File { room_id: u64, file_id: u64 },
    /// The files whose download tags the message at a chat URL holds.
    Message { room_id: u64, message_id: u64 },
}

/// Which files `download file` fetches: `--room-id` with `--file-id`, or the message of
/// the chat URL given as an argument or with `--chat-url` (exactly one of these).
pub fn resolve_download_files(args: &DownloadFileArgs) -> (r: Result<DownloadSource, CliError>)
    ensures
        args.chat_url is Some && args.chat_url_arg is Some ==> r is Err && is_usage0(
            r->Err_0,
            UsageContext::DownloadFile,
            "Specify the chat URL either as an argument or with --chat-url, not both."@,
        ),
        !(args.chat_url is Some && args.chat_url_arg is Some) ==> match (
            args.room_id,
            args.file_id,
            chosen_url(args.chat_url, args.chat_url_arg),
        ) {
            (Some(room), Some(file), None) => r == Ok::<DownloadSource, CliError>(
                DownloadSource::File { room_id: room, file_id: file },
            ),
            (None, None, Some(url)) => match url_parts_spec(url) {
                Some((room, Some(message))) => r == Ok::<DownloadSource, CliError>(
                    DownloadSource::Message { room_id: room, message_id: message },
                ),
                Some((_, None)) => r is Err && is_no_message_id_error(
                    r->Err_0,
                    UsageContext::DownloadFile,
                ),
                None => r is Err && is_bad_url_error(r->Err_0, UsageContext::DownloadFile),
            },
            (Some(_), None, None) | (None, Some(_), None) => r is Err && is_usage0(
                r->Err_0,
                UsageContext::DownloadFile,
                "Specify both --room-id and --file-id."@,
            ),
            _ => r is Err && is_usage0(
                r->Err_0,
                UsageContext::DownloadFile,
                "Specify either --chat-url or the pair of --room-id and --file-id."@,
            ),
        },
{
    if args.chat_url.is_some() && args.chat_url_arg.is_some() {
        return Err(
            usage_error(
                UsageContext::DownloadFile,
                msg0("Specify the chat URL either as an argument or with --chat-url, not both."),
            ),
        );
    }
    let chat_url: Option<&String> = match &args.chat_url {
        Some(u) => Some(u),
        None => args.chat_url_arg.as_ref(),
    };
    match (args.room_id, args.file_id, chat_url) {
        (Some(room_id), Some(file_id), None) => Ok(DownloadSource::File { room_id, file_id }),
        (None, None, Some(url)) => {
            let (room_id, message_id) = parse_chatwork_message_url(
                url.as_str(),
                UsageContext::DownloadFile,
            )?;
            Ok(DownloadSource::Message { room_id, message_id })
        },
        (Some(_), None, None) | (None, Some(_), None) => Err(
            usage_error(UsageContext::DownloadFile, msg0("Specify both --room-id and --file-id.")),
        ),
        _ => Err(
            usage_error(
                UsageContext::DownloadFile,
                msg0("Specify either --chat-url or the pair of --room-id and --file-id."),
            ),
        ),
    }
}

/// Checks `--output` and `--out-dir` against the number of files to download.
/// `output_is_dir` tells whether `--output`, with `~` expanded, names an existing
/// directory.
pub fn validate_download_destination_args(
    output: Option<&str>,
    out_dir: Option<&str>,
    file_count: usize,
    output_is_dir: bool,
) -> (r: Result<(), CliError>)
    ensures
        output is Some && out_dir is Some ==> r is Err && is_usage0(
            r->Err_0,
            UsageContext::DownloadFile,
            "Specify either --output or --out-dir, not both."@,
        ),
        !(output is Some && out_dir is Some) && file_count > 1 && output is Some && !output_is_dir
            ==> r is Err && is_usage0(
            r->Err_0,
            UsageContext::DownloadFile,
            "Downloading multiple files requires --out-dir, an existing directory passed to --output, or no output path."@,
        ),
        !(output is Some && out_dir is Some) && !(file_count > 1 && output is Some
            && !output_is_dir) ==> r is Ok,
{
    if output.is_some() && out_dir.is_some() {
        return Err(
            usage_error(
                UsageContext::DownloadFile,
                msg0("Specify either --output or --out-dir, not both."),
            ),
        );
    }
    if file_count > 1 && output.is_some() && !output_is_dir {
        return Err(
            usage_error(
                UsageContext::DownloadFile,
                msg0(
                    "Downloading multiple files requires --out-dir, an existing directory passed to --output, or no output path.",
                ),
            ),
        );
    }
    Ok(())
}

/// The download directory named by the environment (`raw`), with `~` expanded; an empty
/// value names none.
pub open spec fn default_download_dir_spec(raw: Option<Seq<char>>, home: Option<Seq<char>>) -> Option<
    Seq<char>,
> {
    match raw {
        Some(d) => if d.len() > 0 {
            Some(expand_home_spec(d, home))
        } else {
            None
        },
        None => None,
    }
}

/// The default download directory from the value of `CHATWORK_DEFAULT_DOWNLOAD_DIR`.
pub fn default_download_dir(raw: Option<&str>, home: Option<&str>) -> (r: Option<String>)
    ensures
        match default_download_dir_spec(opt_view(raw), opt_view(home)) {
            Some(d) => r is Some && r->0@ == d,
            None => r is None,
        },
{
    match raw {
        Some(d) => {
            if d.is_empty() {
                None
            } else {
                Some(expand_home(d, home))
            }
        },
        None => None,
    }
}

/// Where a downloaded file named `filename` is written, in this order of preference: to
/// `--output`, or into it when it is a directory; into `--out-dir`; into the default
/// download directory; into the working directory.
pub open spec fn output_path_spec(
    filename: Seq<char>,
    output: Option<Seq<char>>,
    out_dir: Option<Seq<char>>,
    home: Option<Seq<char>>,
    default_dir: Option<Seq<char>>,
    output_is_dir: bool,
) -> Seq<char> {
    match output {
        Some(p) => if output_is_dir {
            join_spec(expand_home_spec(p, home), filename)
        } else {
            expand_home_spec(p, home)
        },
        None => match out_dir {
            Some(d) => join_spec(expand_home_spec(d, home), filename),
            None => match default_download_dir_spec(default_dir, home) {
                Some(d) => join_spec(d, filename),
                None => filename,
            },
        },
    }
}

/// The path a downloaded file is written to. `default_dir` is the value of
/// `CHATWORK_DEFAULT_DOWNLOAD_DIR`, and `output_is_dir` tells whether `--output`, with
/// `~` expanded, names an existing directory.
pub fn resolve_download_output_path(
    filename: &str,
    output: Option<&str>,
    out_dir: Option<&str>,
    home: Option<&str>,
    default_dir: Option<&str>,
    output_is_dir: bool,
) -> (r: String)
    ensures
        r@ == output_path_spec(
            filename@,
            opt_view(output),
            opt_view(out_dir),
            opt_view(home),
            opt_view(default_dir),
            output_is_dir,
        ),
{
    if let Some(p) = output {
        let e = expand_home(p, home);
        if output_is_dir {
            return path_join(e.as_str(), filename);
        }
        return e;
    }
    match out_dir {
        Some(dir) => {
            let d = expand_home(dir, home);
            path_join(d.as_str(), filename)
        },
        None => match default_download_dir(default_dir, home) {
            Some(d) => path_join(d.as_str(), filename),
            None => filename.to_owned(),
        },
    }
}

/// With `--out-dir ~/<rest>` (and no `--output`), the file goes into `<rest>` below the home
/// directory; with any `--out-dir d` that does not start with `~`, into `d` itself.
pub proof fn lemma_out_dir_under_home(
    filename: Seq<char>,
    rest: Seq<char>,
    d: Seq<char>,
    home: Seq<char>,
    default_dir: Option<Seq<char>>,
    output_is_dir: bool,
)
    ensures
        output_path_spec(filename, None, Some("~/"@ + rest), Some(home), default_dir, output_is_dir)
            == join_spec(join_spec(home, rest), filename),
        d.len() == 0 || d[0] != '~' ==> output_path_spec(
            filename,
            None,
            Some(d),
            Some(home),
            default_dir,
            output_is_dir,
        ) == join_spec(d, filename),
{
    reveal_strlit("~/");
    reveal_strlit("~");
    let od = "~/"@ + rest;
    assert(od.len() >= 2);
    assert(od != "~"@);
    assert(starts_with_spec(od, "~/"@)) by {
        assert(od.take(2) =~= "~/"@);
    }
    assert(od.skip(2) =~= rest);
    if d.len() == 0 || d[0] != '~' {
        assert(d != "~"@);
        if starts_with_spec(d, "~/"@) {
            assert(d.take(2)[0] == d[0]);
        }
    }
}

/// `--output` wins over `--out-dir` and the default directory: `--output ~/<rest>` writes to
/// `<rest>` below the home directory, or into it when it is a directory; an `--output p`
/// that does not start with `~` writes to `p` itself, or into it when it is a directory.
pub proof fn lemma_output_under_home(
    filename: Seq<char>,
    rest: Seq<char>,
    p: Seq<char>,
    out_dir: Option<Seq<char>>,
    home: Seq<char>,
    default_dir: Option<Seq<char>>,
)
    ensures
        output_path_spec(filename, Some("~/"@ + rest), out_dir, Some(home), default_dir, false)
            == join_spec(home, rest),
        output_path_spec(filename, Some("~/"@ + rest), out_dir, Some(home), default_dir, true)
            == join_spec(join_spec(home, rest), filename),
        p.len() == 0 || p[0] != '~' ==> output_path_spec(
            filename,
            Some(p),
            out_dir,
            Some(home),
            default_dir,
            false,
        ) == p,
        p.len() == 0 || p[0] != '~' ==> output_path_spec(
            filename,
            Some(p),
            out_dir,
            Some(home),
            default_dir,
            true,
        ) == join_spec(p, filename),
{
    reveal_strlit("~/");
    reveal_strlit("~");
    let od = "~/"@ + rest;
    assert(od.len() >= 2);
    assert(od != "~"@);
    assert(starts_with_spec(od, "~/"@)) by {
        assert(od.take(2) =~= "~/"@);
    }
    assert(od.skip(2) =~= rest);
    if p.len() == 0 || p[0] != '~' {
        assert(p != "~"@);
        if starts_with_spec(p, "~/"@) {
            assert(p.take(2)[0] == p[0]);
        }
    }
}

} // verus!
