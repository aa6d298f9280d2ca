//! Message translation with gettext-style `.po` catalogs.
//!
//! A catalog maps an English `msgid` to its translation. Reading the catalog file and
//! the locale environment variables is left to the caller; this module decides which
//! catalog applies, parses it, and looks messages up.
use vstd::prelude::*;
use crate::strmap::{lemma_map_of_push, map_of, StrMap};
use crate::text::{
    all_digits, ascii_lower, ascii_lower_char, before_char, chars_eq_str, chars_of, find, find_from, find_spec, occurs_at,
    lemma_find_from, prefix_before, push_all, slice_chars, split_chars, split_on,
    starts_with_spec, starts_with_str, string_of, trim, trim_end_spec, trim_spec, trim_start_spec,
};

verus! {

/// The locale used when none is configured.
pub const DEFAULT_LOCALE: &'static str = "ja";

/// The gettext domain: catalogs are named `<DOMAIN>.po`.
pub const DOMAIN: &'static str = "chatwork-cli";

/// The environment variable that names the directory holding the catalogs.
pub const LOCALE_DIR_ENV_NAME: &'static str = "CHATWORK_LOCALE_DIR";

/// The environment variables consulted for the locale, in order.
pub const LOCALE_ENV_NAMES: [&'static str; 4] = ["CHATWORK_LOCALE", "LC_ALL", "LC_MESSAGES", "LANG"];

// ---------------------------------------------------------------------------
// Looking messages up.

/// The translation of `msgid`, or `msgid` itself when the catalog has none.
pub open spec fn gettext_spec(catalog: Map<Seq<char>, Seq<char>>, msgid: Seq<char>) -> Seq<char> {
    if catalog.contains_key(msgid) {
        catalog[msgid]
    } else {
        msgid
    }
}

/// Every occurrence of the non-empty pattern `p` in `s`, from left to right and without
/// overlap, replaced by `r` (`str::replace`).
pub open spec fn replace_all(s: Seq<char>, p: Seq<char>, r: Seq<char>) -> Seq<char>
    decreases s.len(),
{
    if p.len() == 0 {
        s
    } else {
        match find_spec(s, p) {
            Some(i) => {
                proof {
                    lemma_find_from(s, p, 0);
                }
                s.take(i) + r + replace_all(s.skip(i + p.len()), p, r)
            },
            None => s,
        }
    }
}

/// The placeholder `{key}`.
pub open spec fn placeholder(key: Seq<char>) -> Seq<char> {
    seq!['{'] + key + seq!['}']
}

/// `text` with the placeholder of each variable replaced by its value, in order.
pub open spec fn fill_placeholders(text: Seq<char>, vars: Seq<(Seq<char>, Seq<char>)>) -> Seq<char>
    decreases vars.len(),
{
    if vars.len() == 0 {
        text
    } else {
        fill_placeholders(
            replace_all(text, placeholder(vars[0].0), vars[0].1),
            vars.drop_first(),
        )
    }
}

/// The views of a list of string pairs.
pub open spec fn pair_views(vars: Seq<(&str, &str)>) -> Seq<(Seq<char>, Seq<char>)> {
    vars.map_values(|p: (&str, &str)| (p.0@, p.1@))
}

/// The translated message with its placeholders filled in.
pub open spec fn gettextf_spec(
    catalog: Map<Seq<char>, Seq<char>>,
    msgid: Seq<char>,
    vars: Seq<(Seq<char>, Seq<char>)>,
) -> Seq<char> {
    fill_placeholders(gettext_spec(catalog, msgid), vars)
}

/// A message without variables reads as its translation.
pub proof fn lemma_gettextf_without_vars(catalog: Map<Seq<char>, Seq<char>>, msgid: Seq<char>)
    ensures
        gettextf_spec(catalog, msgid, Seq::empty()) == gettext_spec(catalog, msgid),
{
}

/// Translates `msgid` with `catalog`.
pub fn gettext(catalog: &StrMap, msgid: &str) -> (r: String)
    ensures
        r@ == gettext_spec(catalog@, msgid@),
{
    match catalog.get_str(msgid) {
        Some(t) => t,
        None => msgid.to_owned(),
    }
}

/// `str::replace` with a non-empty pattern.
pub fn replace_all_chars(s: &Vec<char>, p: &Vec<char>, r: &Vec<char>) -> (out: Vec<char>)
    requires
        p@.len() > 0,
    ensures
        out@ == replace_all(s@, p@, r@),
    decreases s@.len(),
{
    match find(s, p) {
        Some(i) => {
            proof {
                lemma_find_from(s@, p@, 0);
                assert(find_from(s@, p@, 0) == Some(i as int));
                let ff = find_from(s@, p@, 0);
                assert(occurs_at(s@, p@, ff->0));
                assert(i + p@.len() <= s@.len());
            }
            let pl = p.len();
            let sl = s.len();
            assert(i + pl <= sl);
            let rest = slice_chars(s, i + pl, sl);
            assert(rest@ =~= s@.skip(i + p@.len()));
            let tail = replace_all_chars(&rest, p, r);
            let mut out = slice_chars(s, 0, i);
            push_all(&mut out, r);
            push_all(&mut out, &tail);
            assert(s@.subrange(0, i as int) =~= s@.take(i as int));
            out
        },
        None => slice_chars(s, 0, s.len()),
    }
}

/// Translates `msgid` with `catalog` and replaces each `{key}` placeholder by its value.
pub fn gettextf(catalog: &StrMap, msgid: &str, vars: &[(&str, &str)]) -> (r: String)
    ensures
        r@ == gettextf_spec(catalog@, msgid@, pair_views(vars@)),
{
    let translated = gettext(catalog, msgid);
    let mut text = chars_of(translated.as_str());
    let ghost pv = pair_views(vars@);
    let mut i: usize = 0;
    assert(pv.skip(0) =~= pv);
    while i < vars.len()
        invariant
            i <= vars@.len(),
            pv == pair_views(vars@),
            pv.len() == vars@.len(),
            gettextf_spec(catalog@, msgid@, pv) == fill_placeholders(text@, pv.skip(i as int)),
        decreases vars.len() - i,
    {
        let (key, value) = vars[i];
        let mut ph: Vec<char> = vec!['{'];
        let kc = chars_of(key);
        push_all(&mut ph, &kc);
        ph.push('}');
        let vc = chars_of(value);
        proof {
            assert(ph@ =~= placeholder(pv[i as int].0));
            assert(pv.skip(i as int)[0] == pv[i as int]);
            assert(pv.skip(i as int).drop_first() =~= pv.skip(i + 1));
        }
        text = replace_all_chars(&text, &ph, &vc);
        i += 1;
    }
    assert(pv.skip(i as int) =~= Seq::<(Seq<char>, Seq<char>)>::empty());
    string_of(&text)
}

// ---------------------------------------------------------------------------
// Choosing the locale and the catalog.

/// `value` reduced to its language: the part before any `.`, `@` and `_`, lower-cased;
/// the default locale for an empty language, `C` and `POSIX`.
pub open spec fn normalize_locale_spec(value: Seq<char>) -> Seq<char> {
    let primary = before_char(before_char(before_char(value, '.'), '@'), '_');
    if primary.len() == 0 || primary == "C"@ || primary == "POSIX"@ {
        DEFAULT_LOCALE@
    } else {
        primary.map_values(|c: char| ascii_lower(c))
    }
}

/// The language part of a locale name such as `ja_JP.UTF-8`.
pub fn normalize_locale(value: &str) -> (r: String)
    ensures
        r@ == normalize_locale_spec(value@),
{
    let v = chars_of(value);
    let a = prefix_before(&v, '.');
    let b = prefix_before(&a, '@');
    let primary = prefix_before(&b, '_');
    if primary.len() == 0 || chars_eq_str(&primary, "C") || chars_eq_str(&primary, "POSIX") {
        return DEFAULT_LOCALE.to_owned();
    }
    let mut out: Vec<char> = Vec::new();
    let mut i: usize = 0;
    while i < primary.len()
        invariant
            i <= primary.len(),
            out@ == primary@.take(i as int).map_values(|c: char| ascii_lower(c)),
        decreases primary.len() - i,
    {
        out.push(ascii_lower_char(primary[i]));
        i += 1;
        assert(out@ =~= primary@.take(i as int).map_values(|c: char| ascii_lower(c)));
    }
    assert(primary@.take(i as int) =~= primary@);
    string_of(&out)
}

/// The locale that the first set variable names, or the default locale.
pub open spec fn selected_locale_spec(values: Seq<Option<Seq<char>>>) -> Seq<char>
    decreases values.len(),
{
    if values.len() == 0 {
        DEFAULT_LOCALE@
    } else {
        match values[0] {
            Some(v) => {
                let n = normalize_locale_spec(v);
                if n.len() > 0 {
                    n
                } else {
                    selected_locale_spec(values.drop_first())
                }
            },
            None => selected_locale_spec(values.drop_first()),
        }
    }
}

pub open spec fn option_views(values: Seq<Option<String>>) -> Seq<Option<Seq<char>>> {
    values.map_values(
        |o: Option<String>|
            match o {
                Some(s) => Some(s@),
                None => None,
            },
    )
}

/// The locale chosen from the values of `LOCALE_ENV_NAMES`, in that order (`None` for a
/// variable that is not set).
pub fn selected_locale(values: &Vec<Option<String>>) -> (r: String)
    ensures
        r@ == selected_locale_spec(option_views(values@)),
{
    let ghost ov = option_views(values@);
    let mut i: usize = 0;
    assert(ov.skip(0) =~= ov);
    while i < values.len()
        invariant
            i <= values@.len(),
            ov == option_views(values@),
            ov.len() == values@.len(),
            selected_locale_spec(ov) == selected_locale_spec(ov.skip(i as int)),
        decreases values.len() - i,
    {
        proof {
            assert(ov.skip(i as int)[0] == ov[i as int]);
            assert(ov.skip(i as int).drop_first() =~= ov.skip(i + 1));
        }
        match &values[i] {
            Some(v) => {
                let n = normalize_locale(v.as_str());
                if !n.as_str().is_empty() {
                    return n;
                }
            },
            None => {},
        }
        i += 1;
    }
    assert(ov.skip(i as int) =~= Seq::<Option<Seq<char>>>::empty());
    DEFAULT_LOCALE.to_owned()
}

/// Which catalog applies: an external catalog file when one was found, the built-in
/// catalog for the default locale, and otherwise none.
pub open spec fn load_catalog_spec(
    locale: Seq<char>,
    external: Option<Seq<char>>,
    builtin: Seq<char>,
) -> Map<Seq<char>, Seq<char>> {
    match external {
        Some(content) => po_catalog_spec(content),
        None => if locale == DEFAULT_LOCALE@ {
            po_catalog_spec(builtin)
        } else {
            Map::empty()
        },
    }
}

/// The catalog for `locale`, given the content of its catalog file if one was read, and
/// the built-in catalog of the default locale.
pub fn load_catalog(locale: &str, external: Option<&str>, builtin: &str) -> (r: StrMap)
    ensures
        r@ == load_catalog_spec(
            locale@,
            match external {
                Some(c) => Some(c@),
                None => None,
            },
            builtin@,
        ),
{
    if let Some(content) = external {
        return parse_po_catalog(content);
    }
    let l = chars_of(locale);
    if chars_eq_str(&l, DEFAULT_LOCALE) {
        return parse_po_catalog(builtin);
    }
    StrMap::new()
}

// ---------------------------------------------------------------------------
// The `.po` format.

/// The characters of a quoted `.po` string after its escapes are decoded.
pub open spec fn po_unescape(s: Seq<char>) -> Seq<char>
    decreases s.len(),
{
    if s.len() == 0 {
        Seq::empty()
    } else if s[0] == '\\' {
        if s.len() == 1 {
            seq!['\\']
        } else {
            let c = s[1];
            let e = if c == 'n' {
                seq!['\n']
            } else if c == 'r' {
                seq!['\r']
            } else if c == 't' {
                seq!['\t']
            } else if c == '"' {
                seq!['"']
            } else if c == '\\' {
                seq!['\\']
            } else {
                seq!['\\', c]
            };
            e + po_unescape(s.skip(2))
        }
    } else {
        seq![s[0]] + po_unescape(s.drop_first())
    }
}

/// A `.po` string literal decoded: the text between the enclosing quotes, unescaped;
/// empty when `value` is not enclosed in quotes.
pub open spec fn po_string_spec(value: Seq<char>) -> Seq<char> {
    if value.len() >= 2 && value[0] == '"' && value.last() == '"' {
        po_unescape(value.subrange(1, value.len() - 1))
    } else {
        Seq::empty()
    }
}

fn po_unescape_chars(s: &Vec<char>) -> (r: Vec<char>)
    ensures
        r@ == po_unescape(s@),
{
    let mut out: Vec<char> = Vec::new();
    let mut i: usize = 0;
    let n = s.len();
    assert(s@.skip(0) =~= s@);
    while i < n
        invariant
            i <= n == s.len(),
            po_unescape(s@) == out@ + po_unescape(s@.skip(i as int)),
        decreases n - i,
    {
        let ghost t = s@.skip(i as int);
        assert(t[0] == s@[i as int]);
        if s[i] == '\\' {
            if i + 1 == n {
                assert(t.len() == 1);
                out.push('\\');
                i += 1;
                assert(s@.skip(i as int) =~= Seq::<char>::empty());
                assert(out@ =~= out@ + po_unescape(s@.skip(i as int)));
            } else {
                let c = s[i + 1];
                assert(t[1] == c);
                assert(t.skip(2) =~= s@.skip(i + 2));
                let ghost before = out@;
                if c == 'n' {
                    out.push('\n');
                } else if c == 'r' {
                    out.push('\r');
                } else if c == 't' {
                    out.push('\t');
                } else if c == '"' {
                    out.push('"');
                } else if c == '\\' {
                    out.push('\\');
                } else {
                    out.push('\\');
                    out.push(c);
                }
                i += 2;
                proof {
                    let e = if c == 'n' {
                        seq!['\n']
                    } else if c == 'r' {
                        seq!['\r']
                    } else if c == 't' {
                        seq!['\t']
                    } else if c == '"' {
                        seq!['"']
                    } else if c == '\\' {
                        seq!['\\']
                    } else {
                        seq!['\\', c]
                    };
                    assert(out@ =~= before + e);
                    assert(po_unescape(t) == e + po_unescape(s@.skip(i as int)));
                    assert(before + (e + po_unescape(s@.skip(i as int))) =~= out@ + po_unescape(
                        s@.skip(i as int),
                    ));
                }
            }
        } else {
            let ghost before = out@;
            out.push(s[i]);
            i += 1;
            proof {
                assert(t.drop_first() =~= s@.skip(i as int));
                assert(before + (seq![t[0]] + po_unescape(t.drop_first())) =~= out@ + po_unescape(
                    s@.skip(i as int),
                ));
            }
        }
    }
    assert(s@.skip(i as int) =~= Seq::<char>::empty());
    assert(out@ + Seq::<char>::empty() =~= out@);
    out
}

fn po_string_chars(value: &Vec<char>) -> (r: Vec<char>)
    ensures
        r@ == po_string_spec(value@),
{
    let n = value.len();
    if n >= 2 && value[0] == '"' && value[n - 1] == '"' {
        let inner = slice_chars(value, 1, n - 1);
        po_unescape_chars(&inner)
    } else {
        Vec::new()
    }
}

/// Decodes a quoted `.po` string such as `"Line 1\n"`.
pub fn parse_po_string(value: &str) -> (r: String)
    ensures
        r@ == po_string_spec(value@),
{
    let v = chars_of(value);
    let r = po_string_chars(&v);
    string_of(&r)
}

/// Which string continuation lines of a `.po` entry extend.
#[derive(Clone, Copy, PartialEq, Eq, Structural, Debug)]
pub enum ActiveField {
    NoField,
    Msgid,
    Msgstr,
}

/// The state of the `.po` reader between two lines.
pub struct PoState {
    /// The entries read so far, in order.
    pub messages: Seq<(Seq<char>, Seq<char>)>,
    pub msgid: Seq<char>,
    pub msgstr: Seq<char>,
    pub active: ActiveField,
    pub has_entry: bool,
}

pub open spec fn po_initial() -> PoState {
    PoState {
        messages: Seq::empty(),
        msgid: Seq::empty(),
        msgstr: Seq::empty(),
        active: ActiveField::NoField,
        has_entry: false,
    }
}

/// Ends the current entry: it is kept when it has a non-empty msgid and msgstr.
pub open spec fn po_flush(st: PoState) -> PoState {
    PoState {
        messages: if st.has_entry && st.msgid.len() > 0 && st.msgstr.len() > 0 {
            st.messages.push((st.msgid, st.msgstr))
        } else {
            st.messages
        },
        msgid: Seq::empty(),
        msgstr: Seq::empty(),
        active: st.active,
        has_entry: false,
    }
}

/// The reader's state after one more line.
pub open spec fn po_step(st: PoState, line: Seq<char>) -> PoState {
    let t = trim_spec(line);
    if t.len() == 0 {
        let f = po_flush(st);
        PoState { active: ActiveField::NoField, ..f }
    } else if t[0] == '#' {
        st
    } else if starts_with_spec(t, "msgid "@) {
        let f = po_flush(st);
        PoState {
            messages: f.messages,
            msgid: po_string_spec(t.skip("msgid "@.len() as int)),
            msgstr: Seq::empty(),
            active: ActiveField::Msgid,
            has_entry: true,
        }
    } else if starts_with_spec(t, "msgstr "@) {
        PoState {
            msgstr: po_string_spec(t.skip("msgstr "@.len() as int)),
            active: ActiveField::Msgstr,
            ..st
        }
    } else if t[0] == '"' {
        let fragment = po_string_spec(t);
        match st.active {
            ActiveField::Msgid => PoState { msgid: st.msgid + fragment, ..st },
            ActiveField::Msgstr => PoState { msgstr: st.msgstr + fragment, ..st },
            ActiveField::NoField => st,
        }
    } else {
        st
    }
}

/// The reader's state after the given lines.
pub open spec fn po_run(lines: Seq<Seq<char>>) -> PoState
    decreases lines.len(),
{
    if lines.len() == 0 {
        po_initial()
    } else {
        po_step(po_run(lines.drop_last()), lines.last())
    }
}

/// The lines of a catalog: the text between line feeds (a carriage return before a line
/// feed is whitespace, which the reader trims).
pub open spec fn po_lines(content: Seq<char>) -> Seq<Seq<char>> {
    split_on(content, '\n')
}

/// The entries of a catalog, in order.
pub open spec fn po_entries(content: Seq<char>) -> Seq<(Seq<char>, Seq<char>)> {
    po_flush(po_run(po_lines(content))).messages
}

/// A comment line of a catalog: its trimmed text starts with `#`.
pub open spec fn is_po_comment(line: Seq<char>) -> bool {
    trim_spec(line).len() > 0 && trim_spec(line)[0] == '#'
}

/// The lines of a catalog that are not comments, in order.
pub open spec fn po_non_comment_lines(lines: Seq<Seq<char>>) -> Seq<Seq<char>> {
    lines.filter(|l: Seq<char>| !is_po_comment(l))
}

/// Comment lines leave the reader's state as it is, so reading only the other lines
/// gives the same state.
pub proof fn lemma_po_run_skips_comments(lines: Seq<Seq<char>>)
    ensures
        po_run(po_non_comment_lines(lines)) == po_run(lines),
    decreases lines.len(),
{
    reveal(Seq::filter);
    if lines.len() > 0 {
        lemma_po_run_skips_comments(lines.drop_last());
        let p = |l: Seq<char>| !is_po_comment(l);
        let rest = lines.drop_last().filter(p);
        if p(lines.last()) {
            assert(rest.push(lines.last()).drop_last() =~= rest);
        }
    }
}

/// The catalog that a `.po` text defines.
pub open spec fn po_catalog_spec(content: Seq<char>) -> Map<Seq<char>, Seq<char>> {
    map_of(po_entries(content))
}

/// Ends the current entry, keeping it in `messages` when it has a non-empty msgid and
/// msgstr, and clears the entry.
pub fn flush_entry(
    messages: &mut StrMap,
    current_msgid: &mut Vec<char>,
    current_msgstr: &mut Vec<char>,
    has_entry: &mut bool,
)
    ensures
        (*old(has_entry) && old(current_msgid)@.len() > 0 && old(current_msgstr)@.len() > 0)
            ==> final(messages)@ == old(messages)@.insert(
            old(current_msgid)@,
            old(current_msgstr)@,
        ),
        !(*old(has_entry) && old(current_msgid)@.len() > 0 && old(current_msgstr)@.len() > 0)
            ==> final(messages)@ == old(messages)@,
        final(current_msgid)@ == Seq::<char>::empty(),
        final(current_msgstr)@ == Seq::<char>::empty(),
        *final(has_entry) == false,
{
    if *has_entry && current_msgid.len() > 0 && current_msgstr.len() > 0 {
        let k = string_of(current_msgid);
        let v = string_of(current_msgstr);
        messages.insert(k, v);
    }
    *current_msgid = Vec::new();
    *current_msgstr = Vec::new();
    *has_entry = false;
}

/// Reads a `.po` catalog: each entry with a non-empty msgid and msgstr maps the msgid to
/// the msgstr; string continuation lines extend the field above them.
pub fn parse_po_catalog(content: &str) -> (r: StrMap)
    ensures
        r@ == po_catalog_spec(content@),
        forall|k: Seq<char>| #[trigger] r@.contains_key(k) ==> k.len() > 0 && r@[k].len() > 0,
{
    let chars = chars_of(content);
    let lines = split_chars(&chars, '\n');
    let ghost lv = po_lines(content@);
    let mut messages = StrMap::new();
    let mut msgid: Vec<char> = Vec::new();
    let mut msgstr: Vec<char> = Vec::new();
    let mut active = ActiveField::NoField;
    let mut has_entry = false;
    let ghost mut msgs: Seq<(Seq<char>, Seq<char>)> = Seq::empty();
    let mut i: usize = 0;
    assert(lv.take(0) =~= Seq::<Seq<char>>::empty());
    while i < lines.len()
        invariant
            i <= lines@.len() == lv.len(),
            lv == po_lines(content@),
            forall|k: int| 0 <= k < lines@.len() ==> (#[trigger] lines@[k])@ == lv[k],
            po_run(lv.take(i as int)) == (PoState {
                messages: msgs,
                msgid: msgid@,
                msgstr: msgstr@,
                active,
                has_entry,
            }),
            messages@ == map_of(msgs),
            forall|j: int| 0 <= j < msgs.len() ==> (#[trigger] msgs[j]).0.len() > 0 && msgs[j].1.len() > 0,
        decreases lines.len() - i,
    {
        let ghost st = PoState { messages: msgs, msgid: msgid@, msgstr: msgstr@, active, has_entry };
        let ghost f = po_flush(st);
        let trimmed = trim(&lines[i]);
        proof {
            assert(lv.take(i + 1).drop_last() =~= lv.take(i as int));
            assert(lv.take(i + 1).last() == lv[i as int]);
        }
        if trimmed.len() == 0 {
            proof {
                if has_entry && msgid@.len() > 0 && msgstr@.len() > 0 {
                    lemma_map_of_push(msgs, msgid@, msgstr@);
                }
                msgs = f.messages;
            }
            flush_entry(&mut messages, &mut msgid, &mut msgstr, &mut has_entry);
            active = ActiveField::NoField;
        } else if trimmed[0] == '#' {
        } else if starts_with_str(&trimmed, "msgid ") {
            proof {
                if has_entry && msgid@.len() > 0 && msgstr@.len() > 0 {
                    lemma_map_of_push(msgs, msgid@, msgstr@);
                }
                msgs = f.messages;
            }
            flush_entry(&mut messages, &mut msgid, &mut msgstr, &mut has_entry);
            let prefix_len = chars_of("msgid ").len();
            let rest = slice_chars(&trimmed, prefix_len, trimmed.len());
            assert(rest@ =~= trimmed@.skip("msgid "@.len() as int));
            msgid = po_string_chars(&rest);
            msgstr = Vec::new();
            active = ActiveField::Msgid;
            has_entry = true;
        } else if starts_with_str(&trimmed, "msgstr ") {
            let prefix_len = chars_of("msgstr ").len();
            let rest = slice_chars(&trimmed, prefix_len, trimmed.len());
            assert(rest@ =~= trimmed@.skip("msgstr "@.len() as int));
            msgstr = po_string_chars(&rest);
            active = ActiveField::Msgstr;
        } else if trimmed[0] == '"' {
            let fragment = po_string_chars(&trimmed);
            match active {
                ActiveField::Msgid => push_all(&mut msgid, &fragment),
                ActiveField::Msgstr => push_all(&mut msgstr, &fragment),
                ActiveField::NoField => {},
            }
        }
        i += 1;
    }
    proof {
        assert(lv.take(i as int) =~= lv);
        if has_entry && msgid@.len() > 0 && msgstr@.len() > 0 {
            lemma_map_of_push(msgs, msgid@, msgstr@);
        }
        msgs = po_flush(PoState { messages: msgs, msgid: msgid@, msgstr: msgstr@, active, has_entry }).messages;
    }
    flush_entry(&mut messages, &mut msgid, &mut msgstr, &mut has_entry);
    proof {
        lemma_map_of_nonempty(msgs);
    }
    messages
}

/// A map built from pairs with non-empty keys and values has only such entries.
pub proof fn lemma_map_of_nonempty(s: Seq<(Seq<char>, Seq<char>)>)
    requires
        forall|j: int| 0 <= j < s.len() ==> (#[trigger] s[j]).0.len() > 0 && s[j].1.len() > 0,
    ensures
        forall|k: Seq<char>| #[trigger] map_of(s).contains_key(k) ==> k.len() > 0 && map_of(s)[k].len() > 0,
    decreases s.len(),
{
    if s.len() > 0 {
        let t = s.drop_last();
        assert forall|j: int| 0 <= j < t.len() implies (#[trigger] t[j]).0.len() > 0 && t[j].1.len() > 0 by {
            assert(t[j] == s[j]);
        }
        lemma_map_of_nonempty(t);
        assert(s.last() == s[s.len() - 1]);
        assert forall|k: Seq<char>| #[trigger] map_of(s).contains_key(k) implies k.len() > 0
            && map_of(s)[k].len() > 0 by {
            if k != s.last().0 {
                assert(map_of(t).contains_key(k));
            }
        }
    }
}

/// Deleting the comment lines of a catalog does not change the catalog: `stripped` holds
/// the lines of `content` that are not comments (or nothing, when every line of
/// `content` is a comment).
pub proof fn lemma_po_comments_ignored(content: Seq<char>, stripped: Seq<char>)
    requires
        po_lines(stripped) == po_non_comment_lines(po_lines(content)) || (stripped.len() == 0
            && po_non_comment_lines(po_lines(content)).len() == 0),
    ensures
        po_catalog_spec(stripped) == po_catalog_spec(content),
{
    lemma_po_run_skips_comments(po_lines(content));
    if po_lines(stripped) != po_non_comment_lines(po_lines(content)) {
        let empty = Seq::<Seq<char>>::empty();
        assert(po_lines(stripped) =~= seq![Seq::<char>::empty()]);
        assert(po_lines(stripped).drop_last() =~= empty);
        assert(trim_start_spec(Seq::<char>::empty()) =~= Seq::<char>::empty());
        assert(trim_end_spec(Seq::<char>::empty()) =~= Seq::<char>::empty());
        assert(po_run(empty) == po_initial());
        assert(po_entries(stripped) =~= Seq::<(Seq<char>, Seq<char>)>::empty());
        assert(po_non_comment_lines(po_lines(content)) =~= empty);
        assert(po_entries(content) =~= Seq::<(Seq<char>, Seq<char>)>::empty());
    }
}

} // verus!
