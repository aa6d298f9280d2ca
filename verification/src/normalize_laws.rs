//! What normalizing the command line twice does: the second time changes nothing.
use vstd::prelude::*;
use crate::chat_url::{get_target_spec, ROOM_MARKER};
use crate::cli_args::{
    candidates_spec, next_context_spec, norm_finish, norm_initial, norm_run, norm_step,
    norm_wf, normalize_spec, prefix_matches, resolve_prefix_spec, special_alias_spec,
    CommandContext, NormItem, NormState,
};
use crate::text::{find_spec, lemma_find_from, occurs_at, starts_with_spec};

verus! {

/// The text that an item of the normalized command line stands for, given the command
/// line it was made from.
pub open spec fn item_text(args: Seq<Option<Seq<char>>>, item: NormItem) -> Option<Seq<char>> {
    match item {
        NormItem::Given(i) => args[i],
        NormItem::Expanded(_, w) => Some(w),
        NormItem::Inserted(w) => Some(w),
    }
}

/// The normalized command line as text.
pub open spec fn out_texts(args: Seq<Option<Seq<char>>>, out: Seq<NormItem>) -> Seq<Option<Seq<char>>> {
    out.map_values(|item: NormItem| item_text(args, item))
}

/// A state past the subcommands, where every argument is kept as it is.
pub open spec fn quiet(st: NormState) -> bool {
    st.context == CommandContext::Leaf && !st.pending_get_chat_url
}

proof fn lemma_leaf_step(st: NormState, i: int, x: Option<Seq<char>>)
    requires
        quiet(st),
    ensures
        norm_step(st, i, x) matches Ok(s2) && quiet(s2) && s2.out == st.out.push(
            NormItem::Given(i),
        ) && s2.pending_download == st.pending_download && s2.pending_upload == st.pending_upload
            && (st.download_seen ==> s2.download_seen) && (st.upload_seen ==> s2.upload_seen),
{
    reveal(norm_step);
}

/// From a quiet state on, every argument is kept as it is.
proof fn lemma_leaf_run(b: Seq<Option<Seq<char>>>, j: int, m: int)
    requires
        1 <= j <= m,
        norm_run(b, j) matches Ok(t) && quiet(t),
    ensures
        norm_run(b, m) matches Ok(u) && quiet(u) && u.out == norm_run(b, j)->Ok_0.out + Seq::new(
            (m - j) as nat,
            |q: int| NormItem::Given(j + q),
        ) && u.pending_download == norm_run(b, j)->Ok_0.pending_download && u.pending_upload
            == norm_run(b, j)->Ok_0.pending_upload && (norm_run(b, j)->Ok_0.download_seen
            ==> u.download_seen) && (norm_run(b, j)->Ok_0.upload_seen ==> u.upload_seen),
    decreases m - j,
{
    if m > j {
        lemma_leaf_run(b, j, m - 1);
        let u1 = norm_run(b, m - 1)->Ok_0;
        lemma_leaf_step(u1, m - 1, b[m - 1]);
        let t = norm_run(b, j)->Ok_0;
        assert(t.out + Seq::new((m - j) as nat, |q: int| NormItem::Given(j + q)) =~= (t.out
            + Seq::new((m - 1 - j) as nat, |q: int| NormItem::Given(j + q))).push(
            NormItem::Given(m - 1),
        ));
    } else {
        let t = norm_run(b, j)->Ok_0;
        assert(t.out + Seq::new(0, |q: int| NormItem::Given(j + q)) =~= t.out);
    }
}

/// A text without `#` is no chat URL.
proof fn lemma_no_hash_no_url(w: Seq<char>)
    requires
        forall|i: int| 0 <= i < w.len() ==> w[i] != '#',
    ensures
        get_target_spec(w) is None,
{
    reveal_strlit("#!rid");
    lemma_find_from(w, ROOM_MARKER@, 0);
    if let Some(j) = find_spec(w, ROOM_MARKER@) {
        assert(w.subrange(j, j + ROOM_MARKER@.len())[0] == w[j]);
    }
}

/// The facts about subcommand names that the second pass relies on.
pub open spec fn plain_word(w: Seq<char>) -> bool {
    &&& w.len() > 0
    &&& w[0] != '-'
    &&& forall|i: int| 0 <= i < w.len() ==> w[i] != '#'
    &&& w != "dl"@
}

proof fn lemma_candidate_words(ctx: CommandContext, k: int)
    requires
        0 <= k < candidates_spec(ctx).len(),
    ensures
        plain_word(candidates_spec(ctx)[k]),
{
    reveal_strlit("dl");
    reveal_strlit("get");
    reveal_strlit("download");
    reveal_strlit("upload");
    reveal_strlit("template");
    reveal_strlit("send");
    reveal_strlit("completion");
    reveal_strlit("help");
    reveal_strlit("me");
    reveal_strlit("status");
    reveal_strlit("my-status");
    reveal_strlit("contacts");
    reveal_strlit("room");
    reveal_strlit("message");
    reveal_strlit("files");
    reveal_strlit("file");
    reveal_strlit("list");
    reveal_strlit("show");
    let w = candidates_spec(ctx)[k];
    assert(w.len() > 0 && w[0] != '-' && w != "dl"@);
    assert forall|i: int| 0 <= i < w.len() implies w[i] != '#' by {}
}

proof fn lemma_prefix_matches_in(c: Seq<Seq<char>>, t: Seq<char>, k: int)
    requires
        0 <= k < prefix_matches(c, t).len(),
    ensures
        c.contains(prefix_matches(c, t)[k]),
    decreases c.len(),
{
    if c.len() > 0 {
        let r = prefix_matches(c.drop_last(), t);
        if starts_with_spec(c.last(), t) && k == r.len() {
            assert(c[c.len() - 1] == c.last());
        } else {
            lemma_prefix_matches_in(c.drop_last(), t, k);
            let w = prefix_matches(c, t)[k];
            let j = choose|j: int| 0 <= j < c.drop_last().len() && c.drop_last()[j] == w;
            assert(c[j] == w);
        }
    }
}

/// A resolved subcommand name resolves to itself, and is no option and no chat URL.
proof fn lemma_resolved_exact(ctx: CommandContext, token: Seq<char>)
    requires
        resolve_prefix_spec(ctx, token) matches Ok(Some(_)),
    ensures
        ({
            let cmd = resolve_prefix_spec(ctx, token)->Ok_0->0;
            &&& resolve_prefix_spec(ctx, cmd) == Ok::<Option<Seq<char>>, Seq<Seq<char>>>(Some(cmd))
            &&& candidates_spec(ctx).contains(cmd)
            &&& plain_word(cmd)
            &&& get_target_spec(cmd) is None
            &&& cmd != "--"@
            &&& !starts_with_spec(cmd, "--"@)
            &&& !starts_with_spec(cmd, "-"@)
        }),
{
    let cmd = resolve_prefix_spec(ctx, token)->Ok_0->0;
    let c = candidates_spec(ctx);
    reveal_strlit("dl");
    reveal_strlit("download");
    reveal_strlit("--");
    reveal_strlit("-");
    let k: int = if special_alias_spec(ctx, token) is Some {
        assert(c[1] == "download"@);
        1
    } else if c.contains(token) {
        choose|k: int| 0 <= k < c.len() && c[k] == token
    } else {
        lemma_prefix_matches_in(c, token, 0);
        choose|k: int| 0 <= k < c.len() && c[k] == prefix_matches(c, token)[0]
    };
    assert(c[k] == cmd);
    lemma_candidate_words(ctx, k);
    lemma_no_hash_no_url(cmd);
    assert(c.contains(cmd));
    assert(cmd.take(1)[0] == cmd[0]);
    if cmd.len() >= 2 {
        assert(cmd.take(2)[0] == cmd[0]);
    }
}

/// A state without its output.
pub open spec fn strip(st: NormState) -> NormState {
    NormState { out: Seq::empty(), ..st }
}

/// The text that an item pushed for the argument `x` stands for.
pub open spec fn pushed_text(x: Option<Seq<char>>, item: NormItem) -> Option<Seq<char>> {
    match item {
        NormItem::Expanded(_, w) => Some(w),
        _ => x,
    }
}

/// `st` with the output `o`.
pub open spec fn with_out(st: NormState, o: Seq<NormItem>) -> NormState {
    NormState { out: o, ..st }
}

/// A step that only pushes one item does the same on any output of the same length.
#[verifier::rlimit(80)]
proof fn lemma_step_other_out(s: NormState, o: Seq<NormItem>, i: int, x: Option<Seq<char>>)
    requires
        norm_wf(s),
        o.len() == s.out.len(),
        norm_step(s, i, x) matches Ok(s2) && s2.out.len() == s.out.len() + 1,
    ensures
        ({
            let s2 = norm_step(s, i, x)->Ok_0;
            &&& s2.out == s.out.push(s2.out.last())
            &&& norm_step(with_out(s, o), i, x) == Ok::<NormState, (Seq<char>, Seq<Seq<char>>)>(
                with_out(s2, o.push(s2.out.last())),
            )
            &&& (s2.out.last() == NormItem::Given(i) || (s2.out.last() is Expanded
                && s2.out.last()->Expanded_0 == i))
            &&& (s2.out.last() is Expanded ==> x is Some && s.parse_options && !s.expect_value
                && x->0 != "--"@ && !starts_with_spec(x->0, "--"@) && !(starts_with_spec(
                x->0,
                "-"@,
            ) && x->0 != "-"@) && !(s.context == CommandContext::Get && get_target_spec(x->0) is Some)
                && resolve_prefix_spec(s.context, x->0) == Ok::<Option<Seq<char>>, Seq<Seq<char>>>(
                Some(s2.out.last()->Expanded_1),
            ))
        }),
{
    reveal(norm_step);
    let s2 = norm_step(s, i, x)->Ok_0;
    let t = with_out(s, o);
    if !s.parse_options || x is None {
        assert(s2 == NormState { out: s.out.push(NormItem::Given(i)), ..s });
    } else {
        let text = x->0;
        if s.expect_value {
            if s.pending_get_chat_url && get_target_spec(text) is Some {
                assert(s2.out.len() == s.out.len() + 2);
            }
        } else if text == "--"@ {
        } else if starts_with_spec(text, "--"@) {
            let long = text.skip("--"@.len() as int);
            if s.context == CommandContext::Get && starts_with_spec(long, "chat-url="@)
                && get_target_spec(long.skip("chat-url="@.len() as int)) is Some {
                assert(s2.out.len() == s.out.len() + 2);
            }
        } else if starts_with_spec(text, "-"@) && text != "-"@ {
        } else if s.context == CommandContext::Get && get_target_spec(text) is Some {
            assert(s2.out.len() == s.out.len() + 2);
        } else {
        }
    }
    assert(s2.out =~= s.out.push(s2.out.last()));
}

/// The step on a resolved subcommand is the step on the name it resolves to.
proof fn lemma_step_resolved(t: NormState, i: int, text: Seq<char>)
    requires
        t.parse_options,
        !t.expect_value,
        text != "--"@,
        !starts_with_spec(text, "--"@),
        !(starts_with_spec(text, "-"@) && text != "-"@),
        !(t.context == CommandContext::Get && get_target_spec(text) is Some),
        resolve_prefix_spec(t.context, text) matches Ok(Some(_)),
    ensures
        norm_step(t, i, Some(resolve_prefix_spec(t.context, text)->Ok_0->0)) == norm_step(
            t,
            i,
            Some(text),
        ),
{
    lemma_resolved_exact(t.context, text);
    reveal(norm_step);
}

/// The facts that hold of every state of the normalizer.
pub open spec fn base_ok(st: NormState) -> bool {
    &&& st.pending_get_chat_url ==> st.expect_value && st.context == CommandContext::Get
    &&& (st.get_insert is Some <==> st.context == CommandContext::Get)
    &&& (st.context == CommandContext::Get || st.context == CommandContext::Root || st.context
        == CommandContext::Template) ==> st.pending_download is None && st.pending_upload is None
    &&& st.context == CommandContext::Download ==> st.pending_download is Some && !st.download_seen
        && st.pending_upload is None
    &&& st.context == CommandContext::Upload ==> st.pending_upload is Some && !st.upload_seen
        && st.pending_download is None
    &&& st.context == CommandContext::Leaf ==> !(st.pending_download is Some && !st.download_seen)
        && !(st.pending_upload is Some && !st.upload_seen)
}

/// The state right after entering `ctx` with the subcommand at output index `p - 1`.
pub open spec fn entered(st: NormState, ctx: CommandContext, p: int) -> bool {
    &&& st.context == ctx
    &&& st.parse_options
    &&& !st.expect_value
    &&& !st.pending_get_chat_url
    &&& st.out.len() == p
}

/// The length of the output after `k` arguments: one item each, and one more once a
/// chat URL was routed (after which the state is quiet).
pub open spec fn len_ok(st: NormState, k: int) -> bool {
    st.out.len() == k || (st.out.len() == k + 1 && quiet(st) && st.pending_download is None
        && st.pending_upload is None)
}

#[verifier::rlimit(100)]
proof fn lemma_state_step(st: NormState, k: int, x: Option<Seq<char>>)
    requires
        base_ok(st),
        norm_wf(st),
        len_ok(st, k),
        norm_step(st, k, x) is Ok,
    ensures
        base_ok(norm_step(st, k, x)->Ok_0),
        len_ok(norm_step(st, k, x)->Ok_0, k + 1),
        norm_step(st, k, x)->Ok_0.get_insert matches Some(g) ==> st.get_insert == Some(g) || (g
            == k + 1 && entered(norm_step(st, k, x)->Ok_0, CommandContext::Get, k + 1)),
        norm_step(st, k, x)->Ok_0.pending_download matches Some(p) ==> st.pending_download == Some(
            p,
        ) || (p == k + 1 && entered(norm_step(st, k, x)->Ok_0, CommandContext::Download, k + 1)),
        norm_step(st, k, x)->Ok_0.pending_upload matches Some(p) ==> st.pending_upload == Some(p)
            || (p == k + 1 && entered(norm_step(st, k, x)->Ok_0, CommandContext::Upload, k + 1)),
        norm_step(st, k, x)->Ok_0.out.len() == st.out.len() + 2 ==> st.context
            == CommandContext::Get && quiet(norm_step(st, k, x)->Ok_0) && exists|t: Seq<char>|
            (t == "room"@ || t == "message"@) && norm_step(st, k, x)->Ok_0.out == st.out.insert(
                st.get_insert->0,
                NormItem::Inserted(t),
            ).push(NormItem::Given(k)),
        norm_step(st, k, x)->Ok_0.out.len() == st.out.len() + 1 || norm_step(st, k, x)->Ok_0.out.len()
            == st.out.len() + 2,
{
    reveal(norm_step);
    reveal_strlit("chat-url");
    reveal_strlit("=");
    reveal_strlit("download");
    reveal_strlit("upload");
    reveal_strlit("file");
    reveal_strlit("help");
    let s2 = norm_step(st, k, x)->Ok_0;
    assert(crate::cli_args::value_options_spec()[2] == "chat-url"@);
    if let Some(text) = x {
        if st.parse_options && !st.expect_value && text != "--"@ && starts_with_spec(text, "--"@) {
            let long = text.skip("--"@.len() as int);
            if long == "chat-url"@ {
                assert(!crate::text::contains_spec(long, seq!['='])) by {
                    if crate::text::contains_spec(long, seq!['=']) {
                        let j = choose|j: int| occurs_at(long, seq!['='], j);
                        assert(long.subrange(j, j + 1)[0] == long[j]);
                    }
                }
            }
        }
        if st.parse_options && !st.expect_value && text != "--"@ && !starts_with_spec(text, "--"@)
            && !(starts_with_spec(text, "-"@) && text != "-"@) && !(st.context
            == CommandContext::Get && get_target_spec(text) is Some) {
            if let Ok(Some(cmd)) = resolve_prefix_spec(st.context, text) {
                lemma_resolved_exact(st.context, text);
                let c = candidates_spec(st.context);
                let j = choose|j: int| 0 <= j < c.len() && c[j] == cmd;
                if st.context == CommandContext::Download || st.context == CommandContext::Upload {
                    assert(j == 0 || j == 1);
                    assert(cmd == "file"@ || cmd == "help"@);
                }
            }
        }
    }
    lemma_targets(x);
    assert(s2.pending_get_chat_url ==> s2.expect_value && s2.context == CommandContext::Get);
    assert(s2.get_insert is Some <==> s2.context == CommandContext::Get);
    assert((s2.context == CommandContext::Get || s2.context == CommandContext::Root || s2.context
        == CommandContext::Template) ==> s2.pending_download is None && s2.pending_upload is None);
    assert(s2.context == CommandContext::Download ==> s2.pending_download is Some && !s2.download_seen
        && s2.pending_upload is None);
    assert(s2.context == CommandContext::Upload ==> s2.pending_upload is Some && !s2.upload_seen
        && s2.pending_download is None);
    assert(s2.context == CommandContext::Leaf ==> !(s2.pending_download is Some && !s2.download_seen));
    assert(s2.context == CommandContext::Leaf ==> !(s2.pending_upload is Some && !s2.upload_seen));
}

/// What a routed chat URL inserts.
proof fn lemma_targets(x: Option<Seq<char>>)
    ensures
        forall|u: Seq<char>| #[trigger] get_target_spec(u) matches Some(t) ==> t == "room"@ || t
            == "message"@,
{
}

/// The step on a subcommand named in full, right after entering its parent command,
/// leaves the subcommands behind.
proof fn lemma_enter_word(t: NormState, i: int, ctx: CommandContext, j: int)
    requires
        t.context == ctx,
        t.parse_options,
        !t.expect_value,
        !t.pending_get_chat_url,
        0 <= j < candidates_spec(ctx).len(),
        next_context_spec(ctx, candidates_spec(ctx)[j]) == CommandContext::Leaf,
    ensures
        ({
            let w = candidates_spec(ctx)[j];
            norm_step(t, i, Some(w)) matches Ok(t2) && quiet(t2) && t2.out == t.out.push(
                NormItem::Expanded(i, w),
            ) && t2.pending_download == t.pending_download && t2.pending_upload
                == t.pending_upload && (w == "file"@ && t.pending_download is Some
                ==> t2.download_seen) && (w == "file"@ && t.pending_upload is Some
                ==> t2.upload_seen)
        }),
{
    let w = candidates_spec(ctx)[j];
    lemma_candidate_words(ctx, j);
    assert(candidates_spec(ctx).contains(w));
    reveal_strlit("dl");
    assert(special_alias_spec(ctx, w) is None);
    assert(resolve_prefix_spec(ctx, w) == Ok::<Option<Seq<char>>, Seq<Seq<char>>>(Some(w)));
    lemma_resolved_exact(ctx, w);
    reveal(norm_step);
}

/// Every state of a run has the facts of `base_ok`, and the places where it may insert
/// were set when it entered the command that owns them.
pub open spec fn run_ok(a: Seq<Option<Seq<char>>>, k: int) -> bool {
    &&& norm_run(a, k) matches Ok(st)
    &&& base_ok(norm_run(a, k)->Ok_0)
    &&& norm_wf(norm_run(a, k)->Ok_0)
    &&& len_ok(norm_run(a, k)->Ok_0, k)
    &&& (norm_run(a, k)->Ok_0.get_insert matches Some(g) ==> 2 <= g <= k && norm_run(a, g) is Ok
        && entered(norm_run(a, g)->Ok_0, CommandContext::Get, g) && base_ok(
        norm_run(a, g)->Ok_0,
    ))
    &&& (norm_run(a, k)->Ok_0.pending_download matches Some(p) ==> 2 <= p <= k && norm_run(a, p) is Ok
        && entered(norm_run(a, p)->Ok_0, CommandContext::Download, p) && base_ok(
        norm_run(a, p)->Ok_0,
    ))
    &&& (norm_run(a, k)->Ok_0.pending_upload matches Some(p) ==> 2 <= p <= k && norm_run(a, p) is Ok
        && entered(norm_run(a, p)->Ok_0, CommandContext::Upload, p) && base_ok(
        norm_run(a, p)->Ok_0,
    ))
}

proof fn lemma_run_ok(a: Seq<Option<Seq<char>>>, k: int)
    requires
        1 <= k,
        norm_run(a, k) is Ok,
    ensures
        run_ok(a, k),
    decreases k,
{
    if k > 1 {
        if norm_run(a, k - 1) is Err {
            assert(norm_run(a, k) is Err);
        }
        lemma_run_ok(a, k - 1);
        lemma_state_step(norm_run(a, k - 1)->Ok_0, k - 1, a[k - 1]);
    }
}

/// Once a chat URL was routed, the output stays one item longer than the arguments.
proof fn lemma_len_stays(a: Seq<Option<Seq<char>>>, q: int, k: int)
    requires
        1 <= q <= k,
        norm_run(a, k) is Ok,
        norm_run(a, q) matches Ok(sq) && sq.out.len() == q + 1,
    ensures
        norm_run(a, k)->Ok_0.out.len() == k + 1,
    decreases k - q,
{
    if k > q {
        if norm_run(a, k - 1) is Err {
            assert(norm_run(a, k) is Err);
        }
        lemma_len_stays(a, q, k - 1);
        lemma_run_ok(a, k - 1);
        lemma_state_step(norm_run(a, k - 1)->Ok_0, k - 1, a[k - 1]);
    }
}

/// Before a routed chat URL, each output is the next one without its last item.
proof fn lemma_prefix_out(a: Seq<Option<Seq<char>>>, r: int, k: int)
    requires
        1 <= r <= k,
        norm_run(a, k) matches Ok(sk) && sk.out.len() == k,
    ensures
        norm_run(a, r) matches Ok(sr) && sr.out.len() == r && sr.out == norm_run(a, k)->Ok_0.out.take(
            r,
        ),
    decreases k - r,
{
    if k > r {
        if norm_run(a, k - 1) is Err {
            assert(norm_run(a, k) is Err);
        }
        lemma_run_ok(a, k - 1);
        let s1 = norm_run(a, k - 1)->Ok_0;
        lemma_state_step(s1, k - 1, a[k - 1]);
        if s1.out.len() == k {
            lemma_len_stays(a, k - 1, k);
        }
        lemma_step_other_out(s1, s1.out, k - 1, a[k - 1]);
        lemma_prefix_out(a, r, k - 1);
        assert(norm_run(a, k)->Ok_0.out.take(r) =~= s1.out.take(r));
    } else {
        assert(norm_run(a, k)->Ok_0.out.take(k) =~= norm_run(a, k)->Ok_0.out);
    }
}

/// Where a chat URL was routed.
proof fn lemma_find_jump(a: Seq<Option<Seq<char>>>, k: int)
    requires
        2 <= k,
        norm_run(a, k) matches Ok(sk) && sk.out.len() == k + 1,
    ensures
        exists|q: int|
            1 <= q < k && (#[trigger] norm_run(a, q)) is Ok && norm_run(a, q)->Ok_0.out.len() == q
                && norm_run(a, q + 1)->Ok_0.out.len() == q + 2,
    decreases k,
{
    if norm_run(a, k - 1) is Err {
        assert(norm_run(a, k) is Err);
    }
    lemma_run_ok(a, k - 1);
    let s1 = norm_run(a, k - 1)->Ok_0;
    lemma_state_step(s1, k - 1, a[k - 1]);
    if s1.out.len() == k - 1 {
        assert(norm_run(a, k - 1) is Ok && norm_run(a, k - 1)->Ok_0.out.len() == k - 1);
    } else {
        if k - 1 == 1 {
            assert(norm_run(a, 1) == Ok::<NormState, (Seq<char>, Seq<Seq<char>>)>(norm_initial()));
        }
        lemma_find_jump(a, k - 1);
    }
}

/// Replaying the arguments as the text of their output changes nothing, up to the first
/// place where something was inserted.
proof fn lemma_replay(a: Seq<Option<Seq<char>>>, b: Seq<Option<Seq<char>>>, k: int)
    requires
        1 <= k <= b.len(),
        norm_run(a, k) matches Ok(sk) && sk.out.len() == k,
        b.take(k) == out_texts(a, norm_run(a, k)->Ok_0.out),
    ensures
        norm_run(b, k) matches Ok(t) && strip(t) == strip(norm_run(a, k)->Ok_0) && t.out.len() == k
            && out_texts(b, t.out) == b.take(k),
    decreases k,
{
    if k == 1 {
        assert(out_texts(b, norm_initial().out) =~= b.take(1));
    } else {
        if norm_run(a, k - 1) is Err {
            assert(norm_run(a, k) is Err);
        }
        lemma_run_ok(a, k - 1);
        let s1 = norm_run(a, k - 1)->Ok_0;
        let sk = norm_run(a, k)->Ok_0;
        lemma_state_step(s1, k - 1, a[k - 1]);
        if s1.out.len() == k {
            lemma_len_stays(a, k - 1, k);
        }
        lemma_step_other_out(s1, s1.out, k - 1, a[k - 1]);
        let e = sk.out.last();
        assert(sk.out == s1.out.push(e));
        assert(b.take(k - 1) =~= out_texts(a, s1.out)) by {
            assert(b.take(k - 1) =~= b.take(k).take(k - 1));
            assert(out_texts(a, sk.out).take(k - 1) =~= out_texts(a, s1.out));
        }
        lemma_replay(a, b, k - 1);
        let t1 = norm_run(b, k - 1)->Ok_0;
        assert(t1 == with_out(s1, t1.out));
        lemma_step_other_out(s1, t1.out, k - 1, a[k - 1]);
        assert(b[k - 1] == item_text(a, e)) by {
            assert(b.take(k)[k - 1] == b[k - 1]);
        }
        if e is Expanded {
            lemma_step_resolved(t1, k - 1, a[k - 1]->0);
        }
        let t2 = norm_run(b, k)->Ok_0;
        assert(t2 == with_out(sk, t1.out.push(e)));
        assert(out_texts(b, t2.out) =~= b.take(k)) by {
            assert(out_texts(b, t2.out) =~= out_texts(b, t1.out).push(item_text(b, e)));
            assert(b.take(k) =~= b.take(k - 1).push(b[k - 1]));
        }
    }
}

/// A run that ends well went well at every earlier argument.
proof fn lemma_ok_prefix(a: Seq<Option<Seq<char>>>, r: int, k: int)
    requires
        1 <= r <= k,
        norm_run(a, k) is Ok,
    ensures
        norm_run(a, r) is Ok,
    decreases k - r,
{
    if k > r {
        if norm_run(a, k - 1) is Err {
            assert(norm_run(a, k) is Err);
        }
        lemma_ok_prefix(a, r, k - 1);
    }
}

/// Normalizing `b` gives back `b`.
pub open spec fn normalizes_to_itself(b: Seq<Option<Seq<char>>>) -> bool {
    normalize_spec(b) is Ok && out_texts(b, normalize_spec(b)->Ok_0) == b
}

#[verifier::rlimit(100)]
proof fn lemma_idem_routed(a: Seq<Option<Seq<char>>>)
    requires
        a.len() >= 2,
        norm_run(a, a.len() as int) matches Ok(f) && f.out.len() == a.len() + 1,
    ensures
        normalizes_to_itself(out_texts(a, normalize_spec(a)->Ok_0)),
{
    let n = a.len() as int;
    lemma_run_ok(a, n);
    let f = norm_run(a, n)->Ok_0;
    let out = normalize_spec(a)->Ok_0;
    let b = out_texts(a, out);
    lemma_find_jump(a, n);
    let q = choose|q: int|
        1 <= q < n && (#[trigger] norm_run(a, q)) is Ok && norm_run(a, q)->Ok_0.out.len() == q
            && norm_run(a, q + 1)->Ok_0.out.len() == q + 2;
    lemma_ok_prefix(a, q + 1, n);
    lemma_run_ok(a, q);
    let sq = norm_run(a, q)->Ok_0;
    lemma_state_step(sq, q, a[q]);
    let s1 = norm_run(a, q + 1)->Ok_0;
    let g = sq.get_insert->0;
    let t = choose|t: Seq<char>|
        (t == "room"@ || t == "message"@) && s1.out == sq.out.insert(g, NormItem::Inserted(t)).push(
            NormItem::Given(q),
        );
    lemma_leaf_run(a, q + 1, n);
    assert(out == f.out);
    assert(out == s1.out + Seq::new((n - q - 1) as nat, |r: int| NormItem::Given(q + 1 + r)));
    lemma_prefix_out(a, g, q);
    let sg = norm_run(a, g)->Ok_0;
    assert(out.take(g) =~= sg.out);
    assert(b.take(g) =~= out_texts(a, sg.out));
    lemma_replay(a, b, g);
    let tg = norm_run(b, g)->Ok_0;
    reveal_strlit("room");
    reveal_strlit("message");
    let j: int = if t == "room"@ {
        4
    } else {
        5
    };
    assert(candidates_spec(CommandContext::Get)[j] == t);
    assert(b[g] == Some(t)) by {
        assert(out[g] == NormItem::Inserted(t));
    }
    lemma_enter_word(tg, g, CommandContext::Get, j);
    let m = b.len() as int;
    lemma_leaf_run(b, g + 1, m);
    let tf = norm_run(b, m)->Ok_0;
    assert(tf.pending_download is None && tf.pending_upload is None);
    assert(norm_finish(tf) == tf.out);
    assert(tf.out == tg.out.push(NormItem::Expanded(g, t)) + Seq::new(
        (m - g - 1) as nat,
        |r: int| NormItem::Given(g + 1 + r),
    ));
    assert forall|i: int| 0 <= i < m implies #[trigger] out_texts(b, tf.out)[i] == b[i] by {
        if i < g {
            assert(out_texts(b, tg.out)[i] == b.take(g)[i]);
        }
    }
    assert(out_texts(b, tf.out) =~= b);
}

#[verifier::rlimit(100)]
proof fn lemma_idem_implied_file(a: Seq<Option<Seq<char>>>, ctx: CommandContext)
    requires
        a.len() >= 2,
        ctx == CommandContext::Download || ctx == CommandContext::Upload,
        norm_run(a, a.len() as int) matches Ok(f) && f.out.len() == a.len() && (if ctx
            == CommandContext::Download {
            f.pending_download is Some && !f.download_seen
        } else {
            f.pending_upload is Some && !f.upload_seen && !(f.pending_download is Some
                && !f.download_seen)
        }),
    ensures
        normalizes_to_itself(out_texts(a, normalize_spec(a)->Ok_0)),
{
    let n = a.len() as int;
    lemma_run_ok(a, n);
    let f = norm_run(a, n)->Ok_0;
    let out = normalize_spec(a)->Ok_0;
    let b = out_texts(a, out);
    let p = if ctx == CommandContext::Download {
        f.pending_download->0
    } else {
        f.pending_upload->0
    };
    assert(out == f.out.insert(p, NormItem::Inserted("file"@)));
    lemma_prefix_out(a, p, n);
    let sp = norm_run(a, p)->Ok_0;
    assert(out.take(p) =~= sp.out);
    assert(b.take(p) =~= out_texts(a, sp.out));
    lemma_replay(a, b, p);
    let tp = norm_run(b, p)->Ok_0;
    reveal_strlit("file");
    assert(candidates_spec(ctx)[0] == "file"@);
    assert(b[p] == Some("file"@)) by {
        assert(out[p] == NormItem::Inserted("file"@));
    }
    lemma_enter_word(tp, p, ctx, 0);
    let m = b.len() as int;
    lemma_leaf_run(b, p + 1, m);
    let tf = norm_run(b, m)->Ok_0;
    assert(norm_finish(tf) == tf.out);
    assert(tf.out == tp.out.push(NormItem::Expanded(p, "file"@)) + Seq::new(
        (m - p - 1) as nat,
        |r: int| NormItem::Given(p + 1 + r),
    ));
    assert forall|i: int| 0 <= i < m implies #[trigger] out_texts(b, tf.out)[i] == b[i] by {
        if i < p {
            assert(out_texts(b, tp.out)[i] == b.take(p)[i]);
        } else if i > p {
            assert(out[i] == f.out[i - 1]);
        }
    }
    assert(out_texts(b, tf.out) =~= b);
}

/// Normalizing a command line that is already normalized changes nothing: every
/// argument of the normalized command line is kept as it is, and nothing is inserted.
pub proof fn lemma_normalize_idempotent(a: Seq<Option<Seq<char>>>)
    ensures
        normalize_spec(a) is Ok ==> normalizes_to_itself(out_texts(a, normalize_spec(a)->Ok_0)),
{
    if let Ok(out) = normalize_spec(a) {
        let b = out_texts(a, out);
        let n = a.len() as int;
        if n <= 1 {
            assert(b =~= a);
            assert(out_texts(b, normalize_spec(b)->Ok_0) =~= b);
        } else {
            lemma_run_ok(a, n);
            let f = norm_run(a, n)->Ok_0;
            if f.out.len() == n + 1 {
                lemma_idem_routed(a);
            } else if f.pending_download is Some && !f.download_seen {
                lemma_idem_implied_file(a, CommandContext::Download);
            } else if f.pending_upload is Some && !f.upload_seen {
                lemma_idem_implied_file(a, CommandContext::Upload);
            } else {
                assert(out == f.out);
                assert(b.take(n) =~= b);
                lemma_replay(a, b, n);
                let tn = norm_run(b, n)->Ok_0;
                assert(norm_finish(tn) == tn.out);
            }
        }
    }
}

/// Normalization keeps every argument and adds at most one word.
pub proof fn lemma_normalize_adds_at_most_one(a: Seq<Option<Seq<char>>>)
    ensures
        normalize_spec(a) matches Ok(out) ==> a.len() <= out.len() <= a.len() + 1,
{
    if normalize_spec(a) is Ok && a.len() >= 2 {
        let n = a.len() as int;
        lemma_run_ok(a, n);
        let f = norm_run(a, n)->Ok_0;
        if f.pending_download is Some && !f.download_seen {
            assert(f.context == CommandContext::Download);
        }
    }
}

} // verus!
