//! Rewriting of the command line before it is parsed: unique subcommand prefixes are
//! expanded (`chatwork d f` is `chatwork download file`), `dl` stands for `download`, a
//! chat URL after `get` is routed to `get room` or `get message`, and `download` and
//! `upload` without a subcommand mean `download file` and `upload file`.
use vstd::prelude::*;
use crate::chat_url::{get_target_spec, infer_get_target_from_url};
use crate::message::{is_msg2, msg2, usage_error, CliError, UsageContext};
use crate::text::{
    chars_eq_str, chars_of, contains, contains_spec, push_all, slice_chars, starts_with,
    starts_with_spec, starts_with_str, string_of,
};

verus! {

/// Where in the command tree an argument stands.
#[derive(Clone, Copy, PartialEq, Eq, Structural, Debug)]
pub enum CommandContext {
    Root,
    Get,
    Download,
    Upload,
    Template,
    Leaf,
}

/// The strings of a list of literals.
pub open spec fn str_views(v: Seq<&'static str>) -> Seq<Seq<char>> {
    v.map_values(|s: &'static str| s@)
}

/// The subcommands that can follow in `context`, in the order in which they are listed.
pub open spec fn candidates_spec(context: CommandContext) -> Seq<Seq<char>> {
    match context {
        CommandContext::Root => seq![
            "get"@,
            "download"@,
            "upload"@,
            "template"@,
            "send"@,
            "completion"@,
            "help"@,
        ],
        CommandContext::Get => seq![
            "me"@,
            "status"@,
            "my-status"@,
            "contacts"@,
            "room"@,
            "message"@,
            "files"@,
            "help"@,
        ],
        CommandContext::Download => seq!["file"@, "help"@],
        CommandContext::Upload => seq!["file"@, "help"@],
        CommandContext::Template => seq!["list"@, "show"@, "help"@],
        CommandContext::Leaf => Seq::empty(),
    }
}

fn candidates(context: CommandContext) -> (r: Vec<&'static str>)
    ensures
        str_views(r@) == candidates_spec(context),
{
    let r: Vec<&'static str> = match context {
        CommandContext::Root => vec!["get", "download", "upload", "template", "send", "completion", "help"],
        CommandContext::Get => vec!["me", "status", "my-status", "contacts", "room", "message", "files", "help"],
        CommandContext::Download => vec!["file", "help"],
        CommandContext::Upload => vec!["file", "help"],
        CommandContext::Template => vec!["list", "show", "help"],
        CommandContext::Leaf => Vec::new(),
    };
    assert(str_views(r@) =~= candidates_spec(context));
    r
}

/// The shortcut that stands for a subcommand without being one of its prefixes.
pub open spec fn special_alias_spec(context: CommandContext, token: Seq<char>) -> Option<Seq<char>> {
    if context == CommandContext::Root && token == "dl"@ {
        Some("download"@)
    } else {
        None
    }
}

/// `dl` stands for `download` at the top level.
pub fn resolve_special_subcommand_alias(context: CommandContext, token: &str) -> (r: Option<&'static str>)
    ensures
        match r {
            Some(a) => special_alias_spec(context, token@) == Some(a@),
            None => special_alias_spec(context, token@) is None,
        },
{
    let t = chars_of(token);
    if context == CommandContext::Root && chars_eq_str(&t, "dl") {
        Some("download")
    } else {
        None
    }
}

/// The context after the subcommand `command` in `current`.
pub open spec fn next_context_spec(current: CommandContext, command: Seq<char>) -> CommandContext {
    if current == CommandContext::Root && command == "get"@ {
        CommandContext::Get
    } else if current == CommandContext::Root && command == "download"@ {
        CommandContext::Download
    } else if current == CommandContext::Root && command == "upload"@ {
        CommandContext::Upload
    } else if current == CommandContext::Root && command == "template"@ {
        CommandContext::Template
    } else {
        CommandContext::Leaf
    }
}

/// The context after the subcommand `command` in `current`.
pub fn next_command_context(current: CommandContext, command: &Vec<char>) -> (r: CommandContext)
    ensures
        r == next_context_spec(current, command@),
{
    if current == CommandContext::Root && chars_eq_str(command, "get") {
        CommandContext::Get
    } else if current == CommandContext::Root && chars_eq_str(command, "download") {
        CommandContext::Download
    } else if current == CommandContext::Root && chars_eq_str(command, "upload") {
        CommandContext::Upload
    } else if current == CommandContext::Root && chars_eq_str(command, "template") {
        CommandContext::Template
    } else {
        CommandContext::Leaf
    }
}

/// The long options that take a value in the next argument.
pub open spec fn value_options_spec() -> Seq<Seq<char>> {
    seq![
        "config"@,
        "format"@,
        "chat-url"@,
        "output"@,
        "out-dir"@,
        "room-id"@,
        "file-id"@,
        "message-id"@,
        "account-id"@,
        "room"@,
        "message"@,
        "file"@,
        "var"@,
    ]
}

/// Whether the long option `--name` takes a value.
pub fn long_option_takes_value(name: &Vec<char>) -> (r: bool)
    ensures
        r == value_options_spec().contains(name@),
{
    let names: Vec<&'static str> = vec![
        "config",
        "format",
        "chat-url",
        "output",
        "out-dir",
        "room-id",
        "file-id",
        "message-id",
        "account-id",
        "room",
        "message",
        "file",
        "var",
    ];
    assert(str_views(names@) =~= value_options_spec());
    let mut i: usize = 0;
    while i < names.len()
        invariant
            i <= names@.len(),
            str_views(names@) == value_options_spec(),
            forall|k: int| 0 <= k < i ==> value_options_spec()[k] != name@,
        decreases names.len() - i,
    {
        if chars_eq_str(name, names[i]) {
            assert(value_options_spec()[i as int] == name@);
            return true;
        }
        i += 1;
    }
    false
}

/// The candidates of which `token` is a prefix, in order.
pub open spec fn prefix_matches(c: Seq<Seq<char>>, token: Seq<char>) -> Seq<Seq<char>>
    decreases c.len(),
{
    if c.len() == 0 {
        Seq::empty()
    } else if starts_with_spec(c.last(), token) {
        prefix_matches(c.drop_last(), token).push(c.last())
    } else {
        prefix_matches(c.drop_last(), token)
    }
}

/// The strings joined with `sep` between them.
pub open spec fn join_spec(v: Seq<Seq<char>>, sep: Seq<char>) -> Seq<char>
    decreases v.len(),
{
    if v.len() == 0 {
        Seq::empty()
    } else if v.len() == 1 {
        v[0]
    } else {
        join_spec(v.drop_last(), sep) + sep + v.last()
    }
}

/// How a token resolves among the subcommands of a context: `Ok(Some(command))`,
/// `Ok(None)` when it names none, `Err(matches)` when it is a prefix of several.
pub open spec fn resolve_prefix_spec(context: CommandContext, token: Seq<char>) -> Result<
    Option<Seq<char>>,
    Seq<Seq<char>>,
> {
    match special_alias_spec(context, token) {
        Some(a) => Ok(Some(a)),
        None => {
            let c = candidates_spec(context);
            if c.len() == 0 {
                Ok(None)
            } else if c.contains(token) {
                Ok(Some(token))
            } else {
                let m = prefix_matches(c, token);
                if m.len() == 0 {
                    Ok(None)
                } else if m.len() == 1 {
                    Ok(Some(m[0]))
                } else {
                    Err(m)
                }
            }
        },
    }
}

/// The error for a prefix of several subcommands.
pub open spec fn is_ambiguous_error(e: CliError, token: Seq<char>, matches: Seq<Seq<char>>) -> bool {
    &&& e.context == Some(UsageContext::Root)
    &&& is_msg2(
        e.message,
        "Ambiguous subcommand prefix `{prefix}`: {matches}"@,
        "prefix"@,
        token,
        "matches"@,
        join_spec(matches, ", "@),
    )
}

/// The strings `v` joined with `", "` between them.
fn join_comma(v: &Vec<&'static str>) -> (r: String)
    ensures
        r@ == join_spec(str_views(v@), ", "@),
{
    let sep = chars_of(", ");
    let mut out: Vec<char> = Vec::new();
    let mut i: usize = 0;
    while i < v.len()
        invariant
            i <= v@.len(),
            sep@ == ", "@,
            out@ == join_spec(str_views(v@).take(i as int), ", "@),
        decreases v.len() - i,
    {
        let w = chars_of(v[i]);
        proof {
            assert(str_views(v@).take(i + 1).drop_last() =~= str_views(v@).take(i as int));
            assert(str_views(v@).take(i + 1).last() == v@[i as int]@);
        }
        if i == 0 {
            out = w;
            assert(str_views(v@).take(1)[0] == v@[0]@);
        } else {
            push_all(&mut out, &sep);
            push_all(&mut out, &w);
        }
        i += 1;
    }
    assert(str_views(v@).take(i as int) =~= str_views(v@));
    string_of(&out)
}

/// The subcommand that `token` names in `context`: an exact name, the special alias, or
/// the only subcommand that starts with `token`. A prefix of several subcommands is an
/// error that lists them.
pub fn resolve_subcommand_prefix(context: CommandContext, token: &Vec<char>) -> (r: Result<
    Option<String>,
    CliError,
>)
    ensures
        match resolve_prefix_spec(context, token@) {
            Ok(Some(c)) => r is Ok && r->Ok_0 is Some && r->Ok_0->Some_0@ == c,
            Ok(None) => r is Ok && r->Ok_0 is None,
            Err(m) => r is Err && is_ambiguous_error(r->Err_0, token@, m),
        },
{
    let tstr = string_of(token);
    if let Some(alias) = resolve_special_subcommand_alias(context, tstr.as_str()) {
        return Ok(Some(alias.to_owned()));
    }
    let c = candidates(context);
    if c.len() == 0 {
        return Ok(None);
    }
    let mut i: usize = 0;
    while i < c.len()
        invariant
            i <= c@.len(),
            str_views(c@) == candidates_spec(context),
            tstr@ == token@,
            special_alias_spec(context, token@) is None,
            forall|k: int| 0 <= k < i ==> candidates_spec(context)[k] != token@,
        decreases c.len() - i,
    {
        if chars_eq_str(token, c[i]) {
            assert(candidates_spec(context)[i as int] == token@);
            assert(candidates_spec(context).contains(token@));
            assert(tstr@ == token@);
            return Ok(Some(tstr));
        }
        i += 1;
    }
    assert(!candidates_spec(context).contains(token@));
    let mut matches: Vec<&'static str> = Vec::new();
    let mut j: usize = 0;
    while j < c.len()
        invariant
            j <= c@.len(),
            str_views(c@) == candidates_spec(context),
            tstr@ == token@,
            str_views(matches@) == prefix_matches(candidates_spec(context).take(j as int), token@),
        decreases c.len() - j,
    {
        let w = chars_of(c[j]);
        proof {
            let cs = candidates_spec(context);
            assert(cs.take(j + 1).drop_last() =~= cs.take(j as int));
            assert(cs.take(j + 1).last() == cs[j as int]);
        }
        if starts_with(&w, token) {
            matches.push(c[j]);
            assert(str_views(matches@) =~= prefix_matches(
                candidates_spec(context).take(j + 1),
                token@,
            ));
        }
        j += 1;
    }
    assert(candidates_spec(context).take(j as int) =~= candidates_spec(context));
    if matches.len() == 0 {
        Ok(None)
    } else if matches.len() == 1 {
        Ok(Some(matches[0].to_owned()))
    } else {
        let joined = join_comma(&matches);
        Err(
            usage_error(
                UsageContext::Root,
                msg2(
                    "Ambiguous subcommand prefix `{prefix}`: {matches}",
                    "prefix",
                    tstr,
                    "matches",
                    joined,
                ),
            ),
        )
    }
}

// ---------------------------------------------------------------------------
// Normalizing the whole command line.

/// One argument of the command line: its text, or `Opaque` when it is not valid UTF-8
/// (such an argument is passed on unchanged).
#[derive(Clone, PartialEq, Eq, Debug)]
pub enum CliArg {
    Text(String),
    Opaque,
}

/// One argument of the normalized command line.
#[derive(Clone, PartialEq, Eq, Debug)]
pub enum NormalizedArg {
    /// The argument at this index, unchanged.
    Given(usize),
    /// The argument at this index, replaced by the subcommand that it names.
    Expanded(usize, String),
    /// A subcommand that the command line implies.
    Inserted(String),
}

/// An argument of the normalized command line, as a value of the model.
pub enum NormItem {
    Given(int),
    Expanded(int, Seq<char>),
    Inserted(Seq<char>),
}

pub open spec fn arg_view(a: CliArg) -> Option<Seq<char>> {
    match a {
        CliArg::Text(s) => Some(s@),
        CliArg::Opaque => None,
    }
}

pub open spec fn args_view(args: Seq<CliArg>) -> Seq<Option<Seq<char>>> {
    args.map_values(|a: CliArg| arg_view(a))
}

pub open spec fn item_view(a: NormalizedArg) -> NormItem {
    match a {
        NormalizedArg::Given(i) => NormItem::Given(i as int),
        NormalizedArg::Expanded(i, w) => NormItem::Expanded(i as int, w@),
        NormalizedArg::Inserted(w) => NormItem::Inserted(w@),
    }
}

pub open spec fn items_view(v: Seq<NormalizedArg>) -> Seq<NormItem> {
    v.map_values(|a: NormalizedArg| item_view(a))
}

/// The state of the normalizer between two arguments.
pub struct NormState {
    pub out: Seq<NormItem>,
    pub context: CommandContext,
    pub expect_value: bool,
    pub parse_options: bool,
    pub pending_download: Option<int>,
    pub download_seen: bool,
    pub pending_upload: Option<int>,
    pub upload_seen: bool,
    pub pending_get_chat_url: bool,
    pub get_insert: Option<int>,
}

/// The state after the program name.
pub open spec fn norm_initial() -> NormState {
    NormState {
        out: seq![NormItem::Given(0)],
        context: CommandContext::Root,
        expect_value: false,
        parse_options: true,
        pending_download: None,
        download_seen: false,
        pending_upload: None,
        upload_seen: false,
        pending_get_chat_url: false,
        get_insert: None,
    }
}

/// Routes `get` to the subcommand `target`, inserted right after `get` when that place is
/// known, else at the end.
pub open spec fn insert_target(st: NormState, target: Seq<char>) -> NormState {
    let idx = match st.get_insert {
        Some(g) => g,
        None => st.out.len() as int,
    };
    NormState {
        out: st.out.insert(idx, NormItem::Inserted(target)),
        context: CommandContext::Leaf,
        get_insert: None,
        ..st
    }
}

pub open spec fn push_given(st: NormState, i: int) -> NormState {
    NormState { out: st.out.push(NormItem::Given(i)), ..st }
}

/// The state after argument `i`, or the ambiguous token and its matches.
#[verifier::opaque]
pub open spec fn norm_step(st: NormState, i: int, arg: Option<Seq<char>>) -> Result<
    NormState,
    (Seq<char>, Seq<Seq<char>>),
> {
    if !st.parse_options {
        Ok(push_given(st, i))
    } else {
        match arg {
            None => Ok(push_given(st, i)),
            Some(text) => if st.expect_value {
                let st1 = if st.pending_get_chat_url {
                    let st2 = match get_target_spec(text) {
                        Some(t) => insert_target(st, t),
                        None => st,
                    };
                    NormState { pending_get_chat_url: false, ..st2 }
                } else {
                    st
                };
                Ok(NormState { expect_value: false, ..push_given(st1, i) })
            } else if text == "--"@ {
                Ok(NormState { parse_options: false, ..push_given(st, i) })
            } else if starts_with_spec(text, "--"@) {
                let long = text.skip("--"@.len() as int);
                let st1 = if st.context == CommandContext::Get && (long == "chat-url"@
                    || starts_with_spec(long, "chat-url="@)) {
                    if starts_with_spec(long, "chat-url="@) {
                        match get_target_spec(long.skip("chat-url="@.len() as int)) {
                            Some(t) => insert_target(st, t),
                            None => st,
                        }
                    } else {
                        NormState { pending_get_chat_url: true, ..st }
                    }
                } else {
                    st
                };
                let st2 = push_given(st1, i);
                if !contains_spec(long, seq!['=']) && value_options_spec().contains(long) {
                    Ok(NormState { expect_value: true, ..st2 })
                } else {
                    Ok(st2)
                }
            } else if starts_with_spec(text, "-"@) && text != "-"@ {
                Ok(push_given(st, i))
            } else if st.context == CommandContext::Get && get_target_spec(text) is Some {
                Ok(push_given(insert_target(st, get_target_spec(text)->0), i))
            } else {
                match resolve_prefix_spec(st.context, text) {
                    Err(m) => Err((text, m)),
                    Ok(Some(cmd)) => {
                        let ctx = next_context_spec(st.context, cmd);
                        let len = st.out.len() as int;
                        let pd = if ctx == CommandContext::Download {
                            Some(len + 1)
                        } else {
                            st.pending_download
                        };
                        let ds = if ctx == CommandContext::Download {
                            false
                        } else {
                            st.download_seen
                        };
                        let pu = if ctx == CommandContext::Upload {
                            Some(len + 1)
                        } else {
                            st.pending_upload
                        };
                        let us = if ctx == CommandContext::Upload {
                            false
                        } else {
                            st.upload_seen
                        };
                        let gi = if ctx == CommandContext::Get {
                            Some(len + 1)
                        } else if ctx == CommandContext::Leaf {
                            None
                        } else {
                            st.get_insert
                        };
                        let item_word = cmd == "file"@ || cmd == "help"@;
                        Ok(
                            NormState {
                                out: st.out.push(NormItem::Expanded(i, cmd)),
                                context: ctx,
                                pending_download: pd,
                                download_seen: if item_word && pd is Some {
                                    true
                                } else {
                                    ds
                                },
                                pending_upload: pu,
                                upload_seen: if item_word && pu is Some {
                                    true
                                } else {
                                    us
                                },
                                get_insert: gi,
                                ..st
                            },
                        )
                    },
                    Ok(None) => {
                        let ds = if st.pending_download is Some && st.context
                            != CommandContext::Download {
                            true
                        } else {
                            st.download_seen
                        };
                        let us = if st.pending_upload is Some && st.context
                            != CommandContext::Upload {
                            true
                        } else {
                            st.upload_seen
                        };
                        Ok(NormState { download_seen: ds, upload_seen: us, ..push_given(st, i) })
                    },
                }
            },
        }
    }
}

/// The state after the arguments before index `k`.
pub open spec fn norm_run(args: Seq<Option<Seq<char>>>, k: int) -> Result<
    NormState,
    (Seq<char>, Seq<Seq<char>>),
>
    decreases k,
{
    if k <= 1 {
        Ok(norm_initial())
    } else {
        match norm_run(args, k - 1) {
            Err(e) => Err(e),
            Ok(st) => norm_step(st, k - 1, args[k - 1]),
        }
    }
}

/// An ambiguous token stops the normalizer: later arguments do not change the outcome.
proof fn lemma_norm_run_err(args: Seq<Option<Seq<char>>>, j: int, k: int)
    requires
        1 <= j <= k,
        norm_run(args, j) is Err,
    ensures
        norm_run(args, k) == norm_run(args, j),
    decreases k - j,
{
    if k > j {
        lemma_norm_run_err(args, j, k - 1);
    }
}

/// The implied `file` subcommand of `download` and `upload`, inserted when none followed.
pub open spec fn norm_finish(st: NormState) -> Seq<NormItem> {
    let o1 = match st.pending_download {
        Some(d) => if !st.download_seen {
            st.out.insert(d, NormItem::Inserted("file"@))
        } else {
            st.out
        },
        None => st.out,
    };
    match st.pending_upload {
        Some(u) => if !st.upload_seen {
            o1.insert(u, NormItem::Inserted("file"@))
        } else {
            o1
        },
        None => o1,
    }
}

/// The normalized command line, or the ambiguous token and its matches.
pub open spec fn normalize_spec(args: Seq<Option<Seq<char>>>) -> Result<
    Seq<NormItem>,
    (Seq<char>, Seq<Seq<char>>),
> {
    if args.len() <= 1 {
        Ok(Seq::new(args.len(), |i: int| NormItem::Given(i)))
    } else {
        match norm_run(args, args.len() as int) {
            Ok(st) => Ok(norm_finish(st)),
            Err(e) => Err(e),
        }
    }
}

/// The places where the normalizer inserts lie within its output.
pub open spec fn norm_wf(st: NormState) -> bool {
    &&& st.get_insert matches Some(g) ==> 0 <= g <= st.out.len()
    &&& st.pending_download matches Some(d) ==> 0 <= d <= st.out.len()
    &&& st.pending_upload matches Some(u) ==> 0 <= u <= st.out.len()
}

/// The normalizer's state.
pub struct Normalizer {
    pub out: Vec<NormalizedArg>,
    pub context: CommandContext,
    pub expect_value: bool,
    pub parse_options: bool,
    pub pending_download: Option<usize>,
    pub download_seen: bool,
    pub pending_upload: Option<usize>,
    pub upload_seen: bool,
    pub pending_get_chat_url: bool,
    pub get_insert: Option<usize>,
}

pub open spec fn opt_int(o: Option<usize>) -> Option<int> {
    match o {
        Some(v) => Some(v as int),
        None => None,
    }
}

impl Normalizer {
    pub open spec fn model(&self) -> NormState {
        NormState {
            out: items_view(self.out@),
            context: self.context,
            expect_value: self.expect_value,
            parse_options: self.parse_options,
            pending_download: opt_int(self.pending_download),
            download_seen: self.download_seen,
            pending_upload: opt_int(self.pending_upload),
            upload_seen: self.upload_seen,
            pending_get_chat_url: self.pending_get_chat_url,
            get_insert: opt_int(self.get_insert),
        }
    }

    fn push_given(&mut self, i: usize)
        ensures
            final(self).model() == push_given(old(self).model(), i as int),
            final(self).out@.len() == old(self).out@.len() + 1,
    {
        self.out.push(NormalizedArg::Given(i));
        assert(items_view(self.out@) =~= items_view(old(self).out@).push(NormItem::Given(i as int)));
    }

    fn insert_target(&mut self, target: &'static str)
        requires
            norm_wf(old(self).model()),
        ensures
            final(self).model() == insert_target(old(self).model(), target@),
            norm_wf(final(self).model()),
            final(self).out@.len() == old(self).out@.len() + 1,
    {
        let idx = match self.get_insert {
            Some(g) => g,
            None => self.out.len(),
        };
        self.get_insert = None;
        self.out.insert(idx, NormalizedArg::Inserted(target.to_owned()));
        self.context = CommandContext::Leaf;
        assert(items_view(self.out@) =~= items_view(old(self).out@).insert(
            idx as int,
            NormItem::Inserted(target@),
        ));
    }

    /// Handles argument `i`.
    #[verifier::rlimit(60)]
    fn step(&mut self, i: usize, arg: &CliArg) -> (r: Result<(), CliError>)
        requires
            norm_wf(old(self).model()),
            old(self).out@.len() < usize::MAX - 1,
        ensures
            match norm_step(old(self).model(), i as int, arg_view(*arg)) {
                Ok(st) => r is Ok && final(self).model() == st && norm_wf(st),
                Err((t, m)) => r is Err && is_ambiguous_error(r->Err_0, t, m),
            },
            final(self).out@.len() <= old(self).out@.len() + 2,
    {
        reveal(norm_step);
        if !self.parse_options {
            self.push_given(i);
            return Ok(());
        }
        let text = match arg {
            CliArg::Opaque => {
                self.push_given(i);
                return Ok(());
            },
            CliArg::Text(t) => t,
        };
        let tc = chars_of(text.as_str());
        if self.expect_value {
            if self.pending_get_chat_url {
                if let Some(target) = infer_get_target_from_url(text.as_str()) {
                    self.insert_target(target);
                }
                self.pending_get_chat_url = false;
            }
            self.push_given(i);
            self.expect_value = false;
            return Ok(());
        }
        if chars_eq_str(&tc, "--") {
            self.push_given(i);
            self.parse_options = false;
            return Ok(());
        }
        if starts_with_str(&tc, "--") {
            let dl = chars_of("--").len();
            let long = slice_chars(&tc, dl, tc.len());
            assert(long@ =~= tc@.skip("--"@.len() as int));
            if self.context == CommandContext::Get && (chars_eq_str(&long, "chat-url")
                || starts_with_str(&long, "chat-url=")) {
                if starts_with_str(&long, "chat-url=") {
                    let pl = chars_of("chat-url=").len();
                    let value = slice_chars(&long, pl, long.len());
                    assert(value@ =~= long@.skip("chat-url="@.len() as int));
                    let vs = string_of(&value);
                    if let Some(target) = infer_get_target_from_url(vs.as_str()) {
                        self.insert_target(target);
                    }
                } else {
                    self.pending_get_chat_url = true;
                }
            }
            self.push_given(i);
            let eq = vec!['='];
            assert(eq@ =~= seq!['=']);
            if !contains(&long, &eq) && long_option_takes_value(&long) {
                self.expect_value = true;
            }
            return Ok(());
        }
        if starts_with_str(&tc, "-") && !chars_eq_str(&tc, "-") {
            self.push_given(i);
            return Ok(());
        }
        if self.context == CommandContext::Get {
            if let Some(target) = infer_get_target_from_url(text.as_str()) {
                self.insert_target(target);
                self.push_given(i);
                return Ok(());
            }
        }
        let resolved = resolve_subcommand_prefix(self.context, &tc)?;
        match resolved {
            Some(command) => {
                let cc = chars_of(command.as_str());
                let ctx = next_command_context(self.context, &cc);
                self.context = ctx;
                let len = self.out.len();
                if ctx == CommandContext::Download {
                    self.pending_download = Some(len + 1);
                    self.download_seen = false;
                }
                if ctx == CommandContext::Upload {
                    self.pending_upload = Some(len + 1);
                    self.upload_seen = false;
                }
                if ctx == CommandContext::Get {
                    self.get_insert = Some(len + 1);
                } else if ctx == CommandContext::Leaf {
                    self.get_insert = None;
                }
                let item_word = chars_eq_str(&cc, "file") || chars_eq_str(&cc, "help");
                if item_word && self.pending_download.is_some() {
                    self.download_seen = true;
                }
                if item_word && self.pending_upload.is_some() {
                    self.upload_seen = true;
                }
                self.out.push(NormalizedArg::Expanded(i, command));
                assert(items_view(self.out@) =~= items_view(old(self).out@).push(
                    NormItem::Expanded(i as int, cc@),
                ));
                Ok(())
            },
            None => {
                if self.pending_download.is_some() && self.context != CommandContext::Download {
                    self.download_seen = true;
                }
                if self.pending_upload.is_some() && self.context != CommandContext::Upload {
                    self.upload_seen = true;
                }
                self.push_given(i);
                Ok(())
            },
        }
    }
}

/// Inserts the implied `file` subcommands.
fn finish_normalized(st: Normalizer) -> (out: Vec<NormalizedArg>)
    requires
        norm_wf(st.model()),
        st.out@.len() < usize::MAX - 2,
    ensures
        items_view(out@) == norm_finish(st.model()),
{
    let mut out = st.out;
    if let Some(d) = st.pending_download {
        if !st.download_seen {
            out.insert(d, NormalizedArg::Inserted("file".to_owned()));
        }
    }
    if let Some(u) = st.pending_upload {
        if !st.upload_seen {
            out.insert(u, NormalizedArg::Inserted("file".to_owned()));
        }
    }
    assert(items_view(out@) =~= norm_finish(st.model()));
    out
}

/// Normalizes a command line (`args[0]` is the program name): expands unique subcommand
/// prefixes and the `dl` alias, routes a chat URL after `get` to `room` or `message`, and
/// inserts the `file` subcommand after a bare `download` or `upload`. A prefix of several
/// subcommands is an error.
pub fn normalize_cli_args(args: &Vec<CliArg>) -> (r: Result<Vec<NormalizedArg>, CliError>)
    requires
        args@.len() < usize::MAX / 4,
    ensures
        match normalize_spec(args_view(args@)) {
            Ok(out) => r is Ok && items_view(r->Ok_0@) == out,
            Err((t, m)) => r is Err && is_ambiguous_error(r->Err_0, t, m),
        },
{
    let ghost av = args_view(args@);
    let n = args.len();
    if n <= 1 {
        let mut out: Vec<NormalizedArg> = Vec::new();
        let mut i: usize = 0;
        while i < n
            invariant
                i <= n <= 1,
                items_view(out@) == Seq::new(i as nat, |k: int| NormItem::Given(k)),
            decreases n - i,
        {
            let ghost before = out@;
            out.push(NormalizedArg::Given(i));
            assert(items_view(out@) =~= items_view(before).push(NormItem::Given(i as int)));
            i += 1;
            assert(items_view(out@) =~= Seq::new(i as nat, |k: int| NormItem::Given(k)));
        }
        return Ok(out);
    }
    let mut st = Normalizer {
        out: Vec::new(),
        context: CommandContext::Root,
        expect_value: false,
        parse_options: true,
        pending_download: None,
        download_seen: false,
        pending_upload: None,
        upload_seen: false,
        pending_get_chat_url: false,
        get_insert: None,
    };
    st.out.push(NormalizedArg::Given(0));
    assert(st.model() =~= norm_initial()) by {
        assert(items_view(st.out@) =~= seq![NormItem::Given(0)]);
    }
    let mut i: usize = 1;
    while i < n
        invariant
            1 <= i <= n == args@.len(),
            n < usize::MAX / 4,
            av == args_view(args@),
            av.len() == n,
            norm_run(av, i as int) == Ok::<NormState, (Seq<char>, Seq<Seq<char>>)>(st.model()),
            norm_wf(st.model()),
            st.out@.len() <= 2 * i,
        decreases n - i,
    {
        assert(av[i as int] == arg_view(args@[i as int]));
        let stepped = st.step(i, &args[i]);
        if let Err(e) = stepped {
            proof {
                lemma_norm_run_err(av, i + 1, n as int);
            }
            return Err(e);
        }
        i += 1;
    }
    let out = finish_normalized(st);
    Ok(out)
}

// ---------------------------------------------------------------------------
// The command whose usage text accompanies a parse error.

/// The usage context when the arguments give out in `context`.
pub open spec fn usage_of_context(context: CommandContext) -> UsageContext {
    match context {
        CommandContext::Get => UsageContext::Get,
        CommandContext::Template => UsageContext::Template,
        _ => UsageContext::Root,
    }
}

/// The usage context that the arguments from index `i` on select.
pub open spec fn usage_scan(
    args: Seq<Option<Seq<char>>>,
    i: int,
    context: CommandContext,
    expect_value: bool,
    parse_options: bool,
) -> UsageContext
    decreases args.len() - i,
{
    if i < 0 || i >= args.len() || !parse_options {
        usage_of_context(context)
    } else {
        match args[i] {
            None => usage_scan(args, i + 1, context, expect_value, parse_options),
            Some(text) => if expect_value {
                usage_scan(args, i + 1, context, false, parse_options)
            } else if text == "--"@ {
                usage_scan(args, i + 1, context, expect_value, false)
            } else if starts_with_spec(text, "--"@) {
                let long = text.skip("--"@.len() as int);
                let e = !contains_spec(long, seq!['=']) && value_options_spec().contains(long);
                usage_scan(args, i + 1, context, e, parse_options)
            } else if starts_with_spec(text, "-"@) && text != "-"@ {
                usage_scan(args, i + 1, context, expect_value, parse_options)
            } else {
                match context {
                    CommandContext::Root => if text == "send"@ {
                        UsageContext::Send
                    } else if text == "download"@ {
                        UsageContext::DownloadFile
                    } else if text == "upload"@ {
                        UsageContext::UploadFile
                    } else if text == "get"@ {
                        usage_scan(args, i + 1, CommandContext::Get, expect_value, parse_options)
                    } else if text == "template"@ {
                        usage_scan(
                            args,
                            i + 1,
                            CommandContext::Template,
                            expect_value,
                            parse_options,
                        )
                    } else {
                        UsageContext::Root
                    },
                    CommandContext::Get => if text == "room"@ {
                        UsageContext::GetRoom
                    } else if text == "message"@ {
                        UsageContext::GetMessage
                    } else if text == "files"@ {
                        UsageContext::GetFiles
                    } else {
                        UsageContext::Get
                    },
                    CommandContext::Template => if text == "show"@ {
                        UsageContext::TemplateShow
                    } else {
                        UsageContext::Template
                    },
                    _ => UsageContext::Root,
                }
            },
        }
    }
}

/// The command whose usage text fits a command line that could not be parsed
/// (`args[0]` is the program name).
pub fn infer_usage_context(args: &Vec<CliArg>) -> (r: UsageContext)
    ensures
        r == usage_scan(args_view(args@), 1, CommandContext::Root, false, true),
{
    let ghost av = args_view(args@);
    let mut context = CommandContext::Root;
    let mut expect_value = false;
    let mut parse_options = true;
    let mut i: usize = 1;
    if args.len() == 0 {
        return UsageContext::Root;
    }
    while i < args.len()
        invariant
            1 <= i <= args@.len(),
            av == args_view(args@),
            av.len() == args@.len(),
            usage_scan(av, 1, CommandContext::Root, false, true) == usage_scan(
                av,
                i as int,
                context,
                expect_value,
                parse_options,
            ),
        decreases args.len() - i,
    {
        assert(av[i as int] == arg_view(args@[i as int]));
        if !parse_options {
            return match context {
                CommandContext::Get => UsageContext::Get,
                CommandContext::Template => UsageContext::Template,
                _ => UsageContext::Root,
            };
        }
        let text = match &args[i] {
            CliArg::Opaque => {
                i += 1;
                continue;
            },
            CliArg::Text(t) => t,
        };
        if expect_value {
            expect_value = false;
            i += 1;
            continue;
        }
        let tc = chars_of(text.as_str());
        if chars_eq_str(&tc, "--") {
            parse_options = false;
            i += 1;
            continue;
        }
        if starts_with_str(&tc, "--") {
            let dl = chars_of("--").len();
            let long = slice_chars(&tc, dl, tc.len());
            assert(long@ =~= tc@.skip("--"@.len() as int));
            let eq = vec!['='];
            assert(eq@ =~= seq!['=']);
            if !contains(&long, &eq) && long_option_takes_value(&long) {
                expect_value = true;
            }
            i += 1;
            continue;
        }
        if starts_with_str(&tc, "-") && !chars_eq_str(&tc, "-") {
            i += 1;
            continue;
        }
        match context {
            CommandContext::Root => {
                if chars_eq_str(&tc, "send") {
                    return UsageContext::Send;
                } else if chars_eq_str(&tc, "download") {
                    return UsageContext::DownloadFile;
                } else if chars_eq_str(&tc, "upload") {
                    return UsageContext::UploadFile;
                } else if chars_eq_str(&tc, "get") {
                    context = CommandContext::Get;
                } else if chars_eq_str(&tc, "template") {
                    context = CommandContext::Template;
                } else {
                    return UsageContext::Root;
                }
            },
            CommandContext::Get => {
                if chars_eq_str(&tc, "room") {
                    return UsageContext::GetRoom;
                } else if chars_eq_str(&tc, "message") {
                    return UsageContext::GetMessage;
                } else if chars_eq_str(&tc, "files") {
                    return UsageContext::GetFiles;
                } else {
                    return UsageContext::Get;
                }
            },
            CommandContext::Template => {
                if chars_eq_str(&tc, "show") {
                    return UsageContext::TemplateShow;
                } else {
                    return UsageContext::Template;
                }
            },
            _ => {
                return UsageContext::Root;
            },
        }
        i += 1;
    }
    match context {
        CommandContext::Get => UsageContext::Get,
        CommandContext::Template => UsageContext::Template,
        _ => UsageContext::Root,
    }
}

// ---------------------------------------------------------------------------
// What normalization keeps.

/// The indices of the given arguments that the normalized command line holds, in order
/// (an inserted subcommand stands for no argument).
pub open spec fn origins(out: Seq<NormItem>) -> Seq<int>
    decreases out.len(),
{
    if out.len() == 0 {
        Seq::empty()
    } else {
        let r = origins(out.drop_last());
        match out.last() {
            NormItem::Given(i) => r.push(i),
            NormItem::Expanded(i, _) => r.push(i),
            NormItem::Inserted(_) => r,
        }
    }
}

/// The subcommands that normalization may insert.
pub open spec fn implied_word(w: Seq<char>) -> bool {
    w == "room"@ || w == "message"@ || w == "file"@
}

pub open spec fn inserted_ok(out: Seq<NormItem>) -> bool {
    forall|k: int| 0 <= k < out.len() ==> (#[trigger] out[k] matches NormItem::Inserted(w) ==> implied_word(w))
}

/// `0, 1, ..., n - 1`.
pub open spec fn index_range(n: int) -> Seq<int> {
    Seq::new(n as nat, |k: int| k)
}

proof fn lemma_origins_insert(s: Seq<NormItem>, j: int, w: Seq<char>)
    requires
        0 <= j <= s.len(),
    ensures
        origins(s.insert(j, NormItem::Inserted(w))) == origins(s),
    decreases s.len(),
{
    let t = s.insert(j, NormItem::Inserted(w));
    if j == s.len() {
        assert(t.drop_last() =~= s);
    } else {
        assert(t.drop_last() =~= s.drop_last().insert(j, NormItem::Inserted(w)));
        assert(t.last() == s.last());
        lemma_origins_insert(s.drop_last(), j, w);
    }
}

proof fn lemma_inserted_ok_insert(s: Seq<NormItem>, j: int, w: Seq<char>)
    requires
        0 <= j <= s.len(),
        inserted_ok(s),
        implied_word(w),
    ensures
        inserted_ok(s.insert(j, NormItem::Inserted(w))),
{
    let t = s.insert(j, NormItem::Inserted(w));
    assert forall|k: int| 0 <= k < t.len() implies (#[trigger] t[k] matches NormItem::Inserted(x)
        ==> implied_word(x)) by {
        if k < j {
            assert(t[k] == s[k]);
        } else if k > j {
            assert(t[k] == s[k - 1]);
        }
    }
}

proof fn lemma_push_item(s: Seq<NormItem>, x: NormItem, n: int)
    requires
        origins(s) == index_range(n),
        inserted_ok(s),
        n >= 0,
        x matches NormItem::Given(i) ==> i == n,
        x matches NormItem::Expanded(i, _) ==> i == n,
        x is Given || x is Expanded,
    ensures
        origins(s.push(x)) == index_range(n + 1),
        inserted_ok(s.push(x)),
{
    assert(s.push(x).drop_last() =~= s);
    assert(index_range(n + 1) =~= index_range(n).push(n));
    let t = s.push(x);
    assert forall|k: int| 0 <= k < t.len() implies (#[trigger] t[k] matches NormItem::Inserted(w)
        ==> implied_word(w)) by {
        if k < s.len() {
            assert(t[k] == s[k]);
        }
    }
}

/// What one normalizer step keeps: the arguments so far, once each and in order, and only
/// implied subcommands inserted between them.
proof fn lemma_norm_step_keeps(st: NormState, i: int, arg: Option<Seq<char>>)
    requires
        i >= 1,
        norm_wf(st),
        origins(st.out) == index_range(i),
        inserted_ok(st.out),
    ensures
        norm_step(st, i, arg) matches Ok(st2) ==> norm_wf(st2) && origins(st2.out) == index_range(
            i + 1,
        ) && inserted_ok(st2.out),
{
    reveal(norm_step);
    if let Ok(st2) = norm_step(st, i, arg) {
        // every branch inserts at most one implied subcommand, then adds argument `i`
        let t1 = match arg {
            Some(text) => if st.parse_options && st.expect_value && st.pending_get_chat_url {
                get_target_spec(text)
            } else if st.parse_options && !st.expect_value && text != "--"@ && starts_with_spec(
                text,
                "--"@,
            ) && st.context == CommandContext::Get && starts_with_spec(
                text.skip("--"@.len() as int),
                "chat-url="@,
            ) {
                get_target_spec(text.skip("--"@.len() as int).skip("chat-url="@.len() as int))
            } else if st.parse_options && !st.expect_value && text != "--"@ && !starts_with_spec(
                text,
                "--"@,
            ) && !(starts_with_spec(text, "-"@) && text != "-"@) && st.context
                == CommandContext::Get {
                get_target_spec(text)
            } else {
                None
            },
            None => None,
        };
        match t1 {
            Some(t) => {
                let idx = match st.get_insert {
                    Some(g) => g,
                    None => st.out.len() as int,
                };
                lemma_origins_insert(st.out, idx, t);
                lemma_inserted_ok_insert(st.out, idx, t);
                let s1 = st.out.insert(idx, NormItem::Inserted(t));
                lemma_push_item(s1, NormItem::Given(i), i);
            },
            None => {
                lemma_push_item(st.out, NormItem::Given(i), i);
                if let Some(text) = arg {
                    if let Ok(Some(cmd)) = resolve_prefix_spec(st.context, text) {
                        lemma_push_item(st.out, NormItem::Expanded(i, cmd), i);
                    }
                }
            },
        }
    }
}

proof fn lemma_norm_run_keeps(args: Seq<Option<Seq<char>>>, k: int)
    requires
        k >= 1,
    ensures
        norm_run(args, k) matches Ok(st) ==> norm_wf(st) && origins(st.out) == index_range(k)
            && inserted_ok(st.out),
    decreases k,
{
    if k == 1 {
        let o = norm_initial().out;
        assert(o.drop_last() =~= Seq::<NormItem>::empty());
        assert(origins(o.drop_last()) == Seq::<int>::empty());
        assert(origins(o) =~= seq![0int]);
        assert(index_range(1) =~= seq![0int]);
        assert(inserted_ok(o));
    } else {
        lemma_norm_run_keeps(args, k - 1);
        if let Ok(st) = norm_run(args, k - 1) {
            lemma_norm_step_keeps(st, k - 1, args[k - 1]);
        }
    }
}

proof fn lemma_origins_given(n: int)
    requires
        0 <= n,
    ensures
        origins(Seq::new(n as nat, |i: int| NormItem::Given(i))) == index_range(n),
        inserted_ok(Seq::new(n as nat, |i: int| NormItem::Given(i))),
    decreases n,
{
    let s = Seq::new(n as nat, |i: int| NormItem::Given(i));
    if n > 0 {
        assert(s.drop_last() =~= Seq::new((n - 1) as nat, |i: int| NormItem::Given(i)));
        lemma_origins_given(n - 1);
        assert(index_range(n) =~= index_range(n - 1).push(n - 1));
    } else {
        assert(index_range(0) =~= Seq::<int>::empty());
    }
}

/// Normalization never drops, repeats or reorders an argument: the normalized command
/// line holds each given argument once, in order (unchanged or replaced by the
/// subcommand that it abbreviates), and the only words it adds are the implied
/// subcommands `room`, `message` and `file`.
pub proof fn lemma_normalize_keeps_arguments(args: Seq<Option<Seq<char>>>)
    ensures
        normalize_spec(args) matches Ok(out) ==> origins(out) == index_range(args.len() as int)
            && inserted_ok(out),
{
    if args.len() <= 1 {
        lemma_origins_given(args.len() as int);
    } else {
        lemma_norm_run_keeps(args, args.len() as int);
        if let Ok(st) = norm_run(args, args.len() as int) {
            let o1 = match st.pending_download {
                Some(d) => if !st.download_seen {
                    st.out.insert(d, NormItem::Inserted("file"@))
                } else {
                    st.out
                },
                None => st.out,
            };
            if let Some(d) = st.pending_download {
                if !st.download_seen {
                    lemma_origins_insert(st.out, d, "file"@);
                    lemma_inserted_ok_insert(st.out, d, "file"@);
                }
            }
            if let Some(u) = st.pending_upload {
                if !st.upload_seen {
                    if u <= o1.len() {
                        lemma_origins_insert(o1, u, "file"@);
                        lemma_inserted_ok_insert(o1, u, "file"@);
                    }
                }
            }
        }
    }
}

/// A command line of at most the program name is left as it is.
pub proof fn lemma_normalize_short_command_line(args: Seq<Option<Seq<char>>>)
    requires
        args.len() <= 1,
    ensures
        normalize_spec(args) == Ok::<Seq<NormItem>, (Seq<char>, Seq<Seq<char>>)>(
            Seq::new(args.len(), |i: int| NormItem::Given(i)),
        ),
{
}

} // verus!
