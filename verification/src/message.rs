//! User-facing messages and the errors of the command-line client.
//!
//! A message is kept as its gettext `msgid` and the values of its placeholders, so that
//! it can be translated when it is shown.
use vstd::prelude::*;
use crate::i18n::{gettextf, gettextf_spec, pair_views};
use crate::strmap::StrMap;

verus! {

/// The command whose usage text accompanies an error.
#[derive(Clone, Copy, PartialEq, Eq, Structural, Debug)]
pub enum UsageContext {
    Root,
    Get,
    GetRoom,
    GetMessage,
    GetFiles,
    DownloadFile,
    UploadFile,
    Template,
    TemplateShow,
    Send,
}

/// A message to show to the user.
#[derive(Debug, PartialEq, Eq)]
pub enum Message {
    /// A translatable message: its `msgid` and the values of its `{placeholders}`.
    Text { msgid: &'static str, vars: Vec<(&'static str, String)> },
    /// Text that is shown as it is.
    Verbatim(String),
}

/// An error of the command-line client. A usage error (`context` is `Some`) is shown
/// together with the usage text of its command.
#[derive(Debug, PartialEq, Eq)]
pub struct CliError {
    pub context: Option<UsageContext>,
    pub message: Message,
}

/// `m` is the message `id` without placeholders.
pub open spec fn is_msg0(m: Message, id: Seq<char>) -> bool {
    &&& m is Text
    &&& m->msgid@ == id
    &&& m->vars@.len() == 0
}

/// `m` is the message `id` with the placeholder `k` set to `v`.
pub open spec fn is_msg1(m: Message, id: Seq<char>, k: Seq<char>, v: Seq<char>) -> bool {
    &&& m is Text
    &&& m->msgid@ == id
    &&& m->vars@.len() == 1
    &&& m->vars@[0].0@ == k
    &&& m->vars@[0].1@ == v
}

/// `m` is the message `id` with the placeholders `k1` and `k2` set to `v1` and `v2`.
pub open spec fn is_msg2(
    m: Message,
    id: Seq<char>,
    k1: Seq<char>,
    v1: Seq<char>,
    k2: Seq<char>,
    v2: Seq<char>,
) -> bool {
    &&& m is Text
    &&& m->msgid@ == id
    &&& m->vars@.len() == 2
    &&& m->vars@[0].0@ == k1
    &&& m->vars@[0].1@ == v1
    &&& m->vars@[1].0@ == k2
    &&& m->vars@[1].1@ == v2
}

/// `e` is a usage error of command `ctx` that says the message `id`.
pub open spec fn is_usage0(e: CliError, ctx: UsageContext, id: Seq<char>) -> bool {
    e.context == Some(ctx) && is_msg0(e.message, id)
}

/// `e` is a usage error of command `ctx` that says the message `id` with `k` set to `v`.
pub open spec fn is_usage1(e: CliError, ctx: UsageContext, id: Seq<char>, k: Seq<char>, v: Seq<char>) -> bool {
    e.context == Some(ctx) && is_msg1(e.message, id, k, v)
}

/// `e` is an error without usage text that says the message `id`.
pub open spec fn is_general0(e: CliError, id: Seq<char>) -> bool {
    e.context is None && is_msg0(e.message, id)
}

/// `e` is an error without usage text that says the message `id` with `k` set to `v`.
pub open spec fn is_general1(e: CliError, id: Seq<char>, k: Seq<char>, v: Seq<char>) -> bool {
    e.context is None && is_msg1(e.message, id, k, v)
}

/// The placeholder values of a message, as strings.
pub open spec fn var_views(vars: Seq<(&'static str, String)>) -> Seq<(Seq<char>, Seq<char>)> {
    vars.map_values(|p: (&'static str, String)| (p.0@, p.1@))
}

/// The text that `m` shows with `catalog`.
pub open spec fn message_text(m: Message, catalog: Map<Seq<char>, Seq<char>>) -> Seq<char> {
    match m {
        Message::Text { msgid, vars } => gettextf_spec(catalog, msgid@, var_views(vars@)),
        Message::Verbatim(s) => s@,
    }
}

/// The message `id`.
pub fn msg0(id: &'static str) -> (m: Message)
    ensures
        is_msg0(m, id@),
{
    Message::Text { msgid: id, vars: Vec::new() }
}

/// The message `id` with the placeholder `k` set to `v`.
pub fn msg1(id: &'static str, k: &'static str, v: String) -> (m: Message)
    ensures
        is_msg1(m, id@, k@, v@),
{
    let mut vars: Vec<(&'static str, String)> = Vec::new();
    vars.push((k, v));
    Message::Text { msgid: id, vars }
}

/// The message `id` with the placeholders `k1` and `k2` set to `v1` and `v2`.
pub fn msg2(id: &'static str, k1: &'static str, v1: String, k2: &'static str, v2: String) -> (m: Message)
    ensures
        is_msg2(m, id@, k1@, v1@, k2@, v2@),
{
    let mut vars: Vec<(&'static str, String)> = Vec::new();
    vars.push((k1, v1));
    vars.push((k2, v2));
    Message::Text { msgid: id, vars }
}

/// A usage error of command `ctx`.
pub fn usage_error(context: UsageContext, message: Message) -> (e: CliError)
    ensures
        e.context == Some(context),
        e.message == message,
{
    CliError { context: Some(context), message }
}

/// An error without usage text.
pub fn general_error(message: Message) -> (e: CliError)
    ensures
        e.context is None,
        e.message == message,
{
    CliError { context: None, message }
}

impl Message {
    /// The text of the message, translated with `catalog`.
    pub fn text(&self, catalog: &StrMap) -> (r: String)
        ensures
            r@ == message_text(*self, catalog@),
    {
        match self {
            Message::Text { msgid, vars } => {
                let mut refs: Vec<(&str, &str)> = Vec::new();
                let mut i: usize = 0;
                while i < vars.len()
                    invariant
                        i <= vars@.len(),
                        pair_views(refs@) == var_views(vars@).take(i as int),
                    decreases vars.len() - i,
                {
                    let entry = &vars[i];
                    let k: &'static str = entry.0;
                    let v: &str = entry.1.as_str();
                    let ghost before = refs@;
                    refs.push((k, v));
                    proof {
                        assert(refs@ == before.push((k, v)));
                        assert(pair_views(refs@) =~= pair_views(before).push((k@, v@)));
                        assert(var_views(vars@)[i as int] == (k@, v@));
                    }
                    i += 1;
                    assert(pair_views(refs@) =~= var_views(vars@).take(i as int));
                }
                assert(var_views(vars@).take(i as int) =~= var_views(vars@));
                gettextf(catalog, msgid, refs.as_slice())
            },
            Message::Verbatim(s) => s.clone(),
        }
    }
}

} // verus!
