//! Chatwork chat URLs (`...#!rid<room_id>` and `...#!rid<room_id>-<message_id>`) and the
//! arguments of `get room` and `get message`.
use vstd::prelude::*;
use crate::message::{is_usage0, msg0, usage_error, CliError, UsageContext};
use crate::text::{
    chars_of, decimal, find_spec, find_str, is_digit, lemma_decimal_digits,
    lemma_find_from_first, lemma_parse_decimal, occurs_at, parse_u64, parse_unsigned_spec,
    slice_chars,
};

verus! {

/// The marker that precedes the room id in a chat URL.
pub const ROOM_MARKER: &'static str = "#!rid";

/// The number of ASCII digits at the start of `s`.
pub open spec fn leading_digit_count(s: Seq<char>) -> int
    decreases s.len(),
{
    if s.len() > 0 && is_digit(s[0]) {
        1 + leading_digit_count(s.drop_first())
    } else {
        0
    }
}

/// The leading digits of `s` and the rest, when `s` starts with a digit.
pub open spec fn split_leading_digits_spec(s: Seq<char>) -> Option<(Seq<char>, Seq<char>)> {
    let n = leading_digit_count(s);
    if n == 0 {
        None
    } else {
        Some((s.take(n), s.skip(n)))
    }
}

/// The room id and, if there is one, the message id that a chat URL names.
pub open spec fn url_parts_spec(url: Seq<char>) -> Option<(u64, Option<u64>)> {
    match find_spec(url, ROOM_MARKER@) {
        None => None,
        Some(start) => {
            let rest = url.skip(start + ROOM_MARKER@.len());
            match split_leading_digits_spec(rest) {
                None => None,
                Some((room_text, tail)) => match parse_unsigned_spec(room_text, u64::MAX as int) {
                    None => None,
                    Some(room) => if tail.len() > 0 && tail[0] == '-' {
                        match split_leading_digits_spec(tail.drop_first()) {
                            None => None,
                            Some((message_text, _)) => match parse_unsigned_spec(
                                message_text,
                                u64::MAX as int,
                            ) {
                                None => None,
                                Some(message) => Some((room as u64, Some(message as u64))),
                            },
                        }
                    } else {
                        Some((room as u64, None))
                    },
                },
            }
        },
    }
}

proof fn lemma_leading_digits(s: Seq<char>, n: int)
    requires
        0 <= n <= s.len(),
        forall|k: int| 0 <= k < n ==> is_digit(#[trigger] s[k]),
        n < s.len() ==> !is_digit(s[n]),
    ensures
        leading_digit_count(s) == n,
    decreases n,
{
    if n > 0 {
        let t = s.drop_first();
        assert forall|k: int| 0 <= k < n - 1 implies is_digit(#[trigger] t[k]) by {
            assert(t[k] == s[k + 1]);
        }
        if n < s.len() {
            assert(t[n - 1] == s[n]);
        }
        lemma_leading_digits(t, n - 1);
    }
}

/// Splits `text` after its leading ASCII digits; `None` when it does not start with one.
pub fn split_leading_digits(text: &Vec<char>) -> (r: Option<(Vec<char>, Vec<char>)>)
    ensures
        match r {
            Some((a, b)) => split_leading_digits_spec(text@) == Some((a@, b@)),
            None => split_leading_digits_spec(text@) is None,
        },
{
    let mut end: usize = 0;
    while end < text.len() && '0' <= text[end] && text[end] <= '9'
        invariant
            end <= text.len(),
            forall|k: int| 0 <= k < end ==> is_digit(#[trigger] text@[k]),
        decreases text.len() - end,
    {
        end += 1;
    }
    proof {
        lemma_leading_digits(text@, end as int);
    }
    if end == 0 {
        None
    } else {
        let a = slice_chars(text, 0, end);
        let b = slice_chars(text, end, text.len());
        assert(a@ =~= text@.take(end as int));
        assert(b@ =~= text@.skip(end as int));
        Some((a, b))
    }
}

/// The room id and optional message id of a chat URL.
pub fn parse_chatwork_url_parts(url: &str) -> (r: Option<(u64, Option<u64>)>)
    ensures
        r == url_parts_spec(url@),
{
    let u = chars_of(url);
    let marker = chars_of(ROOM_MARKER);
    let start = match find_str(&u, ROOM_MARKER) {
        Some(s) => s,
        None => return None,
    };
    proof {
        crate::text::lemma_find_from(u@, ROOM_MARKER@, 0);
        let ff = crate::text::find_from(u@, ROOM_MARKER@, 0);
        assert(crate::text::occurs_at(u@, ROOM_MARKER@, ff->0));
    }
    let ml = marker.len();
    let ul = u.len();
    assert(start + ml <= ul);
    let rest = slice_chars(&u, start + ml, ul);
    assert(rest@ =~= u@.skip(start + ROOM_MARKER@.len()));
    let (room_text, tail) = match split_leading_digits(&rest) {
        Some(p) => p,
        None => return None,
    };
    let room_id = match parse_u64(&room_text) {
        Some(v) => v,
        None => return None,
    };
    if tail.len() > 0 && tail[0] == '-' {
        let message_tail = slice_chars(&tail, 1, tail.len());
        assert(message_tail@ =~= tail@.drop_first());
        let (message_text, _) = match split_leading_digits(&message_tail) {
            Some(p) => p,
            None => return None,
        };
        match parse_u64(&message_text) {
            Some(m) => Some((room_id, Some(m))),
            None => None,
        }
    } else {
        Some((room_id, None))
    }
}

/// The error for a URL without `#!rid<room_id>`.
pub open spec fn is_bad_url_error(e: CliError, ctx: UsageContext) -> bool {
    is_usage0(e, ctx, "The URL must contain `#!rid<room_id>` or `#!rid<room_id>-<message_id>`."@)
}

/// The room id and optional message id of a chat URL, or a usage error of `context`.
pub fn parse_chatwork_url(url: &str, context: UsageContext) -> (r: Result<(u64, Option<u64>), CliError>)
    ensures
        match url_parts_spec(url@) {
            Some(p) => r == Ok::<(u64, Option<u64>), CliError>(p),
            None => r is Err && is_bad_url_error(r->Err_0, context),
        },
{
    match parse_chatwork_url_parts(url) {
        Some(p) => Ok(p),
        None => Err(
            usage_error(
                context,
                msg0("The URL must contain `#!rid<room_id>` or `#!rid<room_id>-<message_id>`."),
            ),
        ),
    }
}

/// The room id of a chat URL.
pub fn parse_chatwork_room_url(url: &str, context: UsageContext) -> (r: Result<u64, CliError>)
    ensures
        match url_parts_spec(url@) {
            Some((room, _)) => r == Ok::<u64, CliError>(room),
            None => r is Err && is_bad_url_error(r->Err_0, context),
        },
{
    let (room_id, _) = parse_chatwork_url(url, context)?;
    Ok(room_id)
}

/// The error for a URL that names a room but no message.
pub open spec fn is_no_message_id_error(e: CliError, ctx: UsageContext) -> bool {
    is_usage0(e, ctx, "Failed to parse message_id from chat URL."@)
}

/// The room id and message id of a chat message URL.
pub fn parse_chatwork_message_url(url: &str, context: UsageContext) -> (r: Result<(u64, u64), CliError>)
    ensures
        match url_parts_spec(url@) {
            Some((room, Some(message))) => r == Ok::<(u64, u64), CliError>((room, message)),
            Some((_, None)) => r is Err && is_no_message_id_error(r->Err_0, context),
            None => r is Err && is_bad_url_error(r->Err_0, context),
        },
{
    let (room_id, message_id) = parse_chatwork_url(url, context)?;
    match message_id {
        Some(m) => Ok((room_id, m)),
        None => Err(usage_error(context, msg0("Failed to parse message_id from chat URL."))),
    }
}

/// The output format of `get` commands.
#[derive(Clone, Copy, PartialEq, Eq, Structural, Debug)]
pub enum GetFormat {
    Json,
    JsonMinify,
    Plain,
}

/// The output options of a `get` command.
#[derive(Clone, Copy, PartialEq, Eq, Structural, Debug)]
pub struct GetOutputArgs {
    pub format: GetFormat,
}

/// The arguments of `get room`.
#[derive(Debug)]
pub struct GetRoomArgs {
    pub output: GetOutputArgs,
    pub room_id: Option<u64>,
    pub chat_url: Option<String>,
    pub chat_url_arg: Option<String>,
}

/// The arguments of `get message`.
#[derive(Debug)]
pub struct GetMessageArgs {
    pub output: GetOutputArgs,
    pub room_id: Option<u64>,
    pub message_id: Option<u64>,
    pub chat_url: Option<String>,
    pub chat_url_arg: Option<String>,
}

/// The chat URL given with `--chat-url` or else as the positional argument.
pub open spec fn chosen_url(chat_url: Option<String>, chat_url_arg: Option<String>) -> Option<Seq<char>> {
    match chat_url {
        Some(u) => Some(u@),
        None => match chat_url_arg {
            Some(u) => Some(u@),
            None => None,
        },
    }
}

/// The room that `get room` shows: `--room-id`, or the room of the chat URL given as an
/// argument or with `--chat-url` (exactly one of these).
pub fn resolve_get_room_id(args: &GetRoomArgs) -> (r: Result<u64, CliError>)
    ensures
        args.chat_url is Some && args.chat_url_arg is Some ==> r is Err && is_usage0(
            r->Err_0,
            UsageContext::GetRoom,
            "Specify the room URL either as an argument or with --chat-url, not both."@,
        ),
        !(args.chat_url is Some && args.chat_url_arg is Some) ==> match (
            args.room_id,
            chosen_url(args.chat_url, args.chat_url_arg),
        ) {
            (Some(room), None) => r == Ok::<u64, CliError>(room),
            (None, Some(url)) => match url_parts_spec(url) {
                Some((room, _)) => r == Ok::<u64, CliError>(room),
                None => r is Err && is_bad_url_error(r->Err_0, UsageContext::GetRoom),
            },
            (Some(_), Some(_)) => r is Err && is_usage0(
                r->Err_0,
                UsageContext::GetRoom,
                "Specify either a room URL or --room-id, not both."@,
            ),
            (None, None) => r is Err && is_usage0(
                r->Err_0,
                UsageContext::GetRoom,
                "Specify either a room URL or --room-id."@,
            ),
        },
{
    if args.chat_url.is_some() && args.chat_url_arg.is_some() {
        return Err(
            usage_error(
                UsageContext::GetRoom,
                msg0("Specify the room URL either as an argument or with --chat-url, not both."),
            ),
        );
    }
    let chat_url: Option<&String> = match &args.chat_url {
        Some(u) => Some(u),
        None => args.chat_url_arg.as_ref(),
    };
    match (args.room_id, chat_url) {
        (Some(room_id), None) => Ok(room_id),
        (None, Some(url)) => parse_chatwork_room_url(url.as_str(), UsageContext::GetRoom),
        (Some(_), Some(_)) => Err(
            usage_error(
                UsageContext::GetRoom,
                msg0("Specify either a room URL or --room-id, not both."),
            ),
        ),
        (None, None) => Err(
            usage_error(UsageContext::GetRoom, msg0("Specify either a room URL or --room-id.")),
        ),
    }
}

/// The message that `get message` shows: `--room-id` with `--message-id`, or the chat
/// URL given as an argument or with `--chat-url` (exactly one of these).
pub fn resolve_get_message_ids(args: &GetMessageArgs) -> (r: Result<(u64, u64), CliError>)
    ensures
        args.chat_url is Some && args.chat_url_arg is Some ==> r is Err && is_usage0(
            r->Err_0,
            UsageContext::GetMessage,
            "Specify the message URL either as an argument or with --chat-url, not both."@,
        ),
        !(args.chat_url is Some && args.chat_url_arg is Some) ==> match (
            args.room_id,
            args.message_id,
            chosen_url(args.chat_url, args.chat_url_arg),
        ) {
            (Some(room), Some(message), None) => r == Ok::<(u64, u64), CliError>((room, message)),
            (None, None, Some(url)) => match url_parts_spec(url) {
                Some((room, Some(message))) => r == Ok::<(u64, u64), CliError>((room, message)),
                Some((_, None)) => r is Err && is_no_message_id_error(
                    r->Err_0,
                    UsageContext::GetMessage,
                ),
                None => r is Err && is_bad_url_error(r->Err_0, UsageContext::GetMessage),
            },
            (Some(_), None, None) | (None, Some(_), None) => r is Err && is_usage0(
                r->Err_0,
                UsageContext::GetMessage,
                "Specify both --room-id and --message-id."@,
            ),
            _ => r is Err && is_usage0(
                r->Err_0,
                UsageContext::GetMessage,
                "Specify either a message URL or the pair of --room-id and --message-id."@,
            ),
        },
{
    if args.chat_url.is_some() && args.chat_url_arg.is_some() {
        return Err(
            usage_error(
                UsageContext::GetMessage,
                msg0(
                    "Specify the message URL either as an argument or with --chat-url, not both.",
                ),
            ),
        );
    }
    let chat_url: Option<&String> = match &args.chat_url {
        Some(u) => Some(u),
        None => args.chat_url_arg.as_ref(),
    };
    match (args.room_id, args.message_id, chat_url) {
        (Some(room_id), Some(message_id), None) => Ok((room_id, message_id)),
        (None, None, Some(url)) => parse_chatwork_message_url(url.as_str(), UsageContext::GetMessage),
        (Some(_), None, None) | (None, Some(_), None) => Err(
            usage_error(UsageContext::GetMessage, msg0("Specify both --room-id and --message-id.")),
        ),
        _ => Err(
            usage_error(
                UsageContext::GetMessage,
                msg0("Specify either a message URL or the pair of --room-id and --message-id."),
            ),
        ),
    }
}

/// The `get` subcommand that a chat URL is routed to: `message` for a message URL,
/// `room` for a room URL.
pub open spec fn get_target_spec(token: Seq<char>) -> Option<Seq<char>> {
    match url_parts_spec(token) {
        Some((_, Some(_))) => Some("message"@),
        Some((_, None)) => Some("room"@),
        None => None,
    }
}

/// The `get` subcommand for a chat URL, or `None` when `token` is no chat URL.
pub fn infer_get_target_from_url(token: &str) -> (r: Option<&'static str>)
    ensures
        match r {
            Some(t) => get_target_spec(token@) == Some(t@),
            None => get_target_spec(token@) is None,
        },
{
    match parse_chatwork_url_parts(token) {
        Some((_, Some(_))) => Some("message"),
        Some((_, None)) => Some("room"),
        None => None,
    }
}

/// The chat URL that names `room`, or the message `message` in it, after `prefix` (such as
/// `https://www.chatwork.com/`).
pub open spec fn chat_url_spec(prefix: Seq<char>, room: u64, message: Option<u64>) -> Seq<char> {
    prefix + ROOM_MARKER@ + decimal(room as nat) + match message {
        Some(m) => seq!['-'] + decimal(m as nat),
        None => Seq::empty(),
    }
}

/// Reading a chat URL gives back the room and message it was written with; such a URL is
/// routed to `get message` when it names a message and to `get room` otherwise.
pub proof fn lemma_chat_url_round_trip(prefix: Seq<char>, room: u64, message: Option<u64>)
    requires
        forall|i: int| 0 <= i < prefix.len() ==> prefix[i] != '#',
    ensures
        url_parts_spec(chat_url_spec(prefix, room, message)) == Some((room, message)),
        get_target_spec(chat_url_spec(prefix, room, message)) == Some(
            if message is Some {
                "message"@
            } else {
                "room"@
            },
        ),
{
    let url = chat_url_spec(prefix, room, message);
    let m = ROOM_MARKER@;
    reveal_strlit("#!rid");
    let dr = decimal(room as nat);
    let tail = match message {
        Some(mm) => seq!['-'] + decimal(mm as nat),
        None => Seq::<char>::empty(),
    };
    assert(url =~= prefix + m + (dr + tail));
    assert forall|k: int| 0 <= k < prefix.len() implies !occurs_at(url, m, k) by {
        assert(url[k] == prefix[k]);
        if occurs_at(url, m, k) {
            assert(url.subrange(k, k + m.len())[0] == url[k]);
        }
    }
    assert(url.subrange(prefix.len() as int, (prefix.len() + m.len()) as int) =~= m);
    lemma_find_from_first(url, m, 0, prefix.len() as int);
    let rest = url.skip((prefix.len() + m.len()) as int);
    assert(rest =~= dr + tail);
    lemma_decimal_digits(room as nat);
    assert forall|k: int| 0 <= k < dr.len() implies is_digit(#[trigger] rest[k]) by {
        assert(rest[k] == dr[k]);
    }
    if dr.len() < rest.len() {
        assert(rest[dr.len() as int] == '-');
    }
    lemma_leading_digits(rest, dr.len() as int);
    assert(rest.take(dr.len() as int) =~= dr);
    assert(rest.skip(dr.len() as int) =~= tail);
    lemma_parse_decimal(room as nat, u64::MAX as int);
    if let Some(mm) = message {
        let dm = decimal(mm as nat);
        assert(tail.drop_first() =~= dm);
        lemma_decimal_digits(mm as nat);
        assert forall|k: int| 0 <= k < dm.len() implies is_digit(#[trigger] dm[k]) by {}
        lemma_leading_digits(dm, dm.len() as int);
        assert(dm.take(dm.len() as int) =~= dm);
        lemma_parse_decimal(mm as nat, u64::MAX as int);
    }
}

} // verus!
