//! Usage texts and the wording of command-line parse errors.
use vstd::prelude::*;
use crate::message::{
    is_msg0, is_msg1, is_msg2, msg0, msg1, msg2, CliError, Message, UsageContext,
};
use crate::text::{chars_of, trim, trim_spec, string_of};

verus! {

/// The usage text shown with an error of command `context`.
pub fn help_text(context: UsageContext) -> (r: &'static str)
    ensures
        context == UsageContext::Root ==> r@ == HELP_ROOT@,
        context == UsageContext::Get ==> r@ == HELP_GET@,
        context == UsageContext::GetRoom ==> r@ == HELP_GET_ROOM@,
        context == UsageContext::GetMessage ==> r@ == HELP_GET_MESSAGE@,
        context == UsageContext::DownloadFile ==> r@ == HELP_DOWNLOAD_FILE@,
        context == UsageContext::GetFiles ==> r@ == HELP_GET_FILES@,
        context == UsageContext::UploadFile ==> r@ == HELP_UPLOAD_FILE@,
        context == UsageContext::Template ==> r@ == HELP_TEMPLATE@,
        context == UsageContext::TemplateShow ==> r@ == HELP_TEMPLATE_SHOW@,
        context == UsageContext::Send ==> r@ == HELP_SEND@,
{
    match context {
        UsageContext::Root => HELP_ROOT,
        UsageContext::Get => HELP_GET,
        UsageContext::GetRoom => HELP_GET_ROOM,
        UsageContext::GetMessage => HELP_GET_MESSAGE,
        UsageContext::DownloadFile => HELP_DOWNLOAD_FILE,
        UsageContext::GetFiles => HELP_GET_FILES,
        UsageContext::UploadFile => HELP_UPLOAD_FILE,
        UsageContext::Template => HELP_TEMPLATE,
        UsageContext::TemplateShow => HELP_TEMPLATE_SHOW,
        UsageContext::Send => HELP_SEND,
    }
}

/// The usage text of `Root`.
pub const HELP_ROOT: &'static str = r#"Usage: chatwork [OPTIONS] <COMMAND>
       chatwork [OPTIONS] <PREFIX_COMMAND>

Commands:
  get         情報を取得する
  download    ファイルをダウンロードする
  upload      ファイルをアップロードする
  template    テンプレートを扱う
  send        テンプレートを送信する
  completion  シェル補完スクリプトを出力する
  help        このメッセージまたは指定したサブコマンドのヘルプを表示する

Options:
      --config <PATH>  設定ファイルのパス
  -h, --help           ヘルプを表示する
  -V, --version        バージョンを表示する"#;

/// The usage text of `Get`.
pub const HELP_GET: &'static str = r#"Usage: chatwork get [OPTIONS] <COMMAND>
       chatwork g [OPTIONS] <COMMAND>
       chatwork get [OPTIONS] [CHAT_URL]
       chatwork g [OPTIONS] [CHAT_URL]
       chatwork get [OPTIONS] --chat-url <URL>
       chatwork g [OPTIONS] --chat-url <URL>

Commands:
  me          自分のアカウント情報を表示する
  status      未読やタスクの件数を表示する
  my-status   未読やタスクの件数を表示する
  contacts    コンタクト一覧を表示する
  room        ルーム情報を表示する
  message     メッセージ情報を表示する
  files       ルーム内のファイル一覧を表示する
  help        このメッセージまたは指定したサブコマンドのヘルプを表示する

Options:
      --format <FORMAT>  出力形式
      --chat-url <URL>  Chatwork URL を指定する
      --config <PATH>  設定ファイルのパス
  -h, --help           ヘルプを表示する

Chatwork URL を get の直後または --chat-url で渡した場合は、#!rid<room_id> なら room、#!rid<room_id>-<message_id> なら message へ自動で振り分けます。--format は URL の前にも指定できます。"#;

/// The usage text of `GetRoom`.
pub const HELP_GET_ROOM: &'static str = r#"Usage: chatwork get room [OPTIONS] [CHAT_URL]
       chatwork g room [OPTIONS] [CHAT_URL]
       chatwork g r [OPTIONS] [CHAT_URL]

Arguments:
  [CHAT_URL]  Chatwork ルーム URL

Options:
      --room-id <ROOM_ID>  ルーム ID
      --chat-url <URL>     Chatwork ルーム URL
      --format <FORMAT>    出力形式
      --config <PATH>      設定ファイルのパス
  -h, --help               ヘルプを表示する"#;

/// The usage text of `GetMessage`.
pub const HELP_GET_MESSAGE: &'static str = r#"Usage: chatwork get message [OPTIONS] [CHAT_URL]
       chatwork g message [OPTIONS] [CHAT_URL]

Arguments:
  [CHAT_URL]  Chatwork メッセージ URL

Options:
      --room-id <ROOM_ID>        ルーム ID
      --message-id <MESSAGE_ID>  メッセージ ID
      --chat-url <URL>           Chatwork メッセージ URL
      --format <FORMAT>          出力形式
      --config <PATH>            設定ファイルのパス
  -h, --help                     ヘルプを表示する"#;

/// The usage text of `DownloadFile`.
pub const HELP_DOWNLOAD_FILE: &'static str = r#"Usage: chatwork download file [OPTIONS] [CHAT_URL]
       chatwork download f [OPTIONS] [CHAT_URL]
       chatwork download [OPTIONS] [CHAT_URL]
       chatwork dl file [OPTIONS] [CHAT_URL]
       chatwork dl f [OPTIONS] [CHAT_URL]
       chatwork dl [OPTIONS] [CHAT_URL]
       chatwork d file [OPTIONS] [CHAT_URL]
       chatwork d f [OPTIONS] [CHAT_URL]
       chatwork d [OPTIONS] [CHAT_URL]

Arguments:
  [CHAT_URL]  Chatwork メッセージ URL

Options:
      --config <PATH>      設定ファイルのパス
      --room-id <ROOM_ID>  ルーム ID
      --file-id <FILE_ID>  ファイル ID
      --chat-url <URL>     Chatwork メッセージ URL
      --output <PATH>      保存先ファイルパス
      --out-dir <DIR>      保存先ディレクトリ
      --force              既存ファイルを上書きする
  -h, --help               ヘルプを表示する"#;

/// The usage text of `GetFiles`.
pub const HELP_GET_FILES: &'static str = r#"Usage: chatwork get files [OPTIONS] --room-id <ROOM_ID>
       chatwork g files [OPTIONS] --room-id <ROOM_ID>

Options:
      --room-id <ROOM_ID>        ルーム ID
      --account-id <ACCOUNT_ID>  アップロードしたアカウント ID でフィルタ
      --format <FORMAT>          出力形式
      --config <PATH>            設定ファイルのパス
  -h, --help                     ヘルプを表示する"#;

/// The usage text of `UploadFile`.
pub const HELP_UPLOAD_FILE: &'static str = r#"Usage: chatwork upload file [OPTIONS] --room-id <ROOM_ID> --file <PATH>
       chatwork upload [OPTIONS] --room-id <ROOM_ID> --file <PATH>
       chatwork u file [OPTIONS] --room-id <ROOM_ID> --file <PATH>
       chatwork u [OPTIONS] --room-id <ROOM_ID> --file <PATH>

Options:
      --config <PATH>      設定ファイルのパス
      --room-id <ROOM_ID>  ルーム ID
      --file <PATH>        アップロードするファイルのパス
  -m, --message <MESSAGE>  添付メッセージ
  -h, --help               ヘルプを表示する"#;

/// The usage text of `Template`.
pub const HELP_TEMPLATE: &'static str = r#"Usage: chatwork template [OPTIONS] <COMMAND>
       chatwork t [OPTIONS] <COMMAND>

Commands:
  list  テンプレート一覧を表示する
  show  テンプレート本文を表示する
  help  このメッセージまたは指定したサブコマンドのヘルプを表示する

Options:
      --config <PATH>  設定ファイルのパス
  -h, --help           ヘルプを表示する"#;

/// The usage text of `TemplateShow`.
pub const HELP_TEMPLATE_SHOW: &'static str = r#"Usage: chatwork template show [OPTIONS] <NAME>
       chatwork t s [OPTIONS] <NAME>

Arguments:
  <NAME>  テンプレート名

Options:
      --config <PATH>    設定ファイルのパス
      --var <KEY=VALUE>  差し込み変数。例: --var name=あい
  -h, --help             ヘルプを表示する"#;

/// The usage text of `Send`.
pub const HELP_SEND: &'static str = r#"Usage: chatwork send [OPTIONS] <NAME>
       chatwork s [OPTIONS] <NAME>
       chatwork send [OPTIONS] --message <MESSAGE>
       chatwork s [OPTIONS] --message <MESSAGE>

Arguments:
  [NAME]  テンプレート名

Options:
      --config <PATH>    設定ファイルのパス
      --room-id <ROOM_ID>  送信先ルーム ID。テンプレート送信時は省略するとテンプレート設定か default_room_id を使う
  -m, --message <MESSAGE>  テンプレートを使わずに送るメッセージ本文
      --var <KEY=VALUE>  差し込み変数。例: --var name=あい
      --self-unread      自分を未読にする
      --dry-run          実際には送らず本文だけ表示する
  -h, --help             ヘルプを表示する"#;


/// The kind of a command-line parse error, as the argument parser reports it.
#[derive(Clone, Copy, PartialEq, Eq, Structural, Debug)]
pub enum ClapErrorKind {
    MissingRequiredArgument,
    DisplayHelpOnMissingArgumentOrSubcommand,
    MissingSubcommand,
    UnknownArgument,
    TooFewValues,
    InvalidValue,
    ValueValidation,
    WrongNumberOfValues,
    NoEquals,
    InvalidSubcommand,
    ArgumentConflict,
    /// Any other kind.
    Other,
}

/// What a parse error reports: its kind, the strings of its context, and its own text.
#[derive(Debug)]
pub struct ClapErrorInfo {
    pub kind: ClapErrorKind,
    /// The argument at fault.
    pub invalid_arg: Option<String>,
    /// The value at fault.
    pub invalid_value: Option<String>,
    /// The argument that conflicts with `invalid_arg`.
    pub prior_arg: Option<String>,
    /// The unknown subcommand.
    pub invalid_subcommand: Option<String>,
    /// The parser's own rendering of the error.
    pub rendered: String,
}

/// The message that `m` is: `id`, with its placeholder `k` set to the value of `v` when
/// `v` is present, else the message `id_none`.
pub open spec fn opt_msg(m: Message, v: Option<String>, id: Seq<char>, k: Seq<char>, id_none: Seq<char>) -> bool {
    match v {
        Some(a) => is_msg1(m, id, k, a@),
        None => is_msg0(m, id_none),
    }
}

/// The localized wording of a parse error for command `context`.
pub open spec fn clap_message_ok(err: ClapErrorInfo, context: UsageContext, m: Message) -> bool {
    match err.kind {
        ClapErrorKind::MissingRequiredArgument => opt_msg(
            m,
            err.invalid_arg,
            "Required argument is missing: {arg}"@,
            "arg"@,
            "Required argument is missing."@,
        ),
        ClapErrorKind::DisplayHelpOnMissingArgumentOrSubcommand | ClapErrorKind::MissingSubcommand => {
            match context {
                UsageContext::Root => is_msg0(m, "A command is required."@),
                UsageContext::Get => is_msg0(m, "A subcommand or URL is required."@),
                _ => is_msg0(m, "A subcommand is required."@),
            }
        },
        ClapErrorKind::UnknownArgument => opt_msg(
            m,
            err.invalid_arg,
            "Unknown argument: {arg}"@,
            "arg"@,
            "Unknown argument."@,
        ),
        ClapErrorKind::TooFewValues => opt_msg(
            m,
            err.invalid_arg,
            "A value is required for {arg}."@,
            "arg"@,
            "A value is required."@,
        ),
        ClapErrorKind::InvalidValue | ClapErrorKind::ValueValidation => {
            match (err.invalid_arg, err.invalid_value) {
                (Some(arg), Some(value)) => if trim_spec(value@).len() == 0 {
                    is_msg1(m, "A value is required for {arg}."@, "arg"@, arg@)
                } else {
                    is_msg2(m, "Invalid value for {arg}: {value}"@, "arg"@, arg@, "value"@, value@)
                },
                (Some(arg), None) => is_msg1(m, "Invalid value for {arg}."@, "arg"@, arg@),
                _ => is_msg0(m, "Invalid value."@),
            }
        },
        ClapErrorKind::WrongNumberOfValues => opt_msg(
            m,
            err.invalid_arg,
            "The number of values is invalid for {arg}."@,
            "arg"@,
            "The number of values is invalid."@,
        ),
        ClapErrorKind::NoEquals => opt_msg(
            m,
            err.invalid_arg,
            "Use = when specifying a value for {arg}."@,
            "arg"@,
            "Use = when specifying the value."@,
        ),
        ClapErrorKind::InvalidSubcommand => opt_msg(
            m,
            err.invalid_subcommand,
            "Unknown subcommand: {subcommand}"@,
            "subcommand"@,
            "Unknown subcommand."@,
        ),
        ClapErrorKind::ArgumentConflict => match (err.invalid_arg, err.prior_arg) {
            (Some(arg), Some(other)) => is_msg2(
                m,
                "Argument {arg} cannot be used together with {other}."@,
                "arg"@,
                arg@,
                "other"@,
                other@,
            ),
            _ => is_msg0(m, "The specified arguments cannot be used together."@),
        },
        ClapErrorKind::Other => m == Message::Verbatim(m->Verbatim_0) && m->Verbatim_0@ == trim_spec(err.rendered@),
    }
}

fn opt_message(
    v: &Option<String>,
    id: &'static str,
    k: &'static str,
    id_none: &'static str,
) -> (m: Message)
    ensures
        opt_msg(m, *v, id@, k@, id_none@),
{
    match v {
        Some(a) => msg1(id, k, a.clone()),
        None => msg0(id_none),
    }
}

/// The localized message for a parse error of command `context`.
pub fn translate_clap_error(err: &ClapErrorInfo, context: UsageContext) -> (m: Message)
    ensures
        clap_message_ok(*err, context, m),
{
    match err.kind {
        ClapErrorKind::MissingRequiredArgument => opt_message(
            &err.invalid_arg,
            "Required argument is missing: {arg}",
            "arg",
            "Required argument is missing.",
        ),
        ClapErrorKind::DisplayHelpOnMissingArgumentOrSubcommand | ClapErrorKind::MissingSubcommand => {
            match context {
                UsageContext::Root => msg0("A command is required."),
                UsageContext::Get => msg0("A subcommand or URL is required."),
                _ => msg0("A subcommand is required."),
            }
        },
        ClapErrorKind::UnknownArgument => opt_message(
            &err.invalid_arg,
            "Unknown argument: {arg}",
            "arg",
            "Unknown argument.",
        ),
        ClapErrorKind::TooFewValues => opt_message(
            &err.invalid_arg,
            "A value is required for {arg}.",
            "arg",
            "A value is required.",
        ),
        ClapErrorKind::InvalidValue | ClapErrorKind::ValueValidation => {
            match (&err.invalid_arg, &err.invalid_value) {
                (Some(arg), Some(value)) => {
                    let vc = chars_of(value.as_str());
                    let t = trim(&vc);
                    if t.len() == 0 {
                        msg1("A value is required for {arg}.", "arg", arg.clone())
                    } else {
                        msg2(
                            "Invalid value for {arg}: {value}",
                            "arg",
                            arg.clone(),
                            "value",
                            value.clone(),
                        )
                    }
                },
                (Some(arg), None) => msg1("Invalid value for {arg}.", "arg", arg.clone()),
                _ => msg0("Invalid value."),
            }
        },
        ClapErrorKind::WrongNumberOfValues => opt_message(
            &err.invalid_arg,
            "The number of values is invalid for {arg}.",
            "arg",
            "The number of values is invalid.",
        ),
        ClapErrorKind::NoEquals => opt_message(
            &err.invalid_arg,
            "Use = when specifying a value for {arg}.",
            "arg",
            "Use = when specifying the value.",
        ),
        ClapErrorKind::InvalidSubcommand => opt_message(
            &err.invalid_subcommand,
            "Unknown subcommand: {subcommand}",
            "subcommand",
            "Unknown subcommand.",
        ),
        ClapErrorKind::ArgumentConflict => match (&err.invalid_arg, &err.prior_arg) {
            (Some(arg), Some(other)) => msg2(
                "Argument {arg} cannot be used together with {other}.",
                "arg",
                arg.clone(),
                "other",
                other.clone(),
            ),
            _ => msg0("The specified arguments cannot be used together."),
        },
        ClapErrorKind::Other => {
            let rc = chars_of(err.rendered.as_str());
            let t = trim(&rc);
            Message::Verbatim(string_of(&t))
        },
    }
}

} // verus!
