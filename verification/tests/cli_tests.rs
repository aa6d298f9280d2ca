use chatwork_cli::chat_url::{
    infer_get_target_from_url, parse_chatwork_message_url, parse_chatwork_room_url,
    parse_chatwork_url_parts, resolve_get_message_ids, resolve_get_room_id, GetFormat,
    GetMessageArgs, GetOutputArgs, GetRoomArgs,
};
use chatwork_cli::cli_args::{
    infer_usage_context, long_option_takes_value, next_command_context, normalize_cli_args,
    resolve_special_subcommand_alias, resolve_subcommand_prefix, CliArg, CommandContext,
    NormalizedArg,
};
use chatwork_cli::i18n::{gettext, gettextf};
use chatwork_cli::message::{CliError, UsageContext};
use chatwork_cli::strmap::StrMap;
use chatwork_cli::usage::{help_text, translate_clap_error, ClapErrorInfo, ClapErrorKind};

fn normalize(words: &[&str]) -> Result<Vec<String>, CliError> {
    let args: Vec<CliArg> = words.iter().map(|w| CliArg::Text(w.to_string())).collect();
    let out = normalize_cli_args(&args)?;
    Ok(out
        .into_iter()
        .map(|a| match a {
            NormalizedArg::Given(i) => words[i].to_string(),
            NormalizedArg::Expanded(_, s) => s,
            NormalizedArg::Inserted(s) => s,
        })
        .collect())
}

fn text_args(words: &[&str]) -> Vec<CliArg> {
    words.iter().map(|w| CliArg::Text(w.to_string())).collect()
}

fn chars(s: &str) -> Vec<char> {
    s.chars().collect()
}

fn error_text(err: &CliError) -> String {
    err.message.text(&StrMap::new())
}

#[test]
fn normalize_cli_args_expands_unique_subcommand_prefixes() {
    let args = normalize(&["chatwork", "d", "f", "--chat-url", "https://www.chatwork.com/#!rid1-2"])
        .unwrap();
    assert_eq!(
        args,
        vec!["chatwork", "download", "file", "--chat-url", "https://www.chatwork.com/#!rid1-2"]
    );
}

#[test]
fn normalize_cli_args_routes_get_room_url_to_room_subcommand() {
    let args = normalize(&["chatwork", "get", "https://www.chatwork.com/#!rid12345678"]).unwrap();
    assert_eq!(
        args,
        vec!["chatwork", "get", "room", "https://www.chatwork.com/#!rid12345678"]
    );
}

#[test]
fn normalize_cli_args_routes_get_message_url_to_message_subcommand_after_format_option() {
    let args = normalize(&[
        "chatwork",
        "get",
        "--format=json-minify",
        "https://www.chatwork.com/#!rid12345678-1234567890123456789",
    ])
    .unwrap();
    assert_eq!(
        args,
        vec![
            "chatwork",
            "get",
            "message",
            "--format=json-minify",
            "https://www.chatwork.com/#!rid12345678-1234567890123456789",
        ]
    );
}

#[test]
fn normalize_cli_args_routes_get_message_url_to_message_subcommand_after_chat_url_option() {
    let args = normalize(&[
        "chatwork",
        "get",
        "--format=json-minify",
        "--chat-url",
        "https://www.chatwork.com/#!rid12345678-1234567890123456789",
    ])
    .unwrap();
    assert_eq!(
        args,
        vec![
            "chatwork",
            "get",
            "message",
            "--format=json-minify",
            "--chat-url",
            "https://www.chatwork.com/#!rid12345678-1234567890123456789",
        ]
    );
}

#[test]
fn normalize_cli_args_routes_get_message_url_to_message_subcommand() {
    let args = normalize(&[
        "chatwork",
        "get",
        "https://www.chatwork.com/#!rid12345678-1234567890123456789",
    ])
    .unwrap();
    assert_eq!(
        args,
        vec![
            "chatwork",
            "get",
            "message",
            "https://www.chatwork.com/#!rid12345678-1234567890123456789",
        ]
    );
}

#[test]
fn normalize_cli_args_expands_special_download_alias() {
    let args = normalize(&["chatwork", "dl", "f"]).unwrap();
    assert_eq!(args, vec!["chatwork", "download", "file"]);
}

#[test]
fn normalize_cli_args_inserts_default_download_file_subcommand() {
    let args = normalize(&["chatwork", "download", "--chat-url", "https://www.chatwork.com/#!rid1-2"])
        .unwrap();
    assert_eq!(
        args,
        vec!["chatwork", "download", "file", "--chat-url", "https://www.chatwork.com/#!rid1-2"]
    );
}

#[test]
fn normalize_cli_args_inserts_default_download_file_subcommand_for_dl_alias() {
    let args = normalize(&["chatwork", "dl", "https://www.chatwork.com/#!rid1-2"]).unwrap();
    assert_eq!(
        args,
        vec!["chatwork", "download", "file", "https://www.chatwork.com/#!rid1-2"]
    );
}

#[test]
fn normalize_cli_args_expands_nested_subcommand_prefix_after_global_option() {
    let args = normalize(&["chatwork", "--config", "config.toml", "g", "s"]).unwrap();
    assert_eq!(
        args,
        vec!["chatwork", "--config", "config.toml", "get", "status"]
    );
}

#[test]
fn normalize_cli_args_rejects_ambiguous_subcommand_prefix() {
    let err = normalize(&["chatwork", "g", "m"]).unwrap_err();
    let catalog = StrMap::new();
    assert_eq!(err.context, Some(UsageContext::Root));
    assert_eq!(
        error_text(&err),
        gettextf(
            &catalog,
            "Ambiguous subcommand prefix `{prefix}`: {matches}",
            &[("prefix", "m"), ("matches", "me, my-status, message")],
        )
    );
    assert_eq!(
        error_text(&err),
        "Ambiguous subcommand prefix `m`: me, my-status, message"
    );
}

#[test]
fn normalize_cli_args_inserts_default_upload_file_subcommand() {
    let args = normalize(&["chatwork", "upload", "--room-id", "123", "--file", "report.pdf"]).unwrap();
    assert_eq!(
        args,
        vec!["chatwork", "upload", "file", "--room-id", "123", "--file", "report.pdf"]
    );
}

#[test]
fn normalize_cli_args_expands_upload_prefix() {
    let args = normalize(&["chatwork", "u", "--room-id", "123", "--file", "report.pdf"]).unwrap();
    assert_eq!(args[1], "upload");
    assert_eq!(args[2], "file");
}

#[test]
fn normalize_cli_args_expands_get_files_prefix() {
    let args = normalize(&["chatwork", "g", "fi", "--room-id", "123"]).unwrap();
    assert_eq!(args[1], "get");
    assert_eq!(args[2], "files");
}

#[test]
fn normalize_cli_args_keeps_option_values_and_words_after_double_dash() {
    let args = normalize(&["chatwork", "send", "--message", "g", "--", "d"]).unwrap();
    assert_eq!(args, vec!["chatwork", "send", "--message", "g", "--", "d"]);
}

#[test]
fn normalize_cli_args_passes_non_text_arguments_through() {
    let args = vec![
        CliArg::Text("chatwork".to_string()),
        CliArg::Text("dl".to_string()),
        CliArg::Opaque,
    ];
    let out = normalize_cli_args(&args).unwrap();
    assert_eq!(
        out,
        vec![
            NormalizedArg::Given(0),
            NormalizedArg::Expanded(1, "download".to_string()),
            NormalizedArg::Inserted("file".to_string()),
            NormalizedArg::Given(2),
        ]
    );
}

#[test]
fn normalize_cli_args_leaves_program_name_alone() {
    assert_eq!(normalize(&["chatwork"]).unwrap(), vec!["chatwork"]);
    assert_eq!(normalize(&[]).unwrap(), Vec::<String>::new());
}

#[test]
fn resolve_subcommand_prefix_reports_each_outcome() {
    assert_eq!(
        resolve_subcommand_prefix(CommandContext::Root, &chars("te")).unwrap(),
        Some("template".to_string())
    );
    assert_eq!(
        resolve_subcommand_prefix(CommandContext::Root, &chars("send")).unwrap(),
        Some("send".to_string())
    );
    assert_eq!(resolve_subcommand_prefix(CommandContext::Root, &chars("x")).unwrap(), None);
    assert_eq!(resolve_subcommand_prefix(CommandContext::Leaf, &chars("s")).unwrap(), None);
    let err = resolve_subcommand_prefix(CommandContext::Root, &chars("")).unwrap_err();
    assert_eq!(err.context, Some(UsageContext::Root));
}

#[test]
fn special_alias_and_context_steps() {
    assert_eq!(resolve_special_subcommand_alias(CommandContext::Root, "dl"), Some("download"));
    assert_eq!(resolve_special_subcommand_alias(CommandContext::Get, "dl"), None);
    assert_eq!(next_command_context(CommandContext::Root, &chars("get")), CommandContext::Get);
    assert_eq!(next_command_context(CommandContext::Get, &chars("me")), CommandContext::Leaf);
    assert!(long_option_takes_value(&chars("chat-url")));
    assert!(!long_option_takes_value(&chars("force")));
}

#[test]
fn infer_usage_context_detects_send_prefix_command() {
    let args = text_args(&["chatwork", "send"]);
    assert_eq!(infer_usage_context(&args), UsageContext::Send);
}

#[test]
fn infer_usage_context_follows_nested_commands() {
    assert_eq!(
        infer_usage_context(&text_args(&["chatwork", "download", "file", "--x"])),
        UsageContext::DownloadFile
    );
    assert_eq!(infer_usage_context(&text_args(&["chatwork", "d", "f"])), UsageContext::Root);
    assert_eq!(infer_usage_context(&text_args(&["chatwork", "get", "room"])), UsageContext::GetRoom);
    assert_eq!(infer_usage_context(&text_args(&["chatwork"])), UsageContext::Root);
}

#[test]
fn help_text_for_download_file_includes_prefix_shortcuts() {
    let text = help_text(UsageContext::DownloadFile);
    assert!(text.contains("chatwork download file [OPTIONS] [CHAT_URL]"));
    assert!(text.contains("chatwork download f [OPTIONS] [CHAT_URL]"));
    assert!(text.contains("chatwork download [OPTIONS] [CHAT_URL]"));
    assert!(text.contains("chatwork dl file [OPTIONS] [CHAT_URL]"));
    assert!(text.contains("chatwork dl f [OPTIONS] [CHAT_URL]"));
    assert!(text.contains("chatwork dl [OPTIONS] [CHAT_URL]"));
    assert!(text.contains("chatwork d file [OPTIONS] [CHAT_URL]"));
    assert!(text.contains("chatwork d f [OPTIONS] [CHAT_URL]"));
    assert!(text.contains("chatwork d [OPTIONS] [CHAT_URL]"));
}

#[test]
fn help_text_for_send_includes_prefix_shortcut() {
    let text = help_text(UsageContext::Send);
    assert!(text.contains("chatwork send [OPTIONS] <NAME>"));
    assert!(text.contains("chatwork s [OPTIONS] <NAME>"));
    assert!(text.contains("chatwork send [OPTIONS] --message <MESSAGE>"));
    assert!(text.contains("chatwork s [OPTIONS] --message <MESSAGE>"));
    assert!(text.contains("ヘルプを表示する"));
}

fn clap_error(kind: ClapErrorKind, arg: Option<&str>, value: Option<&str>) -> ClapErrorInfo {
    ClapErrorInfo {
        kind,
        invalid_arg: arg.map(|s| s.to_string()),
        invalid_value: value.map(|s| s.to_string()),
        prior_arg: None,
        invalid_subcommand: None,
        rendered: String::new(),
    }
}

#[test]
fn translate_clap_error_localizes_missing_required_argument() {
    let catalog = StrMap::new();
    let err = clap_error(ClapErrorKind::MissingRequiredArgument, Some("<NAME>"), None);
    assert_eq!(
        translate_clap_error(&err, UsageContext::TemplateShow).text(&catalog),
        gettextf(&catalog, "Required argument is missing: {arg}", &[("arg", "<NAME>")])
    );
}

#[test]
fn translate_clap_error_localizes_missing_option_value() {
    let catalog = StrMap::new();
    let err = clap_error(ClapErrorKind::InvalidValue, Some("--config <PATH>"), Some(""));
    assert_eq!(
        translate_clap_error(&err, UsageContext::Root).text(&catalog),
        gettextf(&catalog, "A value is required for {arg}.", &[("arg", "--config <PATH>")])
    );
}

#[test]
fn translate_clap_error_localizes_invalid_option_value() {
    let catalog = StrMap::new();
    let err = clap_error(ClapErrorKind::ValueValidation, Some("--room-id <ROOM_ID>"), Some("abc"));
    assert_eq!(
        translate_clap_error(&err, UsageContext::DownloadFile).text(&catalog),
        gettextf(
            &catalog,
            "Invalid value for {arg}: {value}",
            &[("arg", "--room-id <ROOM_ID>"), ("value", "abc")]
        )
    );
}

#[test]
fn translate_clap_error_localizes_missing_get_subcommand_or_url() {
    let catalog = StrMap::new();
    let err = clap_error(ClapErrorKind::DisplayHelpOnMissingArgumentOrSubcommand, None, None);
    assert_eq!(
        translate_clap_error(&err, UsageContext::Get).text(&catalog),
        gettext(&catalog, "A subcommand or URL is required.")
    );
}

#[test]
fn translate_clap_error_covers_conflicts_and_other_kinds() {
    let catalog = StrMap::new();
    let mut err = clap_error(ClapErrorKind::ArgumentConflict, Some("--a"), None);
    err.prior_arg = Some("--b".to_string());
    assert_eq!(
        translate_clap_error(&err, UsageContext::Root).text(&catalog),
        "Argument --a cannot be used together with --b."
    );
    let mut other = clap_error(ClapErrorKind::Other, None, None);
    other.rendered = "  error: something\n".to_string();
    assert_eq!(translate_clap_error(&other, UsageContext::Root).text(&catalog), "error: something");
    let missing = clap_error(ClapErrorKind::MissingSubcommand, None, None);
    assert_eq!(
        translate_clap_error(&missing, UsageContext::Root).text(&catalog),
        "A command is required."
    );
}

#[test]
fn parse_chatwork_message_url_reads_room_and_message_ids() {
    let (room_id, message_id) = parse_chatwork_message_url(
        "https://www.chatwork.com/#!rid12345678-1234567890123456789",
        UsageContext::GetMessage,
    )
    .unwrap();
    assert_eq!(room_id, 12345678);
    assert_eq!(message_id, 1234567890123456789);
}

#[test]
fn parse_chatwork_room_url_reads_room_id() {
    let room_id =
        parse_chatwork_room_url("https://www.chatwork.com/#!rid12345678", UsageContext::GetRoom)
            .unwrap();
    assert_eq!(room_id, 12345678);
}

#[test]
fn parse_chatwork_url_errors_name_the_command() {
    let catalog = StrMap::new();
    let err = parse_chatwork_room_url("https://www.chatwork.com/", UsageContext::GetRoom).unwrap_err();
    assert_eq!(err.context, Some(UsageContext::GetRoom));
    assert_eq!(
        err.message.text(&catalog),
        "The URL must contain `#!rid<room_id>` or `#!rid<room_id>-<message_id>`."
    );
    let err = parse_chatwork_message_url("https://www.chatwork.com/#!rid5", UsageContext::GetMessage)
        .unwrap_err();
    assert_eq!(err.message.text(&catalog), "Failed to parse message_id from chat URL.");
}

#[test]
fn parse_chatwork_url_parts_edge_cases() {
    assert_eq!(parse_chatwork_url_parts("#!rid12abc"), Some((12, None)));
    assert_eq!(parse_chatwork_url_parts("#!rid12-"), None);
    assert_eq!(parse_chatwork_url_parts("#!rid99999999999999999999"), None);
    assert_eq!(parse_chatwork_url_parts("x#!rid7-8y"), Some((7, Some(8))));
    assert_eq!(infer_get_target_from_url("#!rid7-8"), Some("message"));
    assert_eq!(infer_get_target_from_url("#!rid7"), Some("room"));
    assert_eq!(infer_get_target_from_url("room"), None);
}

#[test]
fn resolve_get_room_id_accepts_exactly_one_source() {
    let catalog = StrMap::new();
    let args = GetRoomArgs {
        output: GetOutputArgs { format: GetFormat::Json },
        room_id: None,
        chat_url: None,
        chat_url_arg: Some("https://www.chatwork.com/#!rid42".to_string()),
    };
    assert_eq!(resolve_get_room_id(&args).unwrap(), 42);
    let both = GetRoomArgs {
        output: GetOutputArgs { format: GetFormat::Plain },
        room_id: Some(1),
        chat_url: Some("https://www.chatwork.com/#!rid42".to_string()),
        chat_url_arg: None,
    };
    assert_eq!(
        error_text(&resolve_get_room_id(&both).unwrap_err()),
        gettext(&catalog, "Specify either a room URL or --room-id, not both.")
    );
    let none = GetRoomArgs {
        output: GetOutputArgs { format: GetFormat::Plain },
        room_id: None,
        chat_url: None,
        chat_url_arg: None,
    };
    assert_eq!(
        error_text(&resolve_get_room_id(&none).unwrap_err()),
        "Specify either a room URL or --room-id."
    );
}

#[test]
fn resolve_get_message_ids_accepts_exactly_one_source() {
    let args = GetMessageArgs {
        output: GetOutputArgs { format: GetFormat::Json },
        room_id: Some(3),
        message_id: Some(4),
        chat_url: None,
        chat_url_arg: None,
    };
    assert_eq!(resolve_get_message_ids(&args).unwrap(), (3, 4));
    let half = GetMessageArgs {
        output: GetOutputArgs { format: GetFormat::Json },
        room_id: Some(3),
        message_id: None,
        chat_url: None,
        chat_url_arg: None,
    };
    assert_eq!(
        error_text(&resolve_get_message_ids(&half).unwrap_err()),
        "Specify both --room-id and --message-id."
    );
    let url = GetMessageArgs {
        output: GetOutputArgs { format: GetFormat::Json },
        room_id: None,
        message_id: None,
        chat_url: Some("https://www.chatwork.com/#!rid3-4".to_string()),
        chat_url_arg: None,
    };
    assert_eq!(resolve_get_message_ids(&url).unwrap(), (3, 4));
}

#[test]
fn chat_urls_read_back_the_ids_they_were_written_with() {
    let room = u64::MAX;
    let url = format!("https://www.chatwork.com/#!rid{room}-{}", 0u64);
    assert_eq!(parse_chatwork_url_parts(&url), Some((room, Some(0))));
    assert_eq!(infer_get_target_from_url(&url), Some("message"));
    let url = format!("https://www.chatwork.com/#!rid{}", 1234567u64);
    assert_eq!(parse_chatwork_url_parts(&url), Some((1234567, None)));
    assert_eq!(infer_get_target_from_url(&url), Some("room"));
}

#[test]
fn get_room_and_message_reject_both_url_forms() {
    let url = Some("https://www.chatwork.com/#!rid1-2".to_string());
    let room = GetRoomArgs {
        output: GetOutputArgs { format: GetFormat::Json },
        room_id: None,
        chat_url: url.clone(),
        chat_url_arg: url.clone(),
    };
    let err = resolve_get_room_id(&room).unwrap_err();
    assert_eq!(err.context, Some(UsageContext::GetRoom));
    assert_eq!(
        error_text(&err),
        "Specify the room URL either as an argument or with --chat-url, not both."
    );
    let message = GetMessageArgs {
        output: GetOutputArgs { format: GetFormat::Json },
        room_id: None,
        message_id: None,
        chat_url: url.clone(),
        chat_url_arg: url.clone(),
    };
    assert_eq!(
        error_text(&resolve_get_message_ids(&message).unwrap_err()),
        "Specify the message URL either as an argument or with --chat-url, not both."
    );
    let mixed = GetMessageArgs {
        output: GetOutputArgs { format: GetFormat::Json },
        room_id: Some(1),
        message_id: Some(2),
        chat_url: None,
        chat_url_arg: url,
    };
    assert_eq!(
        error_text(&resolve_get_message_ids(&mixed).unwrap_err()),
        "Specify either a message URL or the pair of --room-id and --message-id."
    );
}

#[test]
fn translate_clap_error_words_each_kind() {
    let catalog = StrMap::new();
    let cases = [
        (ClapErrorKind::UnknownArgument, Some("--x"), "Unknown argument: --x"),
        (ClapErrorKind::UnknownArgument, None, "Unknown argument."),
        (ClapErrorKind::TooFewValues, Some("--v"), "A value is required for --v."),
        (ClapErrorKind::WrongNumberOfValues, None, "The number of values is invalid."),
        (ClapErrorKind::NoEquals, Some("--f"), "Use = when specifying a value for --f."),
        (ClapErrorKind::MissingRequiredArgument, None, "Required argument is missing."),
        (ClapErrorKind::InvalidValue, None, "Invalid value."),
        (ClapErrorKind::ValueValidation, Some("--n"), "Invalid value for --n."),
        (ClapErrorKind::ArgumentConflict, Some("--a"), "The specified arguments cannot be used together."),
    ];
    for (kind, arg, expected) in cases {
        let err = clap_error(kind, arg, None);
        assert_eq!(translate_clap_error(&err, UsageContext::Send).text(&catalog), expected);
    }
    let mut sub = clap_error(ClapErrorKind::InvalidSubcommand, None, None);
    assert_eq!(translate_clap_error(&sub, UsageContext::Root).text(&catalog), "Unknown subcommand.");
    sub.invalid_subcommand = Some("nope".to_string());
    assert_eq!(
        translate_clap_error(&sub, UsageContext::Root).text(&catalog),
        "Unknown subcommand: nope"
    );
    let missing = clap_error(ClapErrorKind::MissingSubcommand, None, None);
    assert_eq!(
        translate_clap_error(&missing, UsageContext::Template).text(&catalog),
        "A subcommand is required."
    );
}

#[test]
fn normalizing_a_normalized_command_line_changes_nothing() {
    let lines: [&[&str]; 6] = [
        &["chatwork", "d", "--chat-url", "https://www.chatwork.com/#!rid1-2"],
        &["chatwork", "g", "--format=plain", "https://www.chatwork.com/#!rid12345678"],
        &["chatwork", "get", "zzz", "--chat-url=https://www.chatwork.com/#!rid1-2"],
        &["chatwork", "u", "--room-id", "1"],
        &["chatwork", "te", "sh", "x", "--", "d"],
        &["chatwork", "--config", "c.toml", "g", "s"],
    ];
    for words in lines {
        let once = normalize(words).unwrap();
        assert!(once.len() <= words.len() + 1);
        let refs: Vec<&str> = once.iter().map(|s| s.as_str()).collect();
        let twice = normalize(&refs).unwrap();
        assert_eq!(twice, once);
    }
}
