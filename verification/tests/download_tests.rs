use chatwork_cli::download::{
    default_download_dir, download_menu_lines, extract_download_tags,
    parse_download_selection_input, resolve_download_files, resolve_download_output_path,
    select_download_tags, validate_download_destination_args, DownloadFileArgs, DownloadSource,
    DownloadTag,
};
use chatwork_cli::i18n::{gettext, gettextf};
use chatwork_cli::message::{CliError, UsageContext};
use chatwork_cli::strmap::StrMap;

fn tag(file_id: u64, label: &str) -> DownloadTag {
    DownloadTag { file_id, label: label.to_string() }
}

fn error_text(err: &CliError) -> String {
    err.message.text(&StrMap::new())
}

fn args(
    room_id: Option<u64>,
    file_id: Option<u64>,
    chat_url: Option<&str>,
    chat_url_arg: Option<&str>,
) -> DownloadFileArgs {
    DownloadFileArgs {
        room_id,
        file_id,
        chat_url: chat_url.map(|s| s.to_string()),
        chat_url_arg: chat_url_arg.map(|s| s.to_string()),
        output: None,
        out_dir: None,
        force: false,
    }
}

#[test]
fn resolve_download_output_path_uses_filename_by_default() {
    let path = resolve_download_output_path("report.txt", None, None, None, None, false);
    assert_eq!(path, "report.txt");
}

#[test]
fn resolve_download_output_path_uses_default_download_dir_from_env() {
    let path = resolve_download_output_path(
        "report.txt",
        None,
        None,
        Some("/tmp/chatwork-cli-home"),
        Some("~/Downloads"),
        false,
    );
    assert_eq!(path, "/tmp/chatwork-cli-home/Downloads/report.txt");
}

#[test]
fn resolve_download_output_path_expands_home() {
    let path = resolve_download_output_path(
        "report.txt",
        Some("~/Downloads/report.txt"),
        None,
        Some("/tmp/chatwork-cli-home"),
        None,
        false,
    );
    assert_eq!(path, "/tmp/chatwork-cli-home/Downloads/report.txt");
}

#[test]
fn resolve_download_output_path_uses_filename_when_output_is_directory() {
    let dir = "/tmp/chatwork-cli-resolve_download_output_path_uses_filename_when_output_is_directory";
    let path = resolve_download_output_path("report.txt", Some(dir), None, None, None, true);
    assert_eq!(path, format!("{dir}/report.txt"));
}

#[test]
fn resolve_download_output_path_uses_out_dir() {
    let path =
        resolve_download_output_path("report.txt", None, Some("/tmp/downloads"), None, None, false);
    assert_eq!(path, "/tmp/downloads/report.txt");
}

#[test]
fn resolve_download_output_path_prefers_output_then_out_dir_then_default() {
    let home = Some("/home/u");
    assert_eq!(
        resolve_download_output_path("a.txt", Some("b.txt"), Some("/d"), home, Some("/e"), false),
        "b.txt"
    );
    assert_eq!(
        resolve_download_output_path("a.txt", None, Some("/d/"), home, Some("/e"), false),
        "/d/a.txt"
    );
    assert_eq!(resolve_download_output_path("a.txt", None, None, home, Some("/e"), false), "/e/a.txt");
    assert_eq!(resolve_download_output_path("a.txt", None, None, home, Some(""), false), "a.txt");
    assert_eq!(resolve_download_output_path("/abs/a.txt", None, Some("/d"), home, None, false), "/abs/a.txt");
}

#[test]
fn default_download_dir_ignores_empty_value() {
    assert_eq!(default_download_dir(Some(""), Some("/h")), None);
    assert_eq!(default_download_dir(None, Some("/h")), None);
    assert_eq!(default_download_dir(Some("~"), Some("/h")), Some("/h".to_string()));
    assert_eq!(default_download_dir(Some("~/x"), None), Some("~/x".to_string()));
}

#[test]
fn resolve_download_files_rejects_both_chat_url_forms() {
    let err = resolve_download_files(&args(
        None,
        None,
        Some("https://www.chatwork.com/#!rid1-2"),
        Some("https://www.chatwork.com/#!rid1-2"),
    ))
    .unwrap_err();
    assert_eq!(
        error_text(&err),
        gettext(
            &StrMap::new(),
            "Specify the chat URL either as an argument or with --chat-url, not both."
        )
    );
}

#[test]
fn resolve_download_files_rejects_chat_url_with_room_and_file_ids() {
    let err = resolve_download_files(&args(
        Some(123),
        Some(456),
        None,
        Some("https://www.chatwork.com/#!rid1-2"),
    ))
    .unwrap_err();
    assert_eq!(
        error_text(&err),
        gettext(&StrMap::new(), "Specify either --chat-url or the pair of --room-id and --file-id.")
    );
}

#[test]
fn resolve_download_files_names_the_source() {
    assert_eq!(
        resolve_download_files(&args(Some(1), Some(2), None, None)).unwrap(),
        DownloadSource::File { room_id: 1, file_id: 2 }
    );
    assert_eq!(
        resolve_download_files(&args(None, None, Some("https://www.chatwork.com/#!rid5-6"), None))
            .unwrap(),
        DownloadSource::Message { room_id: 5, message_id: 6 }
    );
    let err = resolve_download_files(&args(Some(1), None, None, None)).unwrap_err();
    assert_eq!(err.context, Some(UsageContext::DownloadFile));
    assert_eq!(error_text(&err), "Specify both --room-id and --file-id.");
    let err = resolve_download_files(&args(None, None, None, None)).unwrap_err();
    assert_eq!(
        error_text(&err),
        "Specify either --chat-url or the pair of --room-id and --file-id."
    );
    let err =
        resolve_download_files(&args(None, None, None, Some("https://www.chatwork.com/#!rid5")))
            .unwrap_err();
    assert_eq!(error_text(&err), "Failed to parse message_id from chat URL.");
}

#[test]
fn extract_download_tags_reads_single_tag() {
    let tags =
        extract_download_tags("[info][download:1234567890]file.zip (1 KB)[/download][/info]").unwrap();
    assert_eq!(tags, vec![tag(1234567890, "file.zip (1 KB)")]);
}

#[test]
fn extract_download_tags_reads_multiple_tags() {
    let tags = extract_download_tags("[download:1]a.zip[/download]\n[download:2]b.zip[/download]")
        .unwrap();
    assert_eq!(tags, vec![tag(1, "a.zip"), tag(2, "b.zip")]);
}

#[test]
fn extract_download_tags_reports_each_problem() {
    let catalog = StrMap::new();
    let err = extract_download_tags("no tags here").unwrap_err();
    assert_eq!(err.context, Some(UsageContext::DownloadFile));
    assert_eq!(error_text(&err), "The message does not contain a download tag.");
    let err = extract_download_tags("[download:12").unwrap_err();
    assert_eq!(error_text(&err), "Missing closing `]` for download tag.");
    let err = extract_download_tags("[download: x1 ]a[/download]").unwrap_err();
    assert_eq!(
        error_text(&err),
        gettextf(&catalog, "Failed to parse file_id from download tag: {tag}", &[("tag", "x1")])
    );
    let err = extract_download_tags("[download:1]a.zip").unwrap_err();
    assert_eq!(error_text(&err), "Missing closing `[/download]` for download tag.");
    let tags = extract_download_tags("[download: 7 ]  spaced  [/download]").unwrap();
    assert_eq!(tags, vec![tag(7, "spaced")]);
}

#[test]
fn select_download_tags_takes_a_single_tag() {
    let one = vec![tag(1, "a.zip")];
    assert_eq!(select_download_tags(&one), Some(one.clone()));
    let two = vec![tag(1, "a.zip"), tag(2, "b.zip")];
    assert_eq!(select_download_tags(&two), None);
}

#[test]
fn download_menu_lines_number_the_tags() {
    let tags = vec![tag(10, "a.zip"), tag(20, "b.zip")];
    assert_eq!(
        download_menu_lines(&tags),
        vec!["1. a.zip (file_id=10)".to_string(), "2. b.zip (file_id=20)".to_string()]
    );
}

#[test]
fn parse_download_selection_input_uses_all_for_empty_input() {
    let tags = vec![tag(1, "a.zip"), tag(2, "b.zip")];
    assert_eq!(parse_download_selection_input("", &tags), Some(tags));
}

#[test]
fn parse_download_selection_input_reads_single_number() {
    let tags = vec![tag(1, "a.zip"), tag(2, "b.zip")];
    assert_eq!(parse_download_selection_input("2", &tags), Some(vec![tags[1].clone()]));
}

#[test]
fn parse_download_selection_input_reads_ranges_and_lists() {
    let tags = vec![tag(1, "a.zip"), tag(2, "b.zip"), tag(3, "c.zip"), tag(4, "d.zip")];
    assert_eq!(
        parse_download_selection_input("1,3-4", &tags),
        Some(vec![tags[0].clone(), tags[2].clone(), tags[3].clone()]),
    );
    assert_eq!(
        parse_download_selection_input("2-3", &tags),
        Some(vec![tags[1].clone(), tags[2].clone()]),
    );
}

#[test]
fn parse_download_selection_input_deduplicates_indices() {
    let tags = vec![tag(1, "a.zip"), tag(2, "b.zip"), tag(3, "c.zip")];
    assert_eq!(
        parse_download_selection_input("1,1-2,2", &tags),
        Some(vec![tags[0].clone(), tags[1].clone()]),
    );
}

#[test]
fn parse_download_selection_input_rejects_invalid_ranges() {
    let tags = vec![tag(1, "a.zip"), tag(2, "b.zip")];
    assert_eq!(parse_download_selection_input("0", &tags), None);
    assert_eq!(parse_download_selection_input("3", &tags), None);
    assert_eq!(parse_download_selection_input("2-1", &tags), None);
    assert_eq!(parse_download_selection_input("1,", &tags), None);
    assert_eq!(parse_download_selection_input("1-a", &tags), None);
}

#[test]
fn parse_download_selection_input_accepts_all_in_any_case_and_spaces() {
    let tags = vec![tag(1, "a.zip"), tag(2, "b.zip"), tag(3, "c.zip")];
    assert_eq!(parse_download_selection_input("A", &tags), Some(tags.clone()));
    assert_eq!(parse_download_selection_input("aLL", &tags), Some(tags.clone()));
    assert_eq!(
        parse_download_selection_input(" 3 , 1 - 2 ", &tags),
        Some(vec![tags[2].clone(), tags[0].clone(), tags[1].clone()]),
    );
    assert_eq!(parse_download_selection_input("x", &tags), None);
    assert_eq!(parse_download_selection_input("1-", &tags), None);
}

#[test]
fn validate_download_destination_args_rejects_both_output_and_out_dir() {
    let err =
        validate_download_destination_args(Some("/tmp/report.txt"), Some("/tmp/downloads"), 1, false)
            .unwrap_err();
    assert_eq!(
        error_text(&err),
        gettext(&StrMap::new(), "Specify either --output or --out-dir, not both.")
    );
}

#[test]
fn validate_download_destination_args_rejects_single_output_path_for_multiple_files() {
    let err = validate_download_destination_args(Some("/tmp/report.txt"), None, 2, false).unwrap_err();
    assert_eq!(
        error_text(&err),
        gettext(
            &StrMap::new(),
            "Downloading multiple files requires --out-dir, an existing directory passed to --output, or no output path."
        ),
    );
}

#[test]
fn validate_download_destination_args_accepts_directories_and_single_files() {
    assert_eq!(validate_download_destination_args(Some("/tmp"), None, 3, true), Ok(()));
    assert_eq!(validate_download_destination_args(Some("/tmp/a"), None, 1, false), Ok(()));
    assert_eq!(validate_download_destination_args(None, Some("/tmp"), 5, false), Ok(()));
    assert_eq!(validate_download_destination_args(None, None, 5, false), Ok(()));
}
