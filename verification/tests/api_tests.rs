use chatwork_cli::api::{
    api_endpoint, check_upload_file, check_upload_size, ensure_output_writable, extract_message_id, filter_contacts,
    filter_contacts_by_account_ids, filter_contacts_by_name_query, room_file_path,
    room_files_path, room_message_path, room_messages_path, room_path, ContactResponse,
};
use chatwork_cli::message::CliError;
use chatwork_cli::output::{
    contacts_plain_lines, files_plain_lines, me_plain_lines, status_plain_lines,
    value_plain_lines, FilesEntryAccount, FilesEntryResponse, MeResponse, PlainScalar,
    PlainValue, StatusResponse,
};
use chatwork_cli::strmap::StrMap;

fn error_text(err: &CliError) -> String {
    err.message.text(&StrMap::new())
}

fn contact(account_id: u64, room_id: Option<u64>, name: &str, chatwork_id: &str) -> ContactResponse {
    ContactResponse {
        account_id,
        room_id,
        name: name.to_string(),
        chatwork_id: chatwork_id.to_string(),
        organization_name: None,
        department: None,
        avatar_image_url: None,
    }
}

#[test]
fn extract_message_id_reads_response_json() {
    let message_id = extract_message_id(r#"{"message_id":"12345"}"#).unwrap();
    assert_eq!(message_id, "12345");
}

#[test]
fn extract_message_id_reports_missing_or_unterminated_ids() {
    let err = extract_message_id(r#"{"id":"1"}"#).unwrap_err();
    assert_eq!(err.context, None);
    assert_eq!(error_text(&err), "The response does not contain message_id.");
    let err = extract_message_id(r#"{"message_id":"123"#).unwrap_err();
    assert_eq!(error_text(&err), "Failed to parse message_id from the response.");
    assert_eq!(extract_message_id(r#"{"message_id":""}"#).unwrap(), "");
}

#[test]
fn filter_contacts_by_account_ids_keeps_only_requested_contacts() {
    let contacts = vec![
        contact(10, Some(100), "A", "a"),
        contact(20, Some(200), "B", "b"),
        contact(30, Some(300), "C", "c"),
    ];

    let filtered = filter_contacts_by_account_ids(contacts, &[30, 10]);

    assert_eq!(filtered.len(), 2);
    assert_eq!(filtered[0].account_id, 10);
    assert_eq!(filtered[1].account_id, 30);
}

#[test]
fn filter_contacts_by_name_query_keeps_partial_matches() {
    let contacts = vec![
        contact(10, Some(100), "石川 洋平", "a"),
        contact(20, Some(200), "野口 尭広", "b"),
        contact(30, Some(300), "村石恭一", "c"),
    ];

    let filtered = filter_contacts_by_name_query(contacts, Some("石"));

    assert_eq!(filtered.len(), 2);
    assert_eq!(filtered[0].account_id, 10);
    assert_eq!(filtered[1].account_id, 30);
}

#[test]
fn filter_contacts_combines_both_filters_and_ignores_blank_queries() {
    let make = || {
        vec![
            contact(1, None, "Ishikawa", "a"),
            contact(2, None, "Noguchi", "b"),
            contact(3, None, "Ishida", "c"),
        ]
    };
    let both = filter_contacts(make(), &[2, 3], Some(" Ishi "));
    assert_eq!(both, vec![contact(3, None, "Ishida", "c")]);
    assert_eq!(filter_contacts(make(), &[], Some("   ")), make());
    assert_eq!(filter_contacts(make(), &[], None), make());
    assert_eq!(filter_contacts_by_account_ids(make(), &[]), make());
    let once = filter_contacts(make(), &[1, 3], Some("Ishi"));
    let twice = filter_contacts(
        filter_contacts(make(), &[1, 3], Some("Ishi")),
        &[1, 3],
        Some("Ishi"),
    );
    assert_eq!(once, twice);
}

#[test]
fn endpoints_join_base_and_path_with_one_slash() {
    assert_eq!(
        api_endpoint("https://api.chatwork.com/v2", "/me"),
        "https://api.chatwork.com/v2/me"
    );
    assert_eq!(api_endpoint("https://x/v2//", "//my/status"), "https://x/v2/my/status");
    assert_eq!(api_endpoint("https://x", "contacts"), "https://x/contacts");
    assert_eq!(room_path(12), "/rooms/12");
    assert_eq!(room_message_path(12, 34), "/rooms/12/messages/34");
    assert_eq!(room_files_path(0), "/rooms/0/files");
    assert_eq!(room_file_path(7, 1234567890), "/rooms/7/files/1234567890");
    assert_eq!(room_messages_path("99"), "/rooms/99/messages");
}

#[test]
fn upload_size_and_overwrite_checks() {
    assert_eq!(check_upload_size("a.bin", 5 * 1024 * 1024), Ok(()));
    let err = check_upload_size("a.bin", 5 * 1024 * 1024 + 1).unwrap_err();
    assert_eq!(error_text(&err), "File size exceeds the 5 MB limit: a.bin");
    assert_eq!(ensure_output_writable("out.txt", false, false), Ok(()));
    assert_eq!(ensure_output_writable("out.txt", true, true), Ok(()));
    let err = ensure_output_writable("out.txt", true, false).unwrap_err();
    assert_eq!(
        error_text(&err),
        "Output file already exists. Use --force to overwrite: out.txt"
    );
}

#[test]
fn plain_lines_of_records() {
    let me = MeResponse {
        account_id: 1,
        room_id: Some(2),
        name: "N".to_string(),
        chatwork_id: "cw".to_string(),
        organization_id: None,
        organization_name: Some("Org".to_string()),
        department: None,
        title: None,
        url: None,
        introduction: None,
        mail: Some("m@x".to_string()),
        tel_organization: None,
        tel_extension: None,
        tel_mobile: None,
        skype: None,
        facebook: None,
        twitter: None,
        avatar_image_url: None,
        login_mail: Some("l@x".to_string()),
    };
    assert_eq!(
        me_plain_lines(&me),
        vec![
            "account_id=1",
            "name=N",
            "chatwork_id=cw",
            "room_id=2",
            "organization_name=Org",
            "mail=m@x",
            "login_mail=l@x",
        ]
    );
    let status = StatusResponse {
        unread_room_num: 1,
        mention_room_num: 2,
        mytask_room_num: 3,
        unread_num: 40,
        mention_num: 0,
        mytask_num: 600,
    };
    assert_eq!(
        status_plain_lines(&status),
        vec![
            "unread_room_num=1",
            "mention_room_num=2",
            "mytask_room_num=3",
            "unread_num=40",
            "mention_num=0",
            "mytask_num=600",
        ]
    );
    let mut c = contact(10, None, "A B", "ab");
    c.department = Some("Dev".to_string());
    assert_eq!(
        contacts_plain_lines(&vec![c, contact(11, Some(5), "C", "c")]),
        vec![
            "account_id\tchatwork_id\tname\torganization_name\tdepartment\troom_id",
            "10\tab\tA B\t\tDev\t",
            "11\tc\tC\t\t\t5",
        ]
    );
    let f = FilesEntryResponse {
        file_id: 9,
        account: FilesEntryAccount {
            account_id: 8,
            name: "U".to_string(),
            avatar_image_url: String::new(),
        },
        message_id: "m".to_string(),
        filename: "f.txt".to_string(),
        filesize: 1024,
        upload_time: 1700000000,
    };
    assert_eq!(
        files_plain_lines(&vec![f]),
        vec![
            "file_id\tfilename\tfilesize\tupload_time\taccount_id\taccount_name",
            "9\tf.txt\t1024\t1700000000\t8\tU",
        ]
    );
    assert_eq!(files_plain_lines(&Vec::new()).len(), 1);
}

#[test]
fn plain_lines_of_json_values() {
    let obj = PlainValue::Object(vec![
        ("a".to_string(), PlainScalar::Text("x".to_string())),
        ("b".to_string(), PlainScalar::Null),
        ("c".to_string(), PlainScalar::Bool(true)),
        ("d".to_string(), PlainScalar::Text("12".to_string())),
    ]);
    assert_eq!(value_plain_lines(&obj), vec!["a=x", "c=true", "d=12"]);
    assert_eq!(value_plain_lines(&PlainValue::Scalar(PlainScalar::Null)), vec![""]);
    assert_eq!(value_plain_lines(&PlainValue::Scalar(PlainScalar::Bool(false))), vec!["false"]);
}

#[test]
fn upload_needs_an_existing_file() {
    assert_eq!(check_upload_file("a.bin", true), Ok(()));
    let err = check_upload_file("a.bin", false).unwrap_err();
    assert_eq!(err.context, None);
    assert_eq!(error_text(&err), "File not found: a.bin");
}
