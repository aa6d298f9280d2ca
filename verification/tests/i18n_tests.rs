use chatwork_cli::i18n::{
    gettext, gettextf, load_catalog, normalize_locale, parse_po_catalog, parse_po_string,
    selected_locale,
};
use chatwork_cli::message::{msg0, msg1, msg2, usage_error, Message, UsageContext};
use chatwork_cli::shell_completion::{script, ShellScript};
use chatwork_cli::strmap::StrMap;

#[test]
fn parse_po_catalog_reads_translations() {
    let catalog = parse_po_catalog(
        r#"
msgid ""
msgstr ""
"Language: ja\n"

msgid "Hello."
msgstr "こんにちは。"

msgid "Line 1\n"
"Line 2"
msgstr "1 行目\n"
"2 行目"
"#,
    );

    assert_eq!(catalog.get_str("Hello."), Some("こんにちは。".to_string()));
    assert_eq!(catalog.get_str("Line 1\nLine 2"), Some("1 行目\n2 行目".to_string()));
}

#[test]
fn parse_po_catalog_skips_comments_and_untranslated_entries() {
    let catalog = parse_po_catalog(
        "# comment\nmsgid \"A\"\nmsgstr \"\"\n\nmsgid \"B\"\n#, fuzzy\nmsgstr \"b\"\nmsgid \"C\"\nmsgstr \"c1\"\nmsgstr \"c2\"\n",
    );
    assert_eq!(catalog.get_str("A"), None);
    assert_eq!(catalog.get_str("B"), Some("b".to_string()));
    assert_eq!(catalog.get_str("C"), Some("c2".to_string()));
    assert_eq!(catalog.get_str(""), None);
}

#[test]
fn parse_po_string_unescapes() {
    assert_eq!(parse_po_string(r#""a\tb\"c\\d\n""#), "a\tb\"c\\d\n");
    assert_eq!(parse_po_string(r#""\q""#), "\\q");
    assert_eq!(parse_po_string("no quotes"), "");
    assert_eq!(parse_po_string("\""), "");
}

#[test]
fn gettextf_replaces_named_placeholders() {
    let catalog = StrMap::new();
    let rendered = gettextf(
        &catalog,
        "Sent the message. room_id={room_id} message_id={message_id}",
        &[("room_id", "123"), ("message_id", "456")],
    );

    assert!(rendered.contains("123"));
    assert!(rendered.contains("456"));
    assert_eq!(rendered, "Sent the message. room_id=123 message_id=456");
}

#[test]
fn gettext_translates_known_messages_only() {
    let mut catalog = StrMap::new();
    catalog.insert("Hello.".to_string(), "こんにちは。".to_string());
    catalog.insert("Hi {name}".to_string(), "やあ {name} {name}".to_string());
    assert_eq!(gettext(&catalog, "Hello."), "こんにちは。");
    assert_eq!(gettext(&catalog, "Bye."), "Bye.");
    assert_eq!(gettextf(&catalog, "Hi {name}", &[("name", "A")]), "やあ A A");
    assert_eq!(gettextf(&catalog, "Hello.", &[]), gettext(&catalog, "Hello."));
}

#[test]
fn normalize_locale_treats_c_locale_as_default_locale() {
    assert_eq!(normalize_locale("C.UTF-8"), "ja");
    assert_eq!(normalize_locale("POSIX"), "ja");
}

#[test]
fn normalize_locale_keeps_the_language() {
    assert_eq!(normalize_locale("en_US.UTF-8"), "en");
    assert_eq!(normalize_locale("DE@euro"), "de");
    assert_eq!(normalize_locale(""), "ja");
    assert_eq!(normalize_locale(".UTF-8"), "ja");
}

#[test]
fn selected_locale_takes_the_first_set_variable() {
    assert_eq!(
        selected_locale(&vec![None, Some("en_US.UTF-8".to_string()), Some("fr".to_string())]),
        "en"
    );
    assert_eq!(selected_locale(&vec![None, None, None, None]), "ja");
    assert_eq!(selected_locale(&vec![Some("C".to_string()), Some("fr".to_string())]), "ja");
}

#[test]
fn load_catalog_prefers_external_then_builtin_default() {
    let builtin = "msgid \"A\"\nmsgstr \"builtin\"\n";
    let external = "msgid \"A\"\nmsgstr \"external\"\n";
    assert_eq!(load_catalog("fr", Some(external), builtin).get_str("A"), Some("external".to_string()));
    assert_eq!(load_catalog("ja", None, builtin).get_str("A"), Some("builtin".to_string()));
    assert_eq!(load_catalog("fr", None, builtin).get_str("A"), None);
}

#[test]
fn messages_translate_with_their_placeholders() {
    let mut catalog = StrMap::new();
    catalog.insert("File not found: {path}".to_string(), "ファイルがありません: {path}".to_string());
    assert_eq!(msg1("File not found: {path}", "path", "/x".to_string()).text(&catalog), "ファイルがありません: /x");
    assert_eq!(msg0("Plain.").text(&catalog), "Plain.");
    assert_eq!(
        msg2("{a}-{b}", "a", "1".to_string(), "b", "2".to_string()).text(&catalog),
        "1-2"
    );
    assert_eq!(Message::Verbatim("{a}".to_string()).text(&catalog), "{a}");
    let err = usage_error(UsageContext::Send, msg0("x"));
    assert_eq!(err.context, Some(UsageContext::Send));
}

#[test]
fn completion_scripts_for_bash_and_zsh() {
    assert!(script(ShellScript::Bash).contains("complete"));
    assert!(script(ShellScript::Zsh).contains("compdef"));
}

#[test]
fn comment_lines_do_not_change_the_catalog() {
    let with = "# header\nmsgid \"A\"\n#: src/main.rs\nmsgstr \"a\"\n# note\nmsgid \"B\"\nmsgstr \"b\"\n";
    let without = "msgid \"A\"\nmsgstr \"a\"\nmsgid \"B\"\nmsgstr \"b\"\n";
    let c1 = parse_po_catalog(with);
    let c2 = parse_po_catalog(without);
    for key in ["A", "B", "C", ""] {
        assert_eq!(c1.get_str(key), c2.get_str(key));
    }
    assert_eq!(c1.get_str("A"), Some("a".to_string()));
}
