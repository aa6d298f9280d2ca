use chatwork_cli::i18n::{gettext, gettextf};
use chatwork_cli::message::{CliError, Message, UsageContext};
use chatwork_cli::paths::{
    default_dotenv_path_for_home, default_templates_prefix, expand_home, fallback_dotenv_path,
    path_join, resolve_config_path,
};
use chatwork_cli::strmap::StrMap;
use chatwork_cli::template::{
    complete_template_lines, default_base_url, finish_template_send, get_template, load_config,
    parse_vars, render_template, resolve_raw_message_room_id, resolve_send_request,
    resolve_template_body, resolve_template_body_path, resolve_template_send_room_id,
    resolve_templates_prefix, template_list_lines, templates_in_order, validate_templates, Config, SendArgs,
    SendPlan, Template, TemplateBody,
};

fn error_text(err: &CliError) -> String {
    err.message.text(&StrMap::new())
}

fn vars_of(pairs: &[(&str, &str)]) -> StrMap {
    let mut m = StrMap::new();
    for (k, v) in pairs {
        m.insert(k.to_string(), v.to_string());
    }
    m
}

fn template(
    description: Option<&str>,
    room_id: Option<&str>,
    body: Option<&str>,
    body_file: Option<&str>,
) -> Template {
    Template {
        description: description.map(|s| s.to_string()),
        room_id: room_id.map(|s| s.to_string()),
        body: body.map(|s| s.to_string()),
        body_file: body_file.map(|s| s.to_string()),
    }
}

fn config(default_room_id: Option<&str>, templates: Vec<(&str, Template)>) -> Config {
    Config {
        default_room_id: default_room_id.map(|s| s.to_string()),
        base_url: default_base_url(),
        templates_prefix: None,
        templates: templates.into_iter().map(|(n, t)| (n.to_string(), t)).collect(),
        config_dir: String::new(),
    }
}

fn send_args(
    name: Option<&str>,
    room_id: Option<&str>,
    message: Option<&str>,
    vars: &[&str],
) -> SendArgs {
    SendArgs {
        name: name.map(|s| s.to_string()),
        room_id: room_id.map(|s| s.to_string()),
        message: message.map(|s| s.to_string()),
        vars: vars.iter().map(|s| s.to_string()).collect(),
        self_unread: false,
        dry_run: false,
    }
}

#[test]
fn render_template_replaces_placeholders() {
    let vars = vars_of(&[("name", "あい"), ("topic", "定型文")]);
    let rendered =
        render_template("{{name}} が {{topic}} を送る", &vars, UsageContext::Send).unwrap();
    assert_eq!(rendered, "あい が 定型文 を送る");
}

#[test]
fn render_template_fails_on_missing_value() {
    let vars = StrMap::new();
    let err = render_template("{{name}}", &vars, UsageContext::Send).unwrap_err();
    assert_eq!(
        error_text(&err),
        gettextf(&StrMap::new(), "Variable `{key}` is not set.", &[("key", "name")]),
    );
}

#[test]
fn render_template_reports_each_problem() {
    let vars = vars_of(&[("a", "1")]);
    let err = render_template("x {{a", &vars, UsageContext::TemplateShow).unwrap_err();
    assert_eq!(err.context, Some(UsageContext::TemplateShow));
    assert_eq!(error_text(&err), "Missing closing `}}` for template placeholder.");
    let err = render_template("{{  }}", &vars, UsageContext::Send).unwrap_err();
    assert_eq!(error_text(&err), "Empty placeholder names are not allowed.");
    assert_eq!(render_template("{{ a }}-{{a}}", &vars, UsageContext::Send).unwrap(), "1-1");
    assert_eq!(render_template("plain } text {", &vars, UsageContext::Send).unwrap(), "plain } text {");
    assert_eq!(render_template("", &vars, UsageContext::Send).unwrap(), "");
}

#[test]
fn parse_vars_reads_key_value_pairs() {
    let vars = parse_vars(&vec!["name=あい".to_string(), "topic=確認".to_string()], UsageContext::Send)
        .unwrap();
    assert_eq!(vars.get_str("name").unwrap(), "あい");
    assert_eq!(vars.get_str("topic").unwrap(), "確認");
}

#[test]
fn parse_vars_trims_names_keeps_values_and_lets_later_items_win() {
    let vars = parse_vars(
        &vec![" k =a=b ".to_string(), "k=second".to_string(), "e=".to_string()],
        UsageContext::Send,
    )
    .unwrap();
    assert_eq!(vars.get_str("k").unwrap(), "second");
    assert_eq!(vars.get_str("e").unwrap(), "");
    let vars = parse_vars(&vec![" k =a=b ".to_string()], UsageContext::Send).unwrap();
    assert_eq!(vars.get_str("k").unwrap(), "a=b ");
}

#[test]
fn parse_vars_reports_bad_items() {
    let err = parse_vars(&vec!["novalue".to_string()], UsageContext::TemplateShow).unwrap_err();
    assert_eq!(err.context, Some(UsageContext::TemplateShow));
    assert_eq!(error_text(&err), "`novalue` must use KEY=VALUE format.");
    let err = parse_vars(&vec!["a=1".to_string(), " =x".to_string()], UsageContext::Send).unwrap_err();
    assert_eq!(error_text(&err), "Variable names cannot be empty: ` =x`");
}

#[test]
fn resolve_send_request_rejects_missing_template_name_or_message() {
    let err = resolve_send_request(&send_args(None, None, None, &[]), None, None).unwrap_err();
    assert_eq!(
        error_text(&err),
        gettext(&StrMap::new(), "Specify either a template name or --message.")
    );
}

#[test]
fn resolve_send_request_uses_default_room_id_for_raw_message() {
    let config = Config {
        default_room_id: Some("123456".to_string()),
        base_url: "https://api.chatwork.com/v2".to_string(),
        templates_prefix: None,
        templates: Vec::new(),
        config_dir: String::new(),
    };
    let plan = resolve_send_request(&send_args(None, None, Some("任意の本文"), &[]), Some(&config), None)
        .unwrap();
    assert_eq!(
        plan,
        SendPlan::Ready {
            room_id: "123456".to_string(),
            body: "任意の本文".to_string(),
            base_url: "https://api.chatwork.com/v2".to_string(),
        }
    );
}

#[test]
fn resolve_send_request_rejects_vars_with_raw_message() {
    let err = resolve_send_request(
        &send_args(None, Some("123456"), Some("任意の本文"), &["name=ai"]),
        None,
        None,
    )
    .unwrap_err();
    assert_eq!(
        error_text(&err),
        gettext(&StrMap::new(), "Do not use --var together with --message.")
    );
}

#[test]
fn resolve_send_request_handles_templates() {
    let cfg = config(
        Some("999"),
        vec![
            ("greet", template(None, Some("77"), Some("Hi {{who}}"), None)),
            ("file", template(None, None, None, Some("/abs/body.txt"))),
            ("broken", template(None, None, None, None)),
        ],
    );
    let plan = resolve_send_request(&send_args(Some("greet"), None, None, &["who=Ann"]), Some(&cfg), None)
        .unwrap();
    assert_eq!(
        plan,
        SendPlan::Ready {
            room_id: "77".to_string(),
            body: "Hi Ann".to_string(),
            base_url: "https://api.chatwork.com/v2".to_string(),
        }
    );
    let plan = resolve_send_request(&send_args(Some("file"), Some("1"), None, &[]), Some(&cfg), None)
        .unwrap();
    assert_eq!(plan, SendPlan::ReadBodyFile { path: "/abs/body.txt".to_string() });
    let err = resolve_send_request(&send_args(Some("broken"), None, None, &[]), Some(&cfg), None)
        .unwrap_err();
    assert_eq!(
        error_text(&err),
        "Template `broken` must specify exactly one of body or body_file."
    );
    let err = resolve_send_request(&send_args(Some("nope"), None, None, &[]), Some(&cfg), None)
        .unwrap_err();
    assert_eq!(error_text(&err), "Template `nope` was not found.");
    let err = resolve_send_request(&send_args(Some("greet"), None, None, &[]), None, None).unwrap_err();
    assert_eq!(error_text(&err), "A config file is required when using a template.");
    let err = resolve_send_request(&send_args(Some("greet"), None, Some("m"), &[]), Some(&cfg), None)
        .unwrap_err();
    assert_eq!(error_text(&err), "Specify either a template name or --message, not both.");
}

#[test]
fn finish_template_send_checks_in_order() {
    let cfg = config(None, vec![]);
    let t = template(None, None, Some("x"), None);
    let err = finish_template_send(&send_args(Some("t"), None, None, &["bad"]), &cfg, &t, "{{x}}")
        .unwrap_err();
    assert_eq!(error_text(&err), "`bad` must use KEY=VALUE format.");
    let err = finish_template_send(&send_args(Some("t"), None, None, &[]), &cfg, &t, "{{x}}")
        .unwrap_err();
    assert_eq!(
        error_text(&err),
        "Specify one of --room-id, template room_id, or default_room_id."
    );
    let err = finish_template_send(&send_args(Some("t"), Some("5"), None, &[]), &cfg, &t, "{{x}}")
        .unwrap_err();
    assert_eq!(error_text(&err), "Variable `x` is not set.");
}

#[test]
fn room_choice_follows_priority() {
    let cfg = config(Some("3"), vec![]);
    let with_room = template(None, Some("2"), Some("b"), None);
    let without_room = template(None, None, Some("b"), None);
    assert_eq!(
        resolve_template_send_room_id(&send_args(None, Some("1"), None, &[]), &cfg, &with_room).unwrap(),
        "1"
    );
    assert_eq!(
        resolve_template_send_room_id(&send_args(None, None, None, &[]), &cfg, &with_room).unwrap(),
        "2"
    );
    assert_eq!(
        resolve_template_send_room_id(&send_args(None, None, None, &[]), &cfg, &without_room).unwrap(),
        "3"
    );
    assert_eq!(
        resolve_raw_message_room_id(&send_args(None, Some("1"), None, &[]), Some(&cfg)).unwrap(),
        "1"
    );
    assert_eq!(resolve_raw_message_room_id(&send_args(None, None, None, &[]), Some(&cfg)).unwrap(), "3");
    let err = resolve_raw_message_room_id(&send_args(None, None, None, &[]), None).unwrap_err();
    assert_eq!(
        error_text(&err),
        "Specify one of --room-id or default_room_id when using --message."
    );
}

#[test]
fn load_config_parses_templates() {
    let dir = "/tmp/chatwork-cli-load_config_parses_templates";
    let parsed = Config {
        default_room_id: Some("123456".to_string()),
        base_url: default_base_url(),
        templates_prefix: Some("./templates".to_string()),
        templates: vec![(
            "greeting".to_string(),
            template(Some("あいさつ"), None, None, Some("greeting.txt")),
        )],
        config_dir: String::new(),
    };
    let config = load_config(&format!("{dir}/config.toml"), parsed).unwrap();
    let template = get_template(&config, "greeting", UsageContext::TemplateShow).unwrap();

    assert_eq!(config.default_room_id.as_deref(), Some("123456"));
    assert_eq!(config.templates_prefix.as_deref(), Some("./templates"));
    assert_eq!(config.config_dir, dir);
    assert_eq!(template.description.as_deref(), Some("あいさつ"));
    assert_eq!(
        resolve_template_body(&config, "greeting", template, UsageContext::TemplateShow, None).unwrap(),
        TemplateBody::File(format!("{dir}/./templates/greeting.txt"))
    );
}

#[test]
fn load_config_rejects_multiple_body_sources() {
    let parsed = config(
        None,
        vec![("invalid", template(None, None, Some("inline"), Some("invalid.txt")))],
    );
    let err = load_config("/tmp/chatwork-cli-load_config_rejects_multiple_body_sources/config.toml", parsed)
        .unwrap_err();
    assert_eq!(
        error_text(&err),
        gettextf(
            &StrMap::new(),
            "Template `{name}` must specify exactly one of body or body_file.",
            &[("name", "invalid")],
        )
    );
}

#[test]
fn load_config_requires_templates_and_records_the_directory() {
    let err = load_config("/etc/config.toml", config(None, vec![])).unwrap_err();
    assert_eq!(err.context, None);
    assert_eq!(error_text(&err), "At least one template must be defined.");
    let ok = load_config("config.toml", config(None, vec![("a", template(None, None, Some("x"), None))]))
        .unwrap();
    assert_eq!(ok.config_dir, "");
    let ok = load_config("/", config(None, vec![("a", template(None, None, Some("x"), None))])).unwrap();
    assert_eq!(ok.config_dir, ".");
}

#[test]
fn validate_templates_names_the_first_bad_template() {
    let cfg = config(
        None,
        vec![
            ("a", template(None, None, Some("x"), None)),
            ("b", template(None, None, None, None)),
            ("c", template(None, None, Some("x"), Some("y"))),
        ],
    );
    let err = validate_templates(&cfg).unwrap_err();
    assert_eq!(error_text(&err), "Template `b` must specify exactly one of body or body_file.");
}

#[test]
fn template_paths_resolve_against_prefix_and_home() {
    let mut cfg = config(None, vec![]);
    cfg.config_dir = "/etc/cw".to_string();
    assert_eq!(
        resolve_templates_prefix(&cfg, Some("/home/u")),
        "/home/u/.config/chatwork-cli/templates"
    );
    assert_eq!(resolve_templates_prefix(&cfg, None), ".config/chatwork-cli/templates");
    cfg.templates_prefix = Some("tpl".to_string());
    assert_eq!(resolve_templates_prefix(&cfg, None), "/etc/cw/tpl");
    cfg.templates_prefix = Some("~/tpl".to_string());
    assert_eq!(resolve_templates_prefix(&cfg, Some("/home/u")), "/home/u/tpl");
    assert_eq!(resolve_template_body_path(&cfg, "a.txt", Some("/home/u")), "/home/u/tpl/a.txt");
    assert_eq!(resolve_template_body_path(&cfg, "/x/a.txt", Some("/home/u")), "/x/a.txt");
    assert_eq!(resolve_template_body_path(&cfg, "~/b.txt", Some("/home/u")), "/home/u/b.txt");
}

#[test]
fn template_list_and_completion_lines() {
    let catalog = StrMap::new();
    let empty = config(None, vec![]);
    let lines = template_list_lines(&empty);
    assert_eq!(lines.len(), 1);
    assert_eq!(lines[0].text(&catalog), "No templates are registered.");
    let cfg = config(
        None,
        vec![
            ("alpha", template(Some("first"), None, Some("x"), None)),
            ("beta", template(None, None, Some("y"), None)),
        ],
    );
    assert_eq!(
        template_list_lines(&cfg),
        vec![Message::Verbatim("alpha\tfirst".to_string()), Message::Verbatim("beta".to_string())]
    );
    assert_eq!(complete_template_lines(&cfg, "", false), vec!["alpha", "beta"]);
    assert_eq!(complete_template_lines(&cfg, "b", true), vec!["beta\t"]);
    assert_eq!(complete_template_lines(&cfg, "a", true), vec!["alpha\tfirst"]);
    assert_eq!(complete_template_lines(&cfg, "z", true), Vec::<String>::new());
}

#[test]
fn default_dotenv_path_for_home_uses_config_directory() {
    let path = default_dotenv_path_for_home("/tmp/example-home");
    assert_eq!(path, "/tmp/example-home/.config/chatwork-cli/.env");
}

#[test]
fn config_and_dotenv_locations() {
    assert_eq!(
        resolve_config_path(None, Some("/home/u")).unwrap(),
        "/home/u/.config/chatwork-cli/config.toml"
    );
    assert_eq!(resolve_config_path(Some("~/c.toml"), Some("/home/u")).unwrap(), "/home/u/c.toml");
    assert_eq!(resolve_config_path(Some("~/c.toml"), None).unwrap(), "~/c.toml");
    let err = resolve_config_path(None, None).unwrap_err();
    assert_eq!(error_text(&err), "HOME is unavailable. Specify `--config`.");
    assert_eq!(fallback_dotenv_path(None), None);
    assert_eq!(
        fallback_dotenv_path(Some("/h/")),
        Some("/h/.config/chatwork-cli/.env".to_string())
    );
    assert_eq!(default_templates_prefix(Some("/h")), "/h/.config/chatwork-cli/templates");
}

#[test]
fn path_helpers_follow_path_join() {
    assert_eq!(path_join("a", "b"), "a/b");
    assert_eq!(path_join("a/", "b"), "a/b");
    assert_eq!(path_join("", "b"), "b");
    assert_eq!(path_join("a", "/b"), "/b");
    assert_eq!(path_join("a", ""), "a/");
    assert_eq!(expand_home("~", Some("/h")), "/h");
    assert_eq!(expand_home("~/", Some("/h")), "/h/");
    assert_eq!(expand_home("~x", Some("/h")), "~x");
    assert_eq!(expand_home("a/~", Some("/h")), "a/~");
}

#[test]
fn templates_in_order_follows_str_order() {
    let t = || template(None, None, Some("x"), None);
    assert!(templates_in_order(&config(None, vec![])));
    assert!(templates_in_order(&config(None, vec![("a", t()), ("ab", t()), ("b", t()), ("あ", t())])));
    assert!(!templates_in_order(&config(None, vec![("b", t()), ("a", t())])));
    assert!(!templates_in_order(&config(None, vec![("a", t()), ("a", t())])));
    assert!(!templates_in_order(&config(None, vec![("a", t()), ("c", t()), ("b", t())])));
}

#[test]
fn validate_templates_names_the_least_bad_name() {
    let cfg = config(
        None,
        vec![
            ("alpha", template(None, None, None, None)),
            ("beta", template(None, None, Some("x"), Some("y"))),
        ],
    );
    assert_eq!(
        error_text(&validate_templates(&cfg).unwrap_err()),
        "Template `alpha` must specify exactly one of body or body_file."
    );
}
