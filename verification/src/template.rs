//! Message templates: the configuration that holds them, `{{name}}` placeholders and their
//! variables, and what `send` and `template` do with them.
use vstd::prelude::*;
use crate::message::{
    general_error, is_general0, is_general1, is_usage0, is_usage1, msg0, msg1, usage_error,
    CliError, Message, UsageContext,
};
use crate::paths::{
    default_templates_prefix, default_templates_prefix_spec, expand_home, expand_home_spec,
    is_absolute, is_absolute_spec, join_spec, opt_view, path_join,
};
use crate::strmap::{lemma_map_of_push, map_of, StrMap};
use crate::text::{
    chars_less, chars_of, find, find_spec, seq_less, lemma_find_from, push_all, slice_chars, split_once,
    split_once_spec, starts_with, starts_with_spec, string_of, trim, trim_spec,
};

verus! {

/// The Chatwork API that messages go to unless the configuration names another.
pub const DEFAULT_BASE_URL: &'static str = "https://api.chatwork.com/v2";

/// Opens a placeholder in a template body.
pub const PLACEHOLDER_OPEN: &'static str = "{{";

/// Closes a placeholder in a template body.
pub const PLACEHOLDER_CLOSE: &'static str = "}}";

/// The base URL used when the configuration names none.
pub fn default_base_url() -> (r: String)
    ensures
        r@ == DEFAULT_BASE_URL@,
{
    DEFAULT_BASE_URL.to_owned()
}

/// A message template. Exactly one of `body` and `body_file` gives its text.
#[derive(Debug)]
pub struct Template {
    pub description: Option<String>,
    pub room_id: Option<String>,
    pub body: Option<String>,
    pub body_file: Option<String>,
}

/// The configuration of the client. `templates` holds the templates by name, in the
/// order of their names; `config_dir` is the directory of the configuration file.
#[derive(Debug)]
pub struct Config {
    pub default_room_id: Option<String>,
    pub base_url: String,
    pub templates_prefix: Option<String>,
    pub templates: Vec<(String, Template)>,
    pub config_dir: String,
}

/// The templates are held by name in ascending order of their names (the order of
/// `str`'s `Ord`), each name once.
pub open spec fn names_ascending(ts: Seq<(String, Template)>) -> bool {
    forall|i: int, j: int| 0 <= i < j < ts.len() ==> seq_less(#[trigger] ts[i].0@, #[trigger] ts[j].0@)
}

/// Whether the templates of `config` are held in ascending order of their names.
pub fn templates_in_order(config: &Config) -> (r: bool)
    ensures
        r == names_ascending(config.templates@),
{
    let ts = &config.templates;
    let n: usize = ts.len();
    let mut i: usize = 0;
    while i < n
        invariant
            i <= n == ts@.len(),
            ts@ == config.templates@,
            forall|p: int, q: int| 0 <= p < i && p < q < n ==> seq_less(#[trigger] ts@[p].0@, #[trigger] ts@[q].0@),
        decreases n - i,
    {
        let a = chars_of(ts[i].0.as_str());
        let mut j: usize = i + 1;
        while j < n
            invariant
                i < n == ts@.len(),
                ts@ == config.templates@,
                i + 1 <= j <= n,
                a@ == ts@[i as int].0@,
                forall|q: int| i < q < j ==> seq_less(ts@[i as int].0@, #[trigger] ts@[q].0@),
            decreases n - j,
        {
            let b = chars_of(ts[j].0.as_str());
            if !chars_less(&a, &b) {
                proof {
                    let (p, q) = (i as int, j as int);
                    assert(!seq_less(config.templates@[p].0@, config.templates@[q].0@));
                    assert(0 <= p < q < config.templates@.len());
                    assert(!names_ascending(config.templates@));
                }
                return false;
            }
            j += 1;
        }
        i += 1;
    }
    true
}

/// The view of an optional owned string.
pub open spec fn opt_string_view(s: Option<String>) -> Option<Seq<char>> {
    match s {
        Some(t) => Some(t@),
        None => None,
    }
}

/// The first index at or after `i` of a template named `name`.
pub open spec fn template_index_from(ts: Seq<(String, Template)>, name: Seq<char>, i: int) -> Option<int>
    decreases ts.len() - i,
{
    if i < 0 || i >= ts.len() {
        None
    } else if ts[i].0@ == name {
        Some(i)
    } else {
        template_index_from(ts, name, i + 1)
    }
}

/// The index of the template named `name`.
pub open spec fn template_index(ts: Seq<(String, Template)>, name: Seq<char>) -> Option<int> {
    template_index_from(ts, name, 0)
}

proof fn lemma_template_index_from(ts: Seq<(String, Template)>, name: Seq<char>, i: int)
    requires
        0 <= i,
    ensures
        match template_index_from(ts, name, i) {
            Some(j) => i <= j < ts.len() && ts[j].0@ == name,
            None => forall|k: int| i <= k < ts.len() ==> (#[trigger] ts[k]).0@ != name,
        },
    decreases ts.len() - i,
{
    if i < ts.len() && ts[i].0@ != name {
        lemma_template_index_from(ts, name, i + 1);
    }
}

/// The template named `name`, or a usage error of `context`.
pub fn get_template<'a>(config: &'a Config, name: &str, context: UsageContext) -> (r: Result<
    &'a Template,
    CliError,
>)
    ensures
        match template_index(config.templates@, name@) {
            Some(i) => r is Ok && *r->Ok_0 == config.templates@[i].1,
            None => r is Err && is_usage1(
                r->Err_0,
                context,
                "Template `{name}` was not found."@,
                "name"@,
                name@,
            ),
        },
{
    let key = chars_of(name);
    let mut i: usize = 0;
    while i < config.templates.len()
        invariant
            i <= config.templates@.len(),
            key@ == name@,
            template_index(config.templates@, name@) == template_index_from(
                config.templates@,
                name@,
                i as int,
            ),
        decreases config.templates@.len() - i,
    {
        let entry = &config.templates[i];
        let k = chars_of(entry.0.as_str());
        if crate::text::chars_eq(&k, &key) {
            return Ok(&entry.1);
        }
        i += 1;
    }
    Err(usage_error(context, msg1("Template `{name}` was not found.", "name", name.to_owned())))
}

/// The directory of template bodies: `templates_prefix` with `~` expanded, taken relative
/// to the directory of the configuration file; by default below the home directory.
pub open spec fn templates_prefix_spec(config: Config, home: Option<Seq<char>>) -> Seq<char> {
    match config.templates_prefix {
        Some(p) => {
            let e = expand_home_spec(p@, home);
            if is_absolute_spec(e) {
                e
            } else {
                join_spec(config.config_dir@, e)
            }
        },
        None => default_templates_prefix_spec(home),
    }
}

/// The directory that relative `body_file` paths are read from.
pub fn resolve_templates_prefix(config: &Config, home: Option<&str>) -> (r: String)
    ensures
        r@ == templates_prefix_spec(*config, opt_view(home)),
{
    match &config.templates_prefix {
        Some(prefix) => {
            let e = expand_home(prefix.as_str(), home);
            if is_absolute(e.as_str()) {
                e
            } else {
                path_join(config.config_dir.as_str(), e.as_str())
            }
        },
        None => default_templates_prefix(home),
    }
}

/// The file that holds a template body: `body_file` with `~` expanded, taken relative to
/// the directory of template bodies.
pub open spec fn body_path_spec(config: Config, body_file: Seq<char>, home: Option<Seq<char>>) -> Seq<char> {
    let p = expand_home_spec(body_file, home);
    if is_absolute_spec(p) {
        p
    } else {
        join_spec(templates_prefix_spec(config, home), p)
    }
}

/// The path of the file named by a template's `body_file`.
pub fn resolve_template_body_path(config: &Config, body_file: &str, home: Option<&str>) -> (r: String)
    ensures
        r@ == body_path_spec(*config, body_file@, opt_view(home)),
{
    let p = expand_home(body_file, home);
    if is_absolute(p.as_str()) {
        return p;
    }
    let prefix = resolve_templates_prefix(config, home);
    path_join(prefix.as_str(), p.as_str())
}

/// Where the text of a template comes from.
#[derive(Debug, PartialEq, Eq)]
pub enum TemplateBody {
    /// The text itself (`body`).
    Inline(String),
    /// The file that holds the text (`body_file`, resolved).
    File(String),
}

/// The error for a template with both or neither of `body` and `body_file`.
pub open spec fn is_body_source_error(e: CliError, context: UsageContext, name: Seq<char>) -> bool {
    is_usage1(
        e,
        context,
        "Template `{name}` must specify exactly one of body or body_file."@,
        "name"@,
        name,
    )
}

/// The text of a template, or the file to read it from.
pub fn resolve_template_body(
    config: &Config,
    template_name: &str,
    template: &Template,
    context: UsageContext,
    home: Option<&str>,
) -> (r: Result<TemplateBody, CliError>)
    ensures
        match (template.body, template.body_file) {
            (Some(b), None) => r is Ok && r->Ok_0 is Inline && r->Ok_0->Inline_0@ == b@,
            (None, Some(f)) => r is Ok && r->Ok_0 is File && r->Ok_0->File_0@ == body_path_spec(
                *config,
                f@,
                opt_view(home),
            ),
            _ => r is Err && is_body_source_error(r->Err_0, context, template_name@),
        },
{
    match (&template.body, &template.body_file) {
        (Some(body), None) => Ok(TemplateBody::Inline(body.clone())),
        (None, Some(body_file)) => Ok(
            TemplateBody::File(resolve_template_body_path(config, body_file.as_str(), home)),
        ),
        _ => Err(
            usage_error(
                context,
                msg1(
                    "Template `{name}` must specify exactly one of body or body_file.",
                    "name",
                    template_name.to_owned(),
                ),
            ),
        ),
    }
}

/// Why `--var` items cannot be read.
pub enum VarIssue {
    /// An item without `=`.
    NoEquals(Seq<char>),
    /// An item whose name, trimmed, is empty.
    EmptyName(Seq<char>),
}

/// The `(name, value)` pairs of `KEY=VALUE` items, in order, or the first bad item.
/// The name is trimmed; the value is kept as it is.
pub open spec fn vars_spec(items: Seq<Seq<char>>) -> Result<Seq<(Seq<char>, Seq<char>)>, VarIssue>
    decreases items.len(),
{
    if items.len() == 0 {
        Ok(Seq::empty())
    } else {
        match vars_spec(items.drop_last()) {
            Err(e) => Err(e),
            Ok(ps) => {
                let item = items.last();
                match split_once_spec(item, '=') {
                    None => Err(VarIssue::NoEquals(item)),
                    Some((k, v)) => if trim_spec(k).len() == 0 {
                        Err(VarIssue::EmptyName(item))
                    } else {
                        Ok(ps.push((trim_spec(k), v)))
                    },
                }
            },
        }
    }
}

/// `e` is the usage error of `context` for `issue`.
pub open spec fn is_var_issue_error(e: CliError, context: UsageContext, issue: VarIssue) -> bool {
    match issue {
        VarIssue::NoEquals(item) => is_usage1(
            e,
            context,
            "`{item}` must use KEY=VALUE format."@,
            "item"@,
            item,
        ),
        VarIssue::EmptyName(item) => is_usage1(
            e,
            context,
            "Variable names cannot be empty: `{item}`"@,
            "item"@,
            item,
        ),
    }
}

/// The views of a vector of strings.
pub open spec fn strings_view(v: Seq<String>) -> Seq<Seq<char>> {
    v.map_values(|s: String| s@)
}

proof fn lemma_vars_prefix_error(items: Seq<Seq<char>>, i: int)
    requires
        0 <= i <= items.len(),
        vars_spec(items.take(i)) is Err,
    ensures
        vars_spec(items) == vars_spec(items.take(i)),
    decreases items.len() - i,
{
    if i < items.len() {
        assert(items.take(i + 1).drop_last() =~= items.take(i));
        lemma_vars_prefix_error(items, i + 1);
    } else {
        assert(items.take(i) =~= items);
    }
}

/// Reads `--var KEY=VALUE` items into a map; a later item overrides an earlier one with
/// the same name.
pub fn parse_vars(items: &Vec<String>, context: UsageContext) -> (r: Result<StrMap, CliError>)
    ensures
        match vars_spec(strings_view(items@)) {
            Ok(ps) => r is Ok && r->Ok_0@ == map_of(ps),
            Err(issue) => r is Err && is_var_issue_error(r->Err_0, context, issue),
        },
{
    let ghost all = strings_view(items@);
    let mut vars = StrMap::new();
    let ghost mut ps: Seq<(Seq<char>, Seq<char>)> = Seq::empty();
    let mut i: usize = 0;
    assert(all.take(0) =~= Seq::<Seq<char>>::empty());
    while i < items.len()
        invariant
            i <= items@.len(),
            all == strings_view(items@),
            vars_spec(all.take(i as int)) == Ok::<Seq<(Seq<char>, Seq<char>)>, VarIssue>(ps),
            vars@ == map_of(ps),
        decreases items@.len() - i,
    {
        let item = &items[i];
        let text = chars_of(item.as_str());
        proof {
            assert(all.take(i + 1).drop_last() =~= all.take(i as int));
            assert(all.take(i + 1).last() == item@);
        }
        let (key_raw, value) = match split_once(&text, '=') {
            Some(p) => p,
            None => {
                proof {
                    lemma_vars_prefix_error(all, i + 1);
                }
                return Err(
                    usage_error(
                        context,
                        msg1("`{item}` must use KEY=VALUE format.", "item", item.clone()),
                    ),
                );
            },
        };
        let key = trim(&key_raw);
        if key.len() == 0 {
            proof {
                lemma_vars_prefix_error(all, i + 1);
            }
            return Err(
                usage_error(
                    context,
                    msg1("Variable names cannot be empty: `{item}`", "item", item.clone()),
                ),
            );
        }
        vars.insert(string_of(&key), string_of(&value));
        proof {
            lemma_map_of_push(ps, key@, value@);
            ps = ps.push((key@, value@));
        }
        i += 1;
    }
    assert(all.take(i as int) =~= all);
    Ok(vars)
}

/// Why a template body cannot be rendered.
pub enum RenderIssue {
    /// A `{{` without `}}` after it.
    MissingClose,
    /// A placeholder whose name, trimmed, is empty.
    EmptyName,
    /// A placeholder whose variable is not set.
    Unset(Seq<char>),
}

/// `rest` with each `{{ name }}` replaced by the value of `name` in `vars`, or the first
/// problem met. Text outside placeholders is kept as it is.
pub open spec fn render_spec(rest: Seq<char>, vars: Map<Seq<char>, Seq<char>>) -> Result<Seq<char>, RenderIssue>
    decreases rest.len(),
{
    match find_spec(rest, PLACEHOLDER_OPEN@) {
        None => Ok(rest),
        Some(start) => {
            let after = rest.skip(start + PLACEHOLDER_OPEN@.len());
            match find_spec(after, PLACEHOLDER_CLOSE@) {
                None => Err(RenderIssue::MissingClose),
                Some(end) => {
                    let key = trim_spec(after.take(end));
                    if key.len() == 0 {
                        Err(RenderIssue::EmptyName)
                    } else if !vars.contains_key(key) {
                        Err(RenderIssue::Unset(key))
                    } else {
                        proof {
                            lemma_find_from(rest, PLACEHOLDER_OPEN@, 0);
                            lemma_find_from(after, PLACEHOLDER_CLOSE@, 0);
                            reveal_strlit("{{");
                            reveal_strlit("}}");
                        }
                        match render_spec(after.skip(end + PLACEHOLDER_CLOSE@.len()), vars) {
                            Ok(more) => Ok(rest.take(start) + vars[key] + more),
                            Err(e) => Err(e),
                        }
                    }
                },
            }
        },
    }
}

/// `e` is the usage error of `context` for `issue`.
pub open spec fn is_render_issue_error(e: CliError, context: UsageContext, issue: RenderIssue) -> bool {
    match issue {
        RenderIssue::MissingClose => is_usage0(
            e,
            context,
            "Missing closing `}}` for template placeholder."@,
        ),
        RenderIssue::EmptyName => is_usage0(e, context, "Empty placeholder names are not allowed."@),
        RenderIssue::Unset(key) => is_usage1(
            e,
            context,
            "Variable `{key}` is not set."@,
            "key"@,
            key,
        ),
    }
}

/// Fills the placeholders of a template body with the values of `vars`.
pub fn render_template(body: &str, vars: &StrMap, context: UsageContext) -> (r: Result<
    String,
    CliError,
>)
    ensures
        match render_spec(body@, vars@) {
            Ok(text) => r is Ok && r->Ok_0@ == text,
            Err(issue) => r is Err && is_render_issue_error(r->Err_0, context, issue),
        },
{
    let open = chars_of(PLACEHOLDER_OPEN);
    let close = chars_of(PLACEHOLDER_CLOSE);
    let mut out: Vec<char> = Vec::new();
    let mut rest = chars_of(body);
    loop
        invariant
            open@ == PLACEHOLDER_OPEN@,
            close@ == PLACEHOLDER_CLOSE@,
            render_spec(body@, vars@) == match render_spec(rest@, vars@) {
                Ok(more) => Ok(out@ + more),
                Err(e) => Err::<Seq<char>, RenderIssue>(e),
            },
        decreases rest@.len(),
    {
        let start = match find(&rest, &open) {
            Some(s) => s,
            None => {
                push_all(&mut out, &rest);
                return Ok(string_of(&out));
            },
        };
        proof {
            lemma_find_from(rest@, open@, 0);
            let ff = crate::text::find_from(rest@, open@, 0);
            assert(crate::text::occurs_at(rest@, open@, ff->0));
        }
        let rl: usize = rest.len();
        let ol: usize = open.len();
        let after = slice_chars(&rest, start + ol, rl);
        assert(after@ =~= rest@.skip(start + PLACEHOLDER_OPEN@.len()));
        let end = match find(&after, &close) {
            Some(e) => e,
            None => {
                return Err(
                    usage_error(context, msg0("Missing closing `}}` for template placeholder.")),
                );
            },
        };
        proof {
            lemma_find_from(after@, close@, 0);
            let ff = crate::text::find_from(after@, close@, 0);
            assert(crate::text::occurs_at(after@, close@, ff->0));
        }
        let key_raw = slice_chars(&after, 0, end);
        assert(key_raw@ =~= after@.take(end as int));
        let key = trim(&key_raw);
        if key.len() == 0 {
            return Err(usage_error(context, msg0("Empty placeholder names are not allowed.")));
        }
        let value = match vars.get(&key) {
            Some(v) => v,
            None => {
                return Err(
                    usage_error(
                        context,
                        msg1("Variable `{key}` is not set.", "key", string_of(&key)),
                    ),
                );
            },
        };
        let ghost old_out = out@;
        let before = slice_chars(&rest, 0, start);
        assert(before@ =~= rest@.take(start as int));
        push_all(&mut out, &before);
        push_all(&mut out, &chars_of(value.as_str()));
        let cl: usize = close.len();
        let al: usize = after.len();
        let next = slice_chars(&after, end + cl, al);
        assert(next@ =~= after@.skip(end + PLACEHOLDER_CLOSE@.len()));
        proof {
            match render_spec(next@, vars@) {
                Ok(more) => {
                    assert(old_out + (rest@.take(start as int) + vars@[key@] + more) =~= out@ + more);
                },
                Err(_) => {},
            }
        }
        rest = next;
    }
}

/// A body without `{{` is rendered as it is, whatever the variables.
pub proof fn lemma_render_plain_text(body: Seq<char>, vars: Map<Seq<char>, Seq<char>>)
    requires
        find_spec(body, PLACEHOLDER_OPEN@) is None,
    ensures
        render_spec(body, vars) == Ok::<Seq<char>, RenderIssue>(body),
{
}

/// The arguments of `send`.
#[derive(Debug)]
pub struct SendArgs {
    pub name: Option<String>,
    pub room_id: Option<String>,
    pub message: Option<String>,
    pub vars: Vec<String>,
    pub self_unread: bool,
    pub dry_run: bool,
}

/// The first of three optional values that is given.
pub open spec fn first_given(a: Option<Seq<char>>, b: Option<Seq<char>>, c: Option<Seq<char>>) -> Option<Seq<char>> {
    match a {
        Some(x) => Some(x),
        None => match b {
            Some(x) => Some(x),
            None => c,
        },
    }
}

/// The room a template is sent to: `--room-id`, else the template's `room_id`, else the
/// configuration's `default_room_id`.
pub fn resolve_template_send_room_id(args: &SendArgs, config: &Config, template: &Template) -> (r: Result<String, CliError>)
    ensures
        match first_given(
            opt_string_view(args.room_id),
            opt_string_view(template.room_id),
            opt_string_view(config.default_room_id),
        ) {
            Some(room) => r is Ok && r->Ok_0@ == room,
            None => r is Err && is_usage0(
                r->Err_0,
                UsageContext::Send,
                "Specify one of --room-id, template room_id, or default_room_id."@,
            ),
        },
{
    if let Some(room) = &args.room_id {
        return Ok(room.clone());
    }
    if let Some(room) = &template.room_id {
        return Ok(room.clone());
    }
    if let Some(room) = &config.default_room_id {
        return Ok(room.clone());
    }
    Err(
        usage_error(
            UsageContext::Send,
            msg0("Specify one of --room-id, template room_id, or default_room_id."),
        ),
    )
}

/// The default room of an optional configuration.
pub open spec fn config_room(config: Option<&Config>) -> Option<Seq<char>> {
    match config {
        Some(c) => opt_string_view(c.default_room_id),
        None => None,
    }
}

/// The room a `--message` is sent to: `--room-id`, else the configuration's
/// `default_room_id`.
pub fn resolve_raw_message_room_id(args: &SendArgs, config: Option<&Config>) -> (r: Result<String, CliError>)
    ensures
        match first_given(opt_string_view(args.room_id), config_room(config), None) {
            Some(room) => r is Ok && r->Ok_0@ == room,
            None => r is Err && is_usage0(
                r->Err_0,
                UsageContext::Send,
                "Specify one of --room-id or default_room_id when using --message."@,
            ),
        },
{
    if let Some(room) = &args.room_id {
        return Ok(room.clone());
    }
    if let Some(c) = config {
        if let Some(room) = &c.default_room_id {
            return Ok(room.clone());
        }
    }
    Err(
        usage_error(
            UsageContext::Send,
            msg0("Specify one of --room-id or default_room_id when using --message."),
        ),
    )
}

/// What `send` does next.
#[derive(Debug, PartialEq, Eq)]
pub enum SendPlan {
    /// Send `body` to `room_id` through the API at `base_url`.
    Ready { room_id: String, body: String, base_url: String },
    /// Read the template body from the file at `path`, then finish with
    /// `finish_template_send`.
    ReadBodyFile { path: String },
}

/// `r` is what sending the template `template` of `config` with the body text `body`
/// gives: the variables are read, the room chosen, and the body rendered, in this order.
pub open spec fn template_send_result(
    r: Result<SendPlan, CliError>,
    args: SendArgs,
    config: Config,
    template: Template,
    body: Seq<char>,
) -> bool {
    match vars_spec(strings_view(args.vars@)) {
        Err(issue) => r is Err && is_var_issue_error(r->Err_0, UsageContext::Send, issue),
        Ok(ps) => match first_given(
            opt_string_view(args.room_id),
            opt_string_view(template.room_id),
            opt_string_view(config.default_room_id),
        ) {
            None => r is Err && is_usage0(
                r->Err_0,
                UsageContext::Send,
                "Specify one of --room-id, template room_id, or default_room_id."@,
            ),
            Some(room) => match render_spec(body, map_of(ps)) {
                Err(issue) => r is Err && is_render_issue_error(r->Err_0, UsageContext::Send, issue),
                Ok(text) => r is Ok && r->Ok_0 is Ready && r->Ok_0->room_id@ == room
                    && r->Ok_0->body@ == text && r->Ok_0->base_url@ == config.base_url@,
            },
        },
    }
}

/// Sends a template whose body text is `body`: reads the variables, chooses the room and
/// renders the body.
pub fn finish_template_send(args: &SendArgs, config: &Config, template: &Template, body: &str) -> (r: Result<SendPlan, CliError>)
    ensures
        template_send_result(r, *args, *config, *template, body@),
{
    let vars = parse_vars(&args.vars, UsageContext::Send)?;
    let room_id = resolve_template_send_room_id(args, config, template)?;
    let rendered = render_template(body, &vars, UsageContext::Send)?;
    Ok(SendPlan::Ready { room_id, body: rendered, base_url: config.base_url.clone() })
}

/// The base URL of an optional configuration, or the default one.
pub open spec fn base_url_spec(config: Option<&Config>) -> Seq<char> {
    match config {
        Some(c) => c.base_url@,
        None => DEFAULT_BASE_URL@,
    }
}

/// What `send` does with its arguments and the configuration, if there is one: a
/// template name or `--message` (exactly one); a template needs the configuration.
pub fn resolve_send_request(args: &SendArgs, config: Option<&Config>, home: Option<&str>) -> (r: Result<
    SendPlan,
    CliError,
>)
    ensures
        match (args.name, args.message) {
            (Some(_), Some(_)) => r is Err && is_usage0(
                r->Err_0,
                UsageContext::Send,
                "Specify either a template name or --message, not both."@,
            ),
            (None, None) => r is Err && is_usage0(
                r->Err_0,
                UsageContext::Send,
                "Specify either a template name or --message."@,
            ),
            (Some(name), None) => match config {
                None => r is Err && is_usage0(
                    r->Err_0,
                    UsageContext::Send,
                    "A config file is required when using a template."@,
                ),
                Some(c) => match template_index(c.templates@, name@) {
                    None => r is Err && is_usage1(
                        r->Err_0,
                        UsageContext::Send,
                        "Template `{name}` was not found."@,
                        "name"@,
                        name@,
                    ),
                    Some(i) => {
                        let t = c.templates@[i].1;
                        match (t.body, t.body_file) {
                            (Some(b), None) => template_send_result(r, *args, *c, t, b@),
                            (None, Some(f)) => r is Ok && r->Ok_0 is ReadBodyFile
                                && r->Ok_0->path@ == body_path_spec(*c, f@, opt_view(home)),
                            _ => r is Err && is_body_source_error(r->Err_0, UsageContext::Send, name@),
                        }
                    },
                },
            },
            (None, Some(m)) => if args.vars@.len() > 0 {
                r is Err && is_usage0(
                    r->Err_0,
                    UsageContext::Send,
                    "Do not use --var together with --message."@,
                )
            } else {
                match first_given(opt_string_view(args.room_id), config_room(config), None) {
                    None => r is Err && is_usage0(
                        r->Err_0,
                        UsageContext::Send,
                        "Specify one of --room-id or default_room_id when using --message."@,
                    ),
                    Some(room) => r is Ok && r->Ok_0 is Ready && r->Ok_0->room_id@ == room
                        && r->Ok_0->body@ == m@ && r->Ok_0->base_url@ == base_url_spec(config),
                }
            },
        },
{
    match (&args.name, &args.message) {
        (Some(_), Some(_)) => Err(
            usage_error(
                UsageContext::Send,
                msg0("Specify either a template name or --message, not both."),
            ),
        ),
        (None, None) => Err(
            usage_error(UsageContext::Send, msg0("Specify either a template name or --message.")),
        ),
        (Some(name), None) => {
            let c = match config {
                Some(c) => c,
                None => {
                    return Err(
                        usage_error(
                            UsageContext::Send,
                            msg0("A config file is required when using a template."),
                        ),
                    );
                },
            };
            let template = get_template(c, name.as_str(), UsageContext::Send)?;
            let body = resolve_template_body(c, name.as_str(), template, UsageContext::Send, home)?;
            match body {
                TemplateBody::Inline(text) => finish_template_send(args, c, template, text.as_str()),
                TemplateBody::File(path) => Ok(SendPlan::ReadBodyFile { path }),
            }
        },
        (None, Some(message)) => {
            if args.vars.len() > 0 {
                return Err(
                    usage_error(
                        UsageContext::Send,
                        msg0("Do not use --var together with --message."),
                    ),
                );
            }
            let room_id = resolve_raw_message_room_id(args, config)?;
            let base_url = match config {
                Some(c) => c.base_url.clone(),
                None => default_base_url(),
            };
            Ok(SendPlan::Ready { room_id, body: message.clone(), base_url })
        },
    }
}

/// A template has its text in exactly one of `body` and `body_file`.
pub open spec fn has_one_body_source(t: Template) -> bool {
    t.body is Some != t.body_file is Some
}

/// Checks that every template has exactly one body source; the error names the first
/// that does not.
pub fn validate_templates(config: &Config) -> (r: Result<(), CliError>)
    requires
        names_ascending(config.templates@),
    ensures
        r is Ok <==> forall|i: int|
            0 <= i < config.templates@.len() ==> has_one_body_source(
                (#[trigger] config.templates@[i]).1,
            ),
        r is Err ==> exists|i: int|
            0 <= i < config.templates@.len() && !has_one_body_source(
                (#[trigger] config.templates@[i]).1,
            ) && (forall|j: int|
                0 <= j < i ==> has_one_body_source(config.templates@[j].1)) && is_general1(
                r->Err_0,
                "Template `{name}` must specify exactly one of body or body_file."@,
                "name"@,
                config.templates@[i].0@,
            ) && (forall|j: int|
                0 <= j < config.templates@.len() && j != i && !has_one_body_source(
                    config.templates@[j].1,
                ) ==> seq_less(config.templates@[i].0@, config.templates@[j].0@)),
{
    let mut i: usize = 0;
    while i < config.templates.len()
        invariant
            i <= config.templates@.len(),
            names_ascending(config.templates@),
            forall|j: int| 0 <= j < i ==> has_one_body_source(config.templates@[j].1),
        decreases config.templates@.len() - i,
    {
        let entry = &config.templates[i];
        if entry.1.body.is_some() == entry.1.body_file.is_some() {
            let e = general_error(
                msg1(
                    "Template `{name}` must specify exactly one of body or body_file.",
                    "name",
                    entry.0.clone(),
                ),
            );
            assert(!has_one_body_source(config.templates@[i as int].1));
            assert(forall|j: int|
                0 <= j < config.templates@.len() && j != i && !has_one_body_source(
                    config.templates@[j].1,
                ) ==> seq_less(config.templates@[i as int].0@, config.templates@[j].0@));
            return Err(e);
        }
        i += 1;
    }
    Ok(())
}

/// The line that lists a template: its name, and a tab and its description if it has one.
pub open spec fn list_line(name: Seq<char>, description: Option<Seq<char>>) -> Seq<char> {
    match description {
        Some(d) => name + "\t"@ + d,
        None => name,
    }
}

/// The output of `template list`: one line per template, or a notice when there is none.
pub fn template_list_lines(config: &Config) -> (r: Vec<Message>)
    requires
        names_ascending(config.templates@),
    ensures
        config.templates@.len() == 0 ==> r@.len() == 1 && crate::message::is_msg0(
            r@[0],
            "No templates are registered."@,
        ),
        config.templates@.len() > 0 ==> r@.len() == config.templates@.len() && forall|i: int|
            0 <= i < r@.len() ==> (#[trigger] r@[i]) is Verbatim && r@[i]->Verbatim_0@
                == list_line(
                config.templates@[i].0@,
                opt_string_view(config.templates@[i].1.description),
            ),
{
    let mut lines: Vec<Message> = Vec::new();
    if config.templates.len() == 0 {
        lines.push(msg0("No templates are registered."));
        return lines;
    }
    let mut i: usize = 0;
    while i < config.templates.len()
        invariant
            i <= config.templates@.len(),
            lines@.len() == i,
            forall|k: int|
                0 <= k < i ==> (#[trigger] lines@[k]) is Verbatim && lines@[k]->Verbatim_0@
                    == list_line(
                    config.templates@[k].0@,
                    opt_string_view(config.templates@[k].1.description),
                ),
        decreases config.templates@.len() - i,
    {
        let entry = &config.templates[i];
        let mut line = chars_of(entry.0.as_str());
        if let Some(d) = &entry.1.description {
            push_all(&mut line, &chars_of("\t"));
            push_all(&mut line, &chars_of(d.as_str()));
        }
        assert(line@ =~= list_line(entry.0@, opt_string_view(entry.1.description)));
        lines.push(Message::Verbatim(string_of(&line)));
        i += 1;
    }
    lines
}

/// The completion line of a template: its name, and with `describe` a tab and its
/// description (empty if it has none).
pub open spec fn completion_line(name: Seq<char>, description: Option<Seq<char>>, describe: bool) -> Seq<char> {
    if describe {
        name + "\t"@ + match description {
            Some(d) => d,
            None => Seq::empty(),
        }
    } else {
        name
    }
}

/// The completion lines of the templates whose names start with `current`, in order.
pub open spec fn completion_lines(ts: Seq<(String, Template)>, current: Seq<char>, describe: bool) -> Seq<Seq<char>>
    decreases ts.len(),
{
    if ts.len() == 0 {
        Seq::empty()
    } else {
        let rest = completion_lines(ts.drop_last(), current, describe);
        let t = ts.last();
        if starts_with_spec(t.0@, current) {
            rest.push(completion_line(t.0@, opt_string_view(t.1.description), describe))
        } else {
            rest
        }
    }
}

/// The template names offered to shell completion for the word `current`.
pub fn complete_template_lines(config: &Config, current: &str, describe: bool) -> (r: Vec<String>)
    requires
        names_ascending(config.templates@),
    ensures
        strings_view(r@) == completion_lines(config.templates@, current@, describe),
{
    let cur = chars_of(current);
    let mut lines: Vec<String> = Vec::new();
    let mut i: usize = 0;
    while i < config.templates.len()
        invariant
            i <= config.templates@.len(),
            cur@ == current@,
            strings_view(lines@) == completion_lines(
                config.templates@.take(i as int),
                current@,
                describe,
            ),
        decreases config.templates@.len() - i,
    {
        let entry = &config.templates[i];
        let name = chars_of(entry.0.as_str());
        proof {
            assert(config.templates@.take(i + 1).drop_last() =~= config.templates@.take(i as int));
            assert(config.templates@.take(i + 1).last() == *entry);
        }
        if starts_with(&name, &cur) {
            let mut line = name.clone();
            if describe {
                push_all(&mut line, &chars_of("\t"));
                match &entry.1.description {
                    Some(d) => push_all(&mut line, &chars_of(d.as_str())),
                    None => {},
                }
            }
            proof {
                if describe && entry.1.description is None {
                    assert(line@ =~= entry.0@ + "\t"@ + Seq::<char>::empty());
                }
            }
            assert(line@ =~= completion_line(entry.0@, opt_string_view(entry.1.description), describe));
            let ghost before = lines@;
            lines.push(string_of(&line));
            assert(strings_view(lines@) =~= strings_view(before).push(line@));
        }
        i += 1;
    }
    assert(config.templates@.take(i as int) =~= config.templates@);
    lines
}

/// What `std::path::Path::parent` gives for the path `p`, as a string: the path without
/// its last component, or `None` for the empty path and for a root.
pub uninterp spec fn path_parent_of(p: Seq<char>) -> Option<Seq<char>>;

/// The parent directory of a path, by `std::path::Path::parent`. Trusted: the contract
/// claims only that the result is a function of the path (`path_parent_of`); how the
/// path is split into components is left unsaid.
#[verifier::external_body]
fn path_parent(path: &str) -> (r: Option<String>)
    ensures
        match r {
            Some(s) => path_parent_of(path@) == Some(s@),
            None => path_parent_of(path@) is None,
        },
{
    match std::path::Path::new(path).parent() {
        Some(p) => Some(p.to_string_lossy().into_owned()),
        None => None,
    }
}

/// The directory of the configuration file at `path`: its parent, or `.` when it has none.
pub open spec fn config_dir_spec(path: Seq<char>) -> Seq<char> {
    match path_parent_of(path) {
        Some(d) => d,
        None => "."@,
    }
}

/// Completes a configuration read from the file at `path`: it records the directory of
/// the file, and checks that there are templates and that each has one body source.
pub fn load_config(path: &str, parsed: Config) -> (r: Result<Config, CliError>)
    requires
        names_ascending(parsed.templates@),
    ensures
        parsed.templates@.len() == 0 ==> r is Err && is_general0(
            r->Err_0,
            "At least one template must be defined."@,
        ),
        parsed.templates@.len() > 0 ==> match validate_templates_spec(parsed.templates@) {
            Some(i) => r is Err && is_general1(
                r->Err_0,
                "Template `{name}` must specify exactly one of body or body_file."@,
                "name"@,
                parsed.templates@[i].0@,
            ) && (forall|j: int|
                0 <= j < parsed.templates@.len() && j != i && !has_one_body_source(
                    parsed.templates@[j].1,
                ) ==> seq_less(parsed.templates@[i].0@, parsed.templates@[j].0@)),
            None => r is Ok && r->Ok_0.config_dir@ == config_dir_spec(path@)
                && r->Ok_0.templates == parsed.templates && r->Ok_0.default_room_id
                == parsed.default_room_id && r->Ok_0.base_url == parsed.base_url
                && r->Ok_0.templates_prefix == parsed.templates_prefix,
        },
{
    let mut config = parsed;
    config.config_dir = match path_parent(path) {
        Some(d) => d,
        None => ".".to_owned(),
    };
    if config.templates.len() == 0 {
        return Err(general_error(msg0("At least one template must be defined.")));
    }
    match validate_templates(&config) {
        Ok(()) => {
            proof {
                lemma_first_invalid_none(config.templates@);
            }
            Ok(config)
        },
        Err(e) => {
            proof {
                let i = choose|i: int|
                    0 <= i < config.templates@.len() && !has_one_body_source(
                        (#[trigger] config.templates@[i]).1,
                    ) && (forall|j: int|
                        0 <= j < i ==> has_one_body_source(config.templates@[j].1)) && is_general1(
                        e,
                        "Template `{name}` must specify exactly one of body or body_file."@,
                        "name"@,
                        config.templates@[i].0@,
                    );
                lemma_first_invalid_some(config.templates@, i);
            }
            Err(e)
        },
    }
}

/// The index of the first template without exactly one body source.
pub open spec fn first_invalid_from(ts: Seq<(String, Template)>, i: int) -> Option<int>
    decreases ts.len() - i,
{
    if i < 0 || i >= ts.len() {
        None
    } else if !has_one_body_source(ts[i].1) {
        Some(i)
    } else {
        first_invalid_from(ts, i + 1)
    }
}

/// The index of the first template without exactly one body source, if there is one.
pub open spec fn validate_templates_spec(ts: Seq<(String, Template)>) -> Option<int> {
    first_invalid_from(ts, 0)
}

proof fn lemma_first_invalid_from(ts: Seq<(String, Template)>, i: int)
    requires
        0 <= i,
    ensures
        match first_invalid_from(ts, i) {
            Some(j) => i <= j < ts.len() && !has_one_body_source(ts[j].1) && forall|k: int|
                i <= k < j ==> has_one_body_source(#[trigger] ts[k].1),
            None => forall|k: int| i <= k < ts.len() ==> has_one_body_source(#[trigger] ts[k].1),
        },
    decreases ts.len() - i,
{
    if i < ts.len() && has_one_body_source(ts[i].1) {
        lemma_first_invalid_from(ts, i + 1);
    }
}

proof fn lemma_first_invalid_none(ts: Seq<(String, Template)>)
    requires
        forall|i: int| 0 <= i < ts.len() ==> has_one_body_source((#[trigger] ts[i]).1),
    ensures
        validate_templates_spec(ts) is None,
{
    lemma_first_invalid_from(ts, 0);
    if let Some(j) = validate_templates_spec(ts) {
        assert(has_one_body_source(ts[j].1));
    }
}

proof fn lemma_first_invalid_some(ts: Seq<(String, Template)>, i: int)
    requires
        0 <= i < ts.len(),
        !has_one_body_source(ts[i].1),
        forall|j: int| 0 <= j < i ==> has_one_body_source(ts[j].1),
    ensures
        validate_templates_spec(ts) == Some(i),
{
    lemma_first_invalid_from(ts, 0);
    match validate_templates_spec(ts) {
        Some(j) => {
            if j < i {
                assert(has_one_body_source(ts[j].1));
            } else if j > i {
                assert(has_one_body_source(ts[i].1));
            }
        },
        None => {
            assert(has_one_body_source(ts[i].1));
        },
    }
}

/// Only a variable that is missing from the map is reported as not set: a variable set to
/// any value, the empty one included, never is.
pub proof fn lemma_render_unset_means_missing(body: Seq<char>, vars: Map<Seq<char>, Seq<char>>)
    ensures
        render_spec(body, vars) matches Err(RenderIssue::Unset(k)) ==> !vars.contains_key(k),
    decreases body.len(),
{
    if let Some(start) = find_spec(body, PLACEHOLDER_OPEN@) {
        let after = body.skip(start + PLACEHOLDER_OPEN@.len());
        if let Some(end) = find_spec(after, PLACEHOLDER_CLOSE@) {
            let key = trim_spec(after.take(end));
            if key.len() > 0 && vars.contains_key(key) {
                lemma_find_from(body, PLACEHOLDER_OPEN@, 0);
                lemma_find_from(after, PLACEHOLDER_CLOSE@, 0);
                reveal_strlit("{{");
                reveal_strlit("}}");
                lemma_render_unset_means_missing(after.skip(end + PLACEHOLDER_CLOSE@.len()), vars);
            }
        }
    }
}

/// A body that is one placeholder `{{key}}` of a set variable renders as the variable's
/// value, whatever it is (the empty value included).
pub proof fn lemma_render_single_placeholder(key: Seq<char>, vars: Map<Seq<char>, Seq<char>>)
    requires
        key.len() > 0,
        trim_spec(key) == key,
        forall|i: int| 0 <= i < key.len() ==> key[i] != '}',
        vars.contains_key(key),
    ensures
        render_spec(PLACEHOLDER_OPEN@ + key + PLACEHOLDER_CLOSE@, vars) == Ok::<Seq<char>, RenderIssue>(
            vars[key],
        ),
{
    reveal_strlit("{{");
    reveal_strlit("}}");
    let body = PLACEHOLDER_OPEN@ + key + PLACEHOLDER_CLOSE@;
    assert(crate::text::occurs_at(body, PLACEHOLDER_OPEN@, 0)) by {
        assert(body.subrange(0, 2) =~= PLACEHOLDER_OPEN@);
    }
    crate::text::lemma_find_from_first(body, PLACEHOLDER_OPEN@, 0, 0);
    let after = body.skip(2);
    assert(after =~= key + PLACEHOLDER_CLOSE@);
    let n = key.len() as int;
    assert(crate::text::occurs_at(after, PLACEHOLDER_CLOSE@, n)) by {
        assert(after.subrange(n, n + 2) =~= PLACEHOLDER_CLOSE@);
    }
    assert forall|i: int| 0 <= i < n implies !crate::text::occurs_at(after, PLACEHOLDER_CLOSE@, i) by {
        if crate::text::occurs_at(after, PLACEHOLDER_CLOSE@, i) {
            assert(after.subrange(i, i + 2)[0] == after[i]);
            assert(after[i] == key[i]);
        }
    }
    crate::text::lemma_find_from_first(after, PLACEHOLDER_CLOSE@, 0, n);
    assert(after.take(n) =~= key);
    let rest = after.skip(n + 2);
    assert(rest =~= Seq::<char>::empty());
    assert(find_spec(rest, PLACEHOLDER_OPEN@) is None);
    assert(render_spec(rest, vars) == Ok::<Seq<char>, RenderIssue>(rest));
    assert(find_spec(body, PLACEHOLDER_OPEN@) == Some(0int));
    assert(find_spec(after, PLACEHOLDER_CLOSE@) == Some(n));
    assert(trim_spec(after.take(n)) == key);
    assert(after.skip(n + PLACEHOLDER_CLOSE@.len()) == rest);
    assert(body.take(0) + vars[key] + rest =~= vars[key]);
}

/// Text before a placeholder is kept as it is: a body made of text without `{` and then a
/// placeholder `{{key}}` of a set variable renders as that text, the variable's value (the
/// empty value included) and what the remainder renders as; a problem in the remainder is
/// the problem of the whole body.
pub proof fn lemma_render_text_then_placeholder(
    pre: Seq<char>,
    key: Seq<char>,
    post: Seq<char>,
    vars: Map<Seq<char>, Seq<char>>,
)
    requires
        forall|i: int| 0 <= i < pre.len() ==> pre[i] != '{',
        key.len() > 0,
        trim_spec(key) == key,
        forall|i: int| 0 <= i < key.len() ==> key[i] != '}',
        vars.contains_key(key),
    ensures
        render_spec(pre + PLACEHOLDER_OPEN@ + key + PLACEHOLDER_CLOSE@ + post, vars) == match render_spec(
            post,
            vars,
        ) {
            Ok(more) => Ok::<Seq<char>, RenderIssue>(pre + vars[key] + more),
            Err(e) => Err(e),
        },
{
    reveal_strlit("{{");
    reveal_strlit("}}");
    let body = pre + PLACEHOLDER_OPEN@ + key + PLACEHOLDER_CLOSE@ + post;
    let m = pre.len() as int;
    assert(crate::text::occurs_at(body, PLACEHOLDER_OPEN@, m)) by {
        assert(body.subrange(m, m + 2) =~= PLACEHOLDER_OPEN@);
    }
    assert forall|i: int| 0 <= i < m implies !crate::text::occurs_at(body, PLACEHOLDER_OPEN@, i) by {
        if crate::text::occurs_at(body, PLACEHOLDER_OPEN@, i) {
            assert(body.subrange(i, i + 2)[0] == body[i]);
            assert(body[i] == pre[i]);
        }
    }
    crate::text::lemma_find_from_first(body, PLACEHOLDER_OPEN@, 0, m);
    let after = body.skip(m + 2);
    assert(after =~= key + PLACEHOLDER_CLOSE@ + post);
    let n = key.len() as int;
    assert(crate::text::occurs_at(after, PLACEHOLDER_CLOSE@, n)) by {
        assert(after.subrange(n, n + 2) =~= PLACEHOLDER_CLOSE@);
    }
    assert forall|i: int| 0 <= i < n implies !crate::text::occurs_at(after, PLACEHOLDER_CLOSE@, i) by {
        if crate::text::occurs_at(after, PLACEHOLDER_CLOSE@, i) {
            assert(after.subrange(i, i + 2)[0] == after[i]);
            assert(after[i] == key[i]);
        }
    }
    crate::text::lemma_find_from_first(after, PLACEHOLDER_CLOSE@, 0, n);
    assert(after.take(n) =~= key);
    let rest = after.skip(n + 2);
    assert(rest =~= post);
    assert(find_spec(body, PLACEHOLDER_OPEN@) == Some(m));
    assert(find_spec(after, PLACEHOLDER_CLOSE@) == Some(n));
    assert(trim_spec(after.take(n)) == key);
    assert(after.skip(n + PLACEHOLDER_CLOSE@.len()) == post);
    assert(body.take(m) =~= pre);
}

} // verus!
