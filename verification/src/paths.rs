//! File-system paths as strings: joining, `~` expansion, and the default locations of
//! the configuration files. The caller hands in the value of `HOME` (`None` when it is
//! unset), so that every function here is a function of its arguments.
use vstd::prelude::*;
use crate::message::{general_error, is_general0, msg0, CliError};
use crate::text::{chars_of, push_all, starts_with_spec, starts_with_str, string_of, slice_chars};

verus! {

/// The directory, below `$HOME/.config`, that holds the files of the client.
pub const APP_CONFIG_DIR: &'static str = "chatwork-cli";

/// The name of the configuration file.
pub const CONFIG_FILE_NAME: &'static str = "config.toml";

/// The name of the directory of template bodies.
pub const TEMPLATES_DIR_NAME: &'static str = "templates";

/// The name of the dotenv file.
pub const DOTENV_FILE_NAME: &'static str = ".env";

/// `path` names the file-system root or starts from it (`Path::is_absolute` on Unix).
pub open spec fn is_absolute_spec(path: Seq<char>) -> bool {
    path.len() > 0 && path[0] == '/'
}

/// `PathBuf::join` on Unix: an absolute `p` replaces `base`; otherwise `p` is appended,
/// with a `/` between the two unless `base` is empty or already ends with one.
pub open spec fn join_spec(base: Seq<char>, p: Seq<char>) -> Seq<char> {
    if is_absolute_spec(p) {
        p
    } else if base.len() == 0 || base.last() == '/' {
        base + p
    } else {
        base + seq!['/'] + p
    }
}

/// `path` with a leading `~` (alone, or followed by `/`) replaced by `home`.
pub open spec fn expand_home_spec(path: Seq<char>, home: Option<Seq<char>>) -> Seq<char> {
    match home {
        Some(h) => if path == "~"@ {
            h
        } else if starts_with_spec(path, "~/"@) {
            join_spec(h, path.skip("~/"@.len() as int))
        } else {
            path
        },
        None => path,
    }
}

/// The views of an optional string.
pub open spec fn opt_view(s: Option<&str>) -> Option<Seq<char>> {
    match s {
        Some(t) => Some(t@),
        None => None,
    }
}

/// `$HOME/.config/chatwork-cli/<name>`.
pub open spec fn app_file_spec(home: Seq<char>, name: Seq<char>) -> Seq<char> {
    join_spec(join_spec(join_spec(home, ".config"@), APP_CONFIG_DIR@), name)
}

/// `path` is absolute.
pub fn is_absolute(path: &str) -> (b: bool)
    ensures
        b == is_absolute_spec(path@),
{
    let v = chars_of(path);
    v.len() > 0 && v[0] == '/'
}

/// `PathBuf::from(base).join(p)`.
pub fn path_join(base: &str, p: &str) -> (r: String)
    ensures
        r@ == join_spec(base@, p@),
{
    let b = chars_of(base);
    let q = chars_of(p);
    if q.len() > 0 && q[0] == '/' {
        return string_of(&q);
    }
    let mut out = b.clone();
    if !(b.len() == 0 || b[b.len() - 1] == '/') {
        out.push('/');
    }
    push_all(&mut out, &q);
    proof {
        if !(b@.len() == 0 || b@.last() == '/') {
            assert(out@ =~= base@ + seq!['/'] + p@);
        } else {
            assert(out@ =~= base@ + p@);
        }
    }
    string_of(&out)
}

/// Expands a leading `~` of `path` to `home`; the path is kept as it is when `home` is
/// `None` or the path does not start with `~`.
pub fn expand_home(path: &str, home: Option<&str>) -> (r: String)
    ensures
        r@ == expand_home_spec(path@, opt_view(home)),
{
    let v = chars_of(path);
    match home {
        Some(h) => {
            if v.len() == 1 && v[0] == '~' {
                proof {
                    reveal_strlit("~");
                    assert(path@ =~= "~"@);
                }
                return h.to_owned();
            }
            proof {
                reveal_strlit("~");
                if v@.len() != 1 || v@[0] != '~' {
                    assert(path@ != "~"@);
                }
            }
            if starts_with_str(&v, "~/") {
                let n: usize = v.len();
                proof {
                    reveal_strlit("~/");
                }
                let suffix = slice_chars(&v, 2, n);
                assert(suffix@ =~= path@.skip("~/"@.len() as int));
                let s = string_of(&suffix);
                return path_join(h, s.as_str());
            }
            path.to_owned()
        },
        None => path.to_owned(),
    }
}

/// `$HOME/.config/chatwork-cli/<name>`.
fn app_file(home: &str, name: &str) -> (r: String)
    ensures
        r@ == app_file_spec(home@, name@),
{
    let a = path_join(home, ".config");
    let b = path_join(a.as_str(), APP_CONFIG_DIR);
    path_join(b.as_str(), name)
}

/// The error when the configuration path cannot be chosen.
pub open spec fn is_no_home_error(e: CliError) -> bool {
    is_general0(e, "HOME is unavailable. Specify `--config`."@)
}

/// The configuration file: `--config` with `~` expanded, else
/// `$HOME/.config/chatwork-cli/config.toml`; an error when neither is at hand.
pub fn resolve_config_path(path: Option<&str>, home: Option<&str>) -> (r: Result<String, CliError>)
    ensures
        match path {
            Some(p) => r is Ok && r->Ok_0@ == expand_home_spec(p@, opt_view(home)),
            None => match home {
                Some(h) => r is Ok && r->Ok_0@ == app_file_spec(h@, CONFIG_FILE_NAME@),
                None => r is Err && is_no_home_error(r->Err_0),
            },
        },
{
    match path {
        Some(p) => Ok(expand_home(p, home)),
        None => match home {
            Some(h) => Ok(app_file(h, CONFIG_FILE_NAME)),
            None => Err(general_error(msg0("HOME is unavailable. Specify `--config`."))),
        },
    }
}

/// Where template bodies are looked up when the configuration names no prefix:
/// `$HOME/.config/chatwork-cli/templates`, or `.config/chatwork-cli/templates` without a
/// home directory.
pub open spec fn default_templates_prefix_spec(home: Option<Seq<char>>) -> Seq<char> {
    match home {
        Some(h) => app_file_spec(h, TEMPLATES_DIR_NAME@),
        None => join_spec(join_spec(".config"@, APP_CONFIG_DIR@), TEMPLATES_DIR_NAME@),
    }
}

/// The default directory of template bodies.
pub fn default_templates_prefix(home: Option<&str>) -> (r: String)
    ensures
        r@ == default_templates_prefix_spec(opt_view(home)),
{
    match home {
        Some(h) => app_file(h, TEMPLATES_DIR_NAME),
        None => {
            let a = path_join(".config", APP_CONFIG_DIR);
            path_join(a.as_str(), TEMPLATES_DIR_NAME)
        },
    }
}

/// `<home>/.config/chatwork-cli/.env`.
pub fn default_dotenv_path_for_home(home: &str) -> (r: String)
    ensures
        r@ == app_file_spec(home@, DOTENV_FILE_NAME@),
{
    app_file(home, DOTENV_FILE_NAME)
}

/// The dotenv file read when the working directory has none: the one below the home
/// directory, if there is a home directory.
pub fn fallback_dotenv_path(home: Option<&str>) -> (r: Option<String>)
    ensures
        match home {
            Some(h) => r is Some && r->0@ == app_file_spec(h@, DOTENV_FILE_NAME@),
            None => r is None,
        },
{
    match home {
        Some(h) => Some(default_dotenv_path_for_home(h)),
        None => None,
    }
}

} // verus!
