//! Where the program keeps its files.

use crate::text::chars_of;
use vstd::prelude::*;

verus! {

/// What the environment says of the user's directories.
#[derive(Debug)]
pub struct ConfigEnv {
    /// `XDG_CONFIG_HOME`
    pub xdg_config_home: Option<String>,
    /// `HOME`
    pub home: Option<String>,
    /// `USERPROFILE`
    pub user_profile: Option<String>,
}

/// A relative path below a directory.
pub open spec fn below(dir: Seq<char>, part: Seq<char>) -> Seq<char> {
    if dir.len() == 0 || dir.last() == '/' {
        dir + part
    } else {
        dir.push('/') + part
    }
}

/// A relative path below a directory.
pub fn join_path(dir: &str, part: &str) -> (r: String)
    ensures
        r@ == below(dir@, part@),
{
    let chars = chars_of(dir);
    let mut out = dir.to_owned();
    if chars.len() > 0 && chars[chars.len() - 1] != '/' {
        out.push('/');
    }
    out.push_str(part);
    out
}

/// A text, or nothing.
pub open spec fn text_or(o: Option<String>, other: Seq<char>) -> Seq<char> {
    match o {
        Some(s) => s@,
        None => other,
    }
}

/// The directory for configuration: the one that the environment names, or else `.config` in the
/// home directory.
pub open spec fn config_home(env: ConfigEnv) -> Seq<char> {
    text_or(
        env.xdg_config_home,
        below(text_or(env.home, text_or(env.user_profile, Seq::empty())), ".config"@),
    )
}

/// The directory for configuration.
pub fn config_dir(env: &ConfigEnv) -> (r: String)
    ensures
        r@ == config_home(*env),
{
    if let Some(dir) = &env.xdg_config_home {
        return dir.clone();
    }
    let home: String = match &env.home {
        Some(h) => h.clone(),
        None => match &env.user_profile {
            Some(p) => p.clone(),
            None => String::new(),
        },
    };
    join_path(&home, ".config")
}

/// A file of the program in the directory for configuration.
pub open spec fn config_file(env: ConfigEnv, name: Seq<char>) -> Seq<char> {
    below(below(config_home(env), "lookout"@), name)
}

/// A file of the program in the directory for configuration.
pub fn file_in_config(env: &ConfigEnv, name: &str) -> (r: String)
    ensures
        r@ == config_file(*env, name@),
{
    join_path(&join_path(&config_dir(env), "lookout"), name)
}

} // verus!
