//! Configuration directory (XDG Base Directory layout).
//!
//! The environment is read by the caller: these functions take the values of
//! `XDG_CONFIG_HOME` and `HOME` (absent when the variable is unset).

use crate::text::{chars_of, string_of};
use vstd::prelude::*;

verus! {

/// `base` with the relative path `part` adjoined, as `PathBuf::join` does on Unix:
/// a `/` separator is added unless `base` is empty or already ends in one.
pub open spec fn joined(base: Seq<char>, part: Seq<char>) -> Seq<char> {
    if base.len() == 0 || base.last() == '/' {
        base + part
    } else {
        base + seq!['/'] + part
    }
}

/// Adjoins the relative path `part` to `base`.
pub fn join_path(base: &str, part: &str) -> (r: String)
    ensures
        r@ == joined(base@, part@),
{
    let mut v = chars_of(base);
    let n = v.len();
    if n > 0 && v[n - 1] != '/' {
        v.push('/');
    }
    let mut p = chars_of(part);
    v.append(&mut p);
    string_of(&v)
}

/// The base configuration directory: `$XDG_CONFIG_HOME`, else `$HOME/.config`. As the
/// XDG Base Directory specification says, an empty `XDG_CONFIG_HOME` counts as unset.
pub open spec fn base_config_dir_of(xdg_config_home: Option<Seq<char>>, home: Option<Seq<char>>) -> Option<Seq<char>> {
    match xdg_config_home {
        Some(x) if x.len() > 0 => Some(x),
        _ => match home {
            Some(h) => Some(joined(h, ".config"@)),
            None => None,
        },
    }
}

/// The view of an optional text.
pub open spec fn opt_view(s: Option<&str>) -> Option<Seq<char>> {
    match s {
        Some(t) => Some(t@),
        None => None,
    }
}

/// The view of an optional string.
pub open spec fn opt_string_view(s: Option<String>) -> Option<Seq<char>> {
    match s {
        Some(t) => Some(t@),
        None => None,
    }
}

fn base_config_dir(xdg_config_home: Option<&str>, home: Option<&str>) -> (r: Option<String>)
    ensures
        opt_string_view(r) == base_config_dir_of(opt_view(xdg_config_home), opt_view(home)),
{
    let xdg = match xdg_config_home {
        Some(x) => if x.is_empty() { None } else { Some(x) },
        None => None,
    };
    match xdg {
        Some(x) => Some(x.to_string()),
        None => match home {
            Some(h) => Some(join_path(h, ".config")),
            None => None,
        },
    }
}

/// The configuration directory of the Amanda OS tools.
pub open spec fn config_dir_of(xdg_config_home: Option<Seq<char>>, home: Option<Seq<char>>) -> Option<Seq<char>> {
    match base_config_dir_of(xdg_config_home, home) {
        Some(b) => Some(joined(b, "amanda"@)),
        None => None,
    }
}

/// The configuration directory of the Amanda OS tools (`<base>/amanda`).
pub fn config_dir(xdg_config_home: Option<&str>, home: Option<&str>) -> (r: Option<String>)
    ensures
        opt_string_view(r) == config_dir_of(opt_view(xdg_config_home), opt_view(home)),
{
    match base_config_dir(xdg_config_home, home) {
        Some(b) => Some(join_path(b.as_str(), "amanda")),
        None => None,
    }
}

/// The default configuration file (`<base>/amanda/config.json`).
pub fn default_config_path(xdg_config_home: Option<&str>, home: Option<&str>) -> (r: Option<String>)
    ensures
        opt_string_view(r) == (match config_dir_of(opt_view(xdg_config_home), opt_view(home)) {
            Some(d) => Some(joined(d, "config.json"@)),
            None => None,
        }),
{
    match config_dir(xdg_config_home, home) {
        Some(d) => Some(join_path(d.as_str(), "config.json")),
        None => None,
    }
}

/// Joining keeps both parts whole: the result starts with `base`, ends with `part`, and
/// between them stands at most one added `/`.
pub proof fn lemma_joined_keeps_parts(base: Seq<char>, part: Seq<char>)
    ensures
        joined(base, part).take(base.len() as int) == base,
        joined(base, part).skip(joined(base, part).len() - part.len()) == part,
        joined(base, part).len() == base.len() + part.len() || (joined(base, part).len() == base.len() + part.len() + 1
            && joined(base, part)[base.len() as int] == '/'),
{
    let j = joined(base, part);
    assert(j.take(base.len() as int) =~= base);
    assert(j.skip(j.len() - part.len()) =~= part);
}

/// An empty `XDG_CONFIG_HOME` counts as unset, and a non-empty one decides the directory
/// whatever `HOME` is; without it, the directory is under `HOME`'s `.config`, and
/// without either there is none.
pub proof fn lemma_config_dir_sources(xdg: Seq<char>, home: Option<Seq<char>>, other_home: Option<Seq<char>>)
    ensures
        config_dir_of(Some(Seq::<char>::empty()), home) == config_dir_of(None, home),
        xdg.len() > 0 ==> config_dir_of(Some(xdg), home) == config_dir_of(Some(xdg), other_home),
        xdg.len() > 0 ==> config_dir_of(Some(xdg), home) == Some(joined(xdg, "amanda"@)),
        home matches Some(h) ==> config_dir_of(None, home) == Some(joined(joined(h, ".config"@), "amanda"@)),
        config_dir_of(None, None) is None,
{
}

} // verus!
