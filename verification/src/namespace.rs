//! The namespace resolver: a dotted key, split on `.`, is matched structurally
//! against the recognized configuration shapes and looked up in the
//! configuration. An unrecognized or undefined key resolves to nothing; there
//! is no error path.

use vstd::prelude::*;
use crate::config::Config;
use crate::text::{seq_views, split_dots, split_dots_exec, str_eq};

verus! {

/// A boolean rendered as configuration text.
pub open spec fn bool_text(b: bool) -> Seq<char> {
    if b {
        "true"@
    } else {
        "false"@
    }
}

/// The value a segmented key resolves to. Recognized shapes:
/// `config.interactive` (the flag as text), `config.editor` (the preference,
/// when set), `config.alias.K`, `config.vars.K`, `config.env.K` (lookups in
/// the respective tables), and the bare fallback `K` (a lookup among the
/// variables). Any other shape resolves to nothing.
pub open spec fn resolve_segs_spec(segs: Seq<Seq<char>>, cfg: Config) -> Option<Seq<char>> {
    if segs.len() == 2 && segs[0] == "config"@ && segs[1] == "interactive"@ {
        Some(bool_text(cfg.interactive))
    } else if segs.len() == 2 && segs[0] == "config"@ && segs[1] == "editor"@ {
        match cfg.editor {
            Some(e) => Some(e@),
            None => None,
        }
    } else if segs.len() == 3 && segs[0] == "config"@ && segs[1] == "alias"@ {
        if cfg.alias@.contains_key(segs[2]) {
            Some(cfg.alias@[segs[2]])
        } else {
            None
        }
    } else if segs.len() == 3 && segs[0] == "config"@ && segs[1] == "vars"@ {
        if cfg.vars@.contains_key(segs[2]) {
            Some(cfg.vars@[segs[2]])
        } else {
            None
        }
    } else if segs.len() == 3 && segs[0] == "config"@ && segs[1] == "env"@ {
        if cfg.env@.contains_key(segs[2]) {
            Some(cfg.env@[segs[2]])
        } else {
            None
        }
    } else if segs.len() == 1 {
        if cfg.vars@.contains_key(segs[0]) {
            Some(cfg.vars@[segs[0]])
        } else {
            None
        }
    } else {
        None
    }
}

/// The value a dotted key resolves to, keyed by the unsplit text.
pub open spec fn resolve_key_spec(key: Seq<char>, cfg: Config) -> Option<Seq<char>> {
    resolve_segs_spec(split_dots(key), cfg)
}

/// The flag as text: `true` or `false`.
fn bool_string(b: bool) -> (r: String)
    ensures
        r@ == bool_text(b),
{
    if b {
        "true".to_owned()
    } else {
        "false".to_owned()
    }
}

/// A lookup that hands the value out as an owned string.
fn get_cloned(m: &crate::strmap::StrMap, k: &String) -> (r: Option<String>)
    requires
        m.wf(),
    ensures
        match r {
            Some(v) => m@.contains_key(k@) && v@ == m@[k@],
            None => !m@.contains_key(k@),
        },
{
    match m.get(k.as_str()) {
        Some(v) => Some(v.clone()),
        None => None,
    }
}

/// Resolves a dotted key against the configuration namespace, or nothing when
/// the key has no recognized shape or no defined value.
pub fn resolve_key(key: &str, cfg: &Config) -> (r: Option<String>)
    requires
        cfg.wf(),
    ensures
        match r {
            Some(v) => resolve_key_spec(key@, *cfg) == Some(v@),
            None => resolve_key_spec(key@, *cfg) is None,
        },
{
    let segs = split_dots_exec(key);
    let ghost sv = split_dots(key@);
    proof {
        assert(seq_views(segs@) == sv);
        assert(forall|i: int| 0 <= i < segs@.len() ==> segs@[i]@ == sv[i]);
    }
    if segs.len() == 2 && str_eq(segs[0].as_str(), "config") {
        if str_eq(segs[1].as_str(), "interactive") {
            Some(bool_string(cfg.interactive))
        } else if str_eq(segs[1].as_str(), "editor") {
            match &cfg.editor {
                Some(e) => Some(e.clone()),
                None => None,
            }
        } else {
            None
        }
    } else if segs.len() == 3 && str_eq(segs[0].as_str(), "config") {
        if str_eq(segs[1].as_str(), "alias") {
            get_cloned(&cfg.alias, &segs[2])
        } else if str_eq(segs[1].as_str(), "vars") {
            get_cloned(&cfg.vars, &segs[2])
        } else if str_eq(segs[1].as_str(), "env") {
            get_cloned(&cfg.env, &segs[2])
        } else {
            None
        }
    } else if segs.len() == 1 {
        get_cloned(&cfg.vars, &segs[0])
    } else {
        None
    }
}

} // verus!
