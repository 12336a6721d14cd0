//! The launcher's configuration: an interactivity flag, an editor preference,
//! and the alias, variable and environment tables.

use vstd::prelude::*;
use crate::strmap::StrMap;

verus! {

/// One loaded configuration. The three tables are independent namespaces:
/// `alias` maps shorthand names to query strings, `vars` holds values for
/// `%key%` placeholders, and `env` holds global environment overrides.
pub struct Config {
    /// Whether interactive prompts (disambiguation, confirmations) are
    /// permitted.
    pub interactive: bool,
    /// The preferred editor binary, when one is configured.
    pub editor: Option<String>,
    /// Alias name to target query string.
    pub alias: StrMap,
    /// Variable name to value, for placeholder expansion.
    pub vars: StrMap,
    /// Environment variable name to value, applied to every launch.
    pub env: StrMap,
}

impl Config {
    /// Well-formedness: each table holds distinct keys.
    pub open spec fn wf(&self) -> bool {
        self.alias.wf() && self.vars.wf() && self.env.wf()
    }

    /// A configuration with default settings and empty tables.
    pub fn new_default() -> (r: Config)
        ensures
            r.wf(),
            r.interactive == true,
            r.editor is None,
            r.alias@ == Map::<Seq<char>, Seq<char>>::empty(),
            r.vars@ == Map::<Seq<char>, Seq<char>>::empty(),
            r.env@ == Map::<Seq<char>, Seq<char>>::empty(),
    {
        Config {
            interactive: default_interactive(),
            editor: None,
            alias: StrMap::new(),
            vars: StrMap::new(),
            env: StrMap::new(),
        }
    }
}

/// Interactive prompts are enabled unless the configuration disables them.
pub fn default_interactive() -> (r: bool)
    ensures
        r == true,
{
    true
}

} // verus!
