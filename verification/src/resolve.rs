//! App definitions and the recursive runner resolver. An app's binary is
//! either a literal executable, or `@` followed by another app's query name (a
//! runner reference). Resolution walks the runner chain outermost-first,
//! tracking visited runner names to detect self-reference, then combines the
//! layers innermost-first: each outer layer's arguments are sandwiched around
//! the inner result's (or replace them when the inner result has none), and
//! each outer layer's environment overrides win per key.

use vstd::prelude::*;
use vstd::string::*;
use crate::args::{sandwich_args, sandwich_spec};
use crate::errors::LauncherError;
use crate::launcher::ResolvedParts;
use crate::strmap::StrMap;
use crate::text::{clone_string_vec, seq_views, vec_contains_string};

verus! {

/// Display-only metadata of an app definition; it plays no part in
/// resolution.
pub struct Meta {
    /// A human-readable name.
    pub name: Option<String>,
    /// A short description.
    pub description: Option<String>,
    /// A version string.
    pub version: Option<String>,
}

/// The execution part of an app definition.
pub struct Exec {
    /// A literal executable, or `@` followed by another app's query name.
    pub bin: String,
    /// The arguments, which may hold the injection marker `%!` once.
    pub args: Vec<String>,
}

/// One loaded app definition.
pub struct App {
    /// Display-only metadata, when present.
    pub meta: Option<Meta>,
    /// What to execute (named `run` because `exec` is reserved here).
    pub run: Exec,
    /// Per-app environment overrides, when present.
    pub env: Option<StrMap>,
}

impl App {
    /// Well-formedness: the environment table, when present, holds distinct
    /// keys.
    pub open spec fn wf(&self) -> bool {
        match self.env {
            Some(e) => e.wf(),
            None => true,
        }
    }
}

/// Whether a binary field is a runner reference: it starts with the marker.
pub open spec fn is_runner(bin: Seq<char>) -> bool {
    bin.len() >= 1 && bin[0] == '@'
}

/// The referenced app's query name: everything after the marker.
pub open spec fn runner_name(bin: Seq<char>) -> Seq<char> {
    bin.skip(1)
}

/// An app's environment overrides, empty when it declares none.
pub open spec fn app_env(a: App) -> Map<Seq<char>, Seq<char>> {
    match a.env {
        Some(e) => e@,
        None => Map::empty(),
    }
}

/// The binary of a combined runner chain: the innermost layer's.
pub open spec fn combined_bin(layers: Seq<App>) -> Seq<char> {
    layers.last().run.bin@
}

/// The arguments of a combined runner chain, unwound innermost-first: a
/// layer's own arguments replace an empty inner result, and are otherwise
/// sandwiched into the inner result at its `%!`.
pub open spec fn combined_args(layers: Seq<App>) -> Seq<Seq<char>>
    decreases layers.len(),
{
    if layers.len() == 0 {
        Seq::empty()
    } else {
        let inner = combined_args(layers.drop_first());
        let own = seq_views(layers.first().run.args@);
        if inner.len() == 0 {
            own
        } else {
            sandwich_spec(inner, own)
        }
    }
}

/// The environment of a combined runner chain: each outer layer's overrides
/// laid over the inner result's, so the outermost layer wins per key.
pub open spec fn combined_env(layers: Seq<App>) -> Map<Seq<char>, Seq<char>>
    decreases layers.len(),
{
    if layers.len() == 0 {
        Map::empty()
    } else {
        combined_env(layers.drop_first()).union_prefer_right(app_env(layers.first()))
    }
}

/// Combines a runner chain (outermost layer first, innermost last, the
/// innermost with a literal binary) into one resolved launch.
fn combine_layers(layers: &Vec<App>) -> (r: ResolvedParts)
    requires
        layers@.len() >= 1,
        forall|i: int| 0 <= i < layers@.len() ==> (#[trigger] layers@[i]).wf(),
    ensures
        r.wf(),
        r.bin@ == combined_bin(layers@),
        seq_views(r.args@) == combined_args(layers@),
        r.env@ == combined_env(layers@),
{
    let n = layers.len();
    let bin = layers[n - 1].run.bin.clone();
    let mut args: Vec<String> = Vec::new();
    let mut env = StrMap::new();
    let mut i: usize = n;
    proof {
        assert(layers@.skip(n as int) =~= Seq::<App>::empty());
        assert(seq_views(args@) =~= combined_args(layers@.skip(n as int)));
    }
    while i > 0
        invariant
            n == layers@.len(),
            0 <= i <= n,
            forall|k: int| 0 <= k < layers@.len() ==> (#[trigger] layers@[k]).wf(),
            env.wf(),
            seq_views(args@) == combined_args(layers@.skip(i as int)),
            env@ == combined_env(layers@.skip(i as int)),
        decreases i,
    {
        i -= 1;
        let ghost inner_args = seq_views(args@);
        let ghost inner_env = env@;
        let own = clone_string_vec(&layers[i].run.args);
        if args.len() == 0 {
            args = own;
        } else {
            args = sandwich_args(args, own);
        }
        match &layers[i].env {
            Some(e) => {
                env.extend_from(e);
            },
            None => {
                proof {
                    assert(env@ =~= inner_env.union_prefer_right(Map::<Seq<char>, Seq<char>>::empty()));
                }
            },
        }
        proof {
            let rest = layers@.skip(i as int);
            assert(rest.drop_first() =~= layers@.skip(i + 1));
            assert(rest.first() == layers@[i as int]);
            assert(seq_views(args@) == combined_args(rest));
            assert(env@ == combined_env(rest));
        }
    }
    proof {
        assert(layers@.skip(0) =~= layers@);
    }
    ResolvedParts { bin, args, env }
}

/// One step of runner resolution: the chain is complete, or another app must
/// be loaded by name.
pub enum ResolveStep {
    /// The innermost layer had a literal binary: the combined launch.
    Done(ResolvedParts),
    /// The layer's binary references this app: load it and push it next.
    Need(String),
}

/// Walks a runner chain layer by layer. The caller pushes the queried app
/// first, then, for every `Need`, loads the named app and pushes it, until
/// `Done` or an error. Visited runner names are tracked so that a definition
/// chain that references itself is reported as a cycle rather than followed
/// forever.
pub struct DefResolver {
    layers: Vec<App>,
    visited: Vec<String>,
}

impl DefResolver {
    /// The layers pushed so far, outermost first.
    pub closed spec fn layer_seq(&self) -> Seq<App> {
        self.layers@
    }

    /// The runner names followed so far, in order.
    pub closed spec fn visited_seq(&self) -> Seq<Seq<char>> {
        seq_views(self.visited@)
    }

    /// Well-formedness: every pushed layer is well-formed.
    pub open spec fn wf(&self) -> bool {
        forall|i: int| 0 <= i < self.layer_seq().len() ==> (#[trigger] self.layer_seq()[i]).wf()
    }

    /// A resolver with nothing pushed yet.
    pub fn new() -> (r: DefResolver)
        ensures
            r.wf(),
            r.layer_seq() == Seq::<App>::empty(),
            r.visited_seq() == Seq::<Seq<char>>::empty(),
    {
        let r = DefResolver { layers: Vec::new(), visited: Vec::new() };
        proof {
            assert(r.layer_seq() =~= Seq::<App>::empty());
            assert(r.visited_seq() =~= Seq::<Seq<char>>::empty());
        }
        r
    }

    /// Pushes the next layer of the runner chain. A literal binary completes
    /// the chain and yields the combined launch; `@name` asks for `name` to
    /// be loaded next; a bare `@` is an invalid definition; and a runner name
    /// seen before is a cycle, reported with the full name chain.
    pub fn push_app(&mut self, app: App) -> (r: Result<ResolveStep, LauncherError>)
        requires
            old(self).wf(),
            app.wf(),
        ensures
            final(self).wf(),
            ({
                let bin = app.run.bin@;
                &&& (!is_runner(bin) ==> {
                    &&& r matches Ok(ResolveStep::Done(parts)) && parts.wf() && parts.bin@
                        == combined_bin(old(self).layer_seq().push(app)) && seq_views(parts.args@)
                        == combined_args(old(self).layer_seq().push(app)) && parts.env@
                        == combined_env(old(self).layer_seq().push(app))
                    &&& final(self).layer_seq() == old(self).layer_seq().push(app)
                    &&& final(self).visited_seq() == old(self).visited_seq()
                })
                &&& (is_runner(bin) && runner_name(bin).len() == 0 ==> {
                    &&& r matches Err(LauncherError::InvalidApp(p, reason)) && p@
                        == Seq::<char>::empty() && reason is Some
                    &&& final(self).layer_seq() == old(self).layer_seq()
                    &&& final(self).visited_seq() == old(self).visited_seq()
                })
                &&& (is_runner(bin) && runner_name(bin).len() > 0 && old(self).visited_seq().contains(
                    runner_name(bin),
                ) ==> {
                    &&& r matches Err(LauncherError::CircularAlias(c)) && seq_views(c@) == old(
                        self,
                    ).visited_seq().push(runner_name(bin))
                    &&& final(self).layer_seq() == old(self).layer_seq()
                    &&& final(self).visited_seq() == old(self).visited_seq()
                })
                &&& (is_runner(bin) && runner_name(bin).len() > 0 && !old(
                    self,
                ).visited_seq().contains(runner_name(bin)) ==> {
                    &&& r matches Ok(ResolveStep::Need(name)) && name@ == runner_name(bin)
                    &&& final(self).layer_seq() == old(self).layer_seq().push(app)
                    &&& final(self).visited_seq() == old(self).visited_seq().push(
                        runner_name(bin),
                    )
                })
            }),
    {
        let bin_len = app.run.bin.as_str().unicode_len();
        let runs = bin_len >= 1 && app.run.bin.as_str().get_char(0) == '@';
        if !runs {
            let ghost prev = self.layers@;
            self.layers.push(app);
            proof {
                assert(self.layer_seq() =~= prev.push(app));
                assert forall|i: int| 0 <= i < self.layer_seq().len() implies (
                #[trigger] self.layer_seq()[i]).wf() by {
                    if i < prev.len() {
                        assert(self.layer_seq()[i] == old(self).layer_seq()[i]);
                    } else {
                        assert(self.layer_seq()[i] == app);
                    }
                }
            }
            let parts = combine_layers(&self.layers);
            Ok(ResolveStep::Done(parts))
        } else if bin_len < 2 {
            proof {
                assert(runner_name(app.run.bin@).len() == 0);
            }
            Err(
                LauncherError::InvalidApp(
                    String::new(),
                    Some("app name cannot be empty!".to_owned()),
                ),
            )
        } else {
            let name: String = app.run.bin.as_str().substring_char(1, bin_len).to_owned();
            proof {
                assert(name@ =~= runner_name(app.run.bin@));
            }
            if vec_contains_string(&self.visited, &name) {
                let mut chain = clone_string_vec(&self.visited);
                let ghost before = seq_views(chain@);
                chain.push(name);
                proof {
                    assert(seq_views(chain@) =~= before.push(runner_name(app.run.bin@)));
                }
                Err(LauncherError::CircularAlias(chain))
            } else {
                let ghost prev_layers = self.layers@;
                let ghost prev_visited = seq_views(self.visited@);
                self.visited.push(name.clone());
                self.layers.push(app);
                proof {
                    assert(self.layer_seq() =~= prev_layers.push(app));
                    assert(self.visited_seq() =~= prev_visited.push(runner_name(app.run.bin@)));
                    assert forall|i: int| 0 <= i < self.layer_seq().len() implies (
                    #[trigger] self.layer_seq()[i]).wf() by {
                        if i < prev_layers.len() {
                            assert(self.layer_seq()[i] == old(self).layer_seq()[i]);
                        } else {
                            assert(self.layer_seq()[i] == app);
                        }
                    }
                }
                Ok(ResolveStep::Need(name))
            }
        }
    }
}

} // verus!
