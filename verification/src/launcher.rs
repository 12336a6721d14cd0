//! The launcher: an index of known app names and the configuration, with
//! alias-chain resolution, query-to-app lookup, and launch preparation.

use vstd::prelude::*;
use vstd::string::*;
use vstd::seq_lib::*;
use vstd::set_lib::lemma_len_subset;
use crate::args::{sandwich_args, sandwich_spec};
use crate::config::Config;
use crate::errors::LauncherError;
use crate::expand::{expand_passes, expand_text, EXPANSION_PASSES};
use crate::strmap::{lemma_pairs_dom_finite, StrMap};
use crate::text::{
    leaf_of, leaf_spec, seq_views, slash_pred, space_pred, str_eq, trim_slashes, trim_spaces,
    trim_spec, vec_contains_string,
};

verus! {

/// A fully resolved launch: the literal binary, its argument list, and the
/// environment overrides, ready for placeholder expansion and hand-off to a
/// process-spawning collaborator.
pub struct ResolvedParts {
    /// The literal executable path or name.
    pub bin: String,
    /// The merged argument list.
    pub args: Vec<String>,
    /// The merged environment overrides; a later layer wins per key.
    pub env: StrMap,
}

impl ResolvedParts {
    /// Well-formedness: the environment table holds distinct keys.
    pub open spec fn wf(&self) -> bool {
        self.env.wf()
    }
}

/// The launcher: every known app name mapped to the path of its definition
/// file, and the loaded configuration.
pub struct Launcher {
    /// App name (relative, slash-separated, no extension) to definition path.
    pub apps: StrMap,
    /// The loaded configuration.
    pub config: Config,
}

impl Launcher {
    /// Well-formedness: the index and the configuration tables hold distinct
    /// keys.
    pub open spec fn wf(&self) -> bool {
        self.apps.wf() && self.config.wf()
    }
}

/// How one query resolves: it is the single match, or several candidates are
/// left to an interactive chooser.
pub enum FindOutcome {
    /// Exactly one app matched: the path of its definition.
    One(String),
    /// Several apps matched and interaction is permitted: their paths, in
    /// index order, for an external chooser.
    Many(Vec<String>),
}

/// Whether `chain` walks the alias map from `start`: it begins at `start`,
/// and every element maps to the next.
pub open spec fn is_alias_walk(
    alias: Map<Seq<char>, Seq<char>>,
    start: Seq<char>,
    chain: Seq<Seq<char>>,
) -> bool {
    &&& chain.len() >= 1
    &&& chain[0] == start
    &&& forall|i: int|
        0 <= i < chain.len() - 1 ==> alias.contains_key(#[trigger] chain[i]) && alias[chain[i]]
            == chain[i + 1]
}

/// Whether the walk closes a cycle: its last element repeats an earlier one.
pub open spec fn ends_in_repeat(chain: Seq<Seq<char>>) -> bool {
    chain.len() >= 2 && exists|j: int| 0 <= j < chain.len() - 1 && chain[j] == chain.last()
}

/// Whether the alias map holds a cycle reachable from `start`: some walk from
/// `start` repeats an element.
pub open spec fn has_reachable_cycle(alias: Map<Seq<char>, Seq<char>>, start: Seq<char>) -> bool {
    exists|chain: Seq<Seq<char>>| is_alias_walk(alias, start, chain) && ends_in_repeat(chain)
}

/// Walks from the same start agree position by position: each next element is
/// determined by the alias map.
proof fn lemma_walk_agree(
    alias: Map<Seq<char>, Seq<char>>,
    start: Seq<char>,
    w1: Seq<Seq<char>>,
    w2: Seq<Seq<char>>,
    i: int,
)
    requires
        is_alias_walk(alias, start, w1),
        is_alias_walk(alias, start, w2),
        0 <= i < w1.len(),
        i < w2.len(),
    ensures
        w1[i] == w2[i],
    decreases i,
{
    if i > 0 {
        lemma_walk_agree(alias, start, w1, w2, i - 1);
    }
}

/// A duplicate-free walk that ends outside the alias map's keys rules out any
/// reachable cycle: every walk from the start is one of its prefixes.
proof fn lemma_terminal_walk_no_cycle(
    alias: Map<Seq<char>, Seq<char>>,
    start: Seq<char>,
    chain: Seq<Seq<char>>,
)
    requires
        is_alias_walk(alias, start, chain),
        chain.no_duplicates(),
        !alias.contains_key(chain.last()),
    ensures
        !has_reachable_cycle(alias, start),
{
    assert forall|w: Seq<Seq<char>>| is_alias_walk(alias, start, w) implies !ends_in_repeat(w) by {
        if w.len() >= 2 {
            let n = chain.len() as int;
            if w.len() > chain.len() {
                lemma_walk_agree(alias, start, chain, w, n - 1);
                assert(w[n - 1] == chain.last());
                assert(alias.contains_key(w[n - 1]));
                assert(false);
            }
            assert forall|j: int| 0 <= j < w.len() implies w[j] == chain[j] by {
                lemma_walk_agree(alias, start, w, chain, j);
            }
            if ends_in_repeat(w) {
                let j = choose|j: int| 0 <= j < w.len() - 1 && w[j] == w.last();
                assert(chain[j] == chain[w.len() - 1]);
                assert(false);
            }
        }
    }
    if has_reachable_cycle(alias, start) {
        let w = choose|w: Seq<Seq<char>>| is_alias_walk(alias, start, w) && ends_in_repeat(w);
        assert(false);
    }
}

/// A query as the resolvers see it: surrounding blanks trimmed, then
/// surrounding `/` trimmed.
pub open spec fn trimmed_query(q: Seq<char>) -> Seq<char> {
    trim_spec(trim_spec(q, space_pred()), slash_pred())
}

/// One stage of following a query through the alias map.
pub enum QueryStep {
    /// The query trimmed to nothing.
    EmptyQuery,
    /// Alias resolution revisited a name; the stack walked, ending with the
    /// repeated name.
    Cycle(Seq<Seq<char>>),
    /// The query settled on a name that is no alias.
    Settled(Seq<char>),
    /// The fuel ran out (never reached from a sufficient bound).
    Spin,
}

/// Follows a query through the alias map: the trimmed query is rejected when
/// empty, reported as a cycle when already on the stack, followed through the
/// alias map when it names an alias, and settled otherwise.
pub open spec fn follow_query(
    alias: Map<Seq<char>, Seq<char>>,
    q: Seq<char>,
    stack: Seq<Seq<char>>,
    fuel: nat,
) -> QueryStep
    decreases fuel,
{
    let t = trimmed_query(q);
    if t.len() == 0 {
        QueryStep::EmptyQuery
    } else if stack.contains(t) {
        QueryStep::Cycle(stack.push(t))
    } else if alias.contains_key(t) {
        if fuel == 0 {
            QueryStep::Spin
        } else {
            follow_query(alias, alias[t], stack.push(t), (fuel - 1) as nat)
        }
    } else {
        QueryStep::Settled(t)
    }
}

/// Fuel that always suffices: one step per alias, plus one.
pub open spec fn query_fuel(l: Launcher) -> nat {
    (l.config.alias.key_seq().len() + 1) as nat
}

/// Where a query leads, starting with an empty resolution stack.
pub open spec fn query_target(l: Launcher, q: Seq<char>) -> QueryStep {
    follow_query(l.config.alias@, q, Seq::empty(), query_fuel(l))
}

/// Whether an app name answers to a query: by its full slash-qualified name
/// or by its last path segment.
pub open spec fn matches_query(name: Seq<char>, q: Seq<char>) -> bool {
    name == q || leaf_spec(name) == q
}

/// The paths of the apps whose names answer to `q`, in index order.
pub open spec fn candidate_paths(ks: Seq<Seq<char>>, vs: Seq<Seq<char>>, q: Seq<char>) -> Seq<
    Seq<char>,
>
    decreases ks.len(),
{
    if ks.len() == 0 || ks.len() != vs.len() {
        Seq::empty()
    } else {
        let rest = candidate_paths(ks.drop_last(), vs.drop_last(), q);
        if matches_query(ks.last(), q) {
            rest.push(vs.last())
        } else {
            rest
        }
    }
}

/// What `find_app` returns for a query: the single matching path, the
/// candidate list for an interactive chooser, or the error the query earns.
pub open spec fn find_app_post(
    l: Launcher,
    query: Seq<char>,
    tty: bool,
    r: Result<FindOutcome, LauncherError>,
) -> bool {
    let step = query_target(l, query);
    &&& !(step is Spin)
    &&& (step is EmptyQuery ==> (r matches Err(LauncherError::AppNotFound(s)) && s@
        == Seq::<char>::empty()))
    &&& (step matches QueryStep::Cycle(c) ==> (r matches Err(LauncherError::CircularAlias(chain))
        && seq_views(chain@) == c))
    &&& (step matches QueryStep::Settled(t) ==> {
        let cands = candidate_paths(l.apps.key_seq(), l.apps.val_seq(), t);
        &&& (cands.len() == 0 ==> (r matches Err(LauncherError::AppNotFound(s)) && s@ == t))
        &&& (cands.len() == 1 ==> (r matches Ok(FindOutcome::One(p)) && p@ == cands[0]))
        &&& (cands.len() > 1 && l.config.interactive && tty ==> (r matches Ok(
            FindOutcome::Many(v),
        ) && seq_views(v@) == cands))
        &&& (cands.len() > 1 && !(l.config.interactive && tty) ==> (r matches Err(
            LauncherError::AmbiguousQuery(s, v),
        ) && s@ == t && seq_views(v@) == cands))
    })
}

/// One fully expanded string: up to the bounded number of passes.
pub open spec fn expand_full(t: Seq<char>, cfg: Config) -> Seq<char> {
    expand_passes(t, cfg, EXPANSION_PASSES as nat)
}

/// Every argument fully expanded.
pub open spec fn expanded_args(v: Seq<Seq<char>>, cfg: Config) -> Seq<Seq<char>> {
    v.map_values(|t: Seq<char>| expand_full(t, cfg))
}

/// Every environment value fully expanded; the keys stay as they are.
pub open spec fn expanded_env(m: Map<Seq<char>, Seq<char>>, cfg: Config) -> Map<
    Seq<char>,
    Seq<char>,
> {
    m.map_values(|t: Seq<char>| expand_full(t, cfg))
}

/// Expands every `%key%` placeholder in `text` against the launcher's
/// configuration namespace: up to the bounded number of passes, stopping
/// early at a fixed point; unresolved placeholders stay verbatim. Never
/// fails.
pub fn expand_vars(text: &str, main: &Launcher) -> (r: String)
    requires
        main.wf(),
    ensures
        r@ == expand_full(text@, main.config),
{
    expand_text(text, &main.config)
}

impl Launcher {
    /// Follows the alias map from `start_key`, collecting every visited name
    /// (the start included). On success the chain ends at the first name that
    /// is no alias; a name about to repeat is reported as `CircularAlias`
    /// carrying the full chain, the repeated name last. A cycle is reported
    /// exactly when the alias map holds one reachable from the start.
    pub fn resolve_alias_chain(&self, start_key: &str) -> (r: Result<Vec<String>, LauncherError>)
        requires
            self.wf(),
        ensures
            match r {
                Ok(chain) => {
                    &&& is_alias_walk(self.config.alias@, start_key@, seq_views(chain@))
                    &&& seq_views(chain@).no_duplicates()
                    &&& !self.config.alias@.contains_key(seq_views(chain@).last())
                    &&& !has_reachable_cycle(self.config.alias@, start_key@)
                },
                Err(e) => {
                    &&& e matches LauncherError::CircularAlias(chain)
                    &&& is_alias_walk(self.config.alias@, start_key@, seq_views(chain@))
                    &&& ends_in_repeat(seq_views(chain@))
                    &&& seq_views(chain@).drop_last().no_duplicates()
                    &&& has_reachable_cycle(self.config.alias@, start_key@)
                },
            },
    {
        let ghost am = self.config.alias@;
        let ghost ks = self.config.alias.key_seq();
        let mut chain: Vec<String> = Vec::new();
        chain.push(start_key.to_owned());
        let mut current: String = start_key.to_owned();
        proof {
            assert(seq_views(chain@) =~= seq![start_key@]);
        }
        loop
            invariant
                self.wf(),
                am == self.config.alias@,
                ks == self.config.alias.key_seq(),
                seq_views(chain@).len() >= 1,
                is_alias_walk(am, start_key@, seq_views(chain@)),
                seq_views(chain@).no_duplicates(),
                current@ == seq_views(chain@).last(),
                seq_views(chain@).len() <= ks.len() + 1,
            decreases ks.len() + 2 - seq_views(chain@).len(),
        {
            let ghost cv = seq_views(chain@);
            let next_opt = self.config.alias.get(current.as_str());
            match next_opt {
                None => {
                    proof {
                        lemma_terminal_walk_no_cycle(am, start_key@, cv);
                    }
                    return Ok(chain);
                },
                Some(next) => {
                    let next_owned = next.clone();
                    proof {
                        // Every chain element is an alias key now: the walk
                        // covers all but the last, and the last was just
                        // looked up.
                        assert(forall|i: int|
                            0 <= i < cv.len() ==> am.contains_key(#[trigger] cv[i]));
                        cv.unique_seq_to_set();
                        seq_to_set_is_finite(cv);
                        assert(cv.to_set().subset_of(am.dom()));
                        lemma_pairs_dom_finite(ks, self.config.alias.val_seq());
                        lemma_len_subset(cv.to_set(), am.dom());
                        assert(cv.len() <= ks.len());
                    }
                    if vec_contains_string(&chain, &next_owned) {
                        chain.push(next_owned);
                        proof {
                            let cvp = seq_views(chain@);
                            assert(cvp =~= cv.push(next_owned@));
                            assert(cvp.drop_last() =~= cv);
                            assert(is_alias_walk(am, start_key@, cvp));
                            let j = choose|j: int| 0 <= j < cv.len() && cv[j] == next_owned@;
                            assert(cvp[j] == cvp.last());
                            assert(ends_in_repeat(cvp));
                            assert(has_reachable_cycle(am, start_key@));
                        }
                        return Err(LauncherError::CircularAlias(chain));
                    }
                    proof {
                        let cvp = cv.push(next_owned@);
                        assert(forall|i: int| 0 <= i < cv.len() ==> cvp[i] == cv[i]);
                        assert(cvp.no_duplicates());
                        assert(is_alias_walk(am, start_key@, cvp));
                    }
                    chain.push(next_owned.clone());
                    current = next_owned;
                    proof {
                        assert(seq_views(chain@) =~= cv.push(current@));
                    }
                },
            }
        }
    }

    /// The paths of every known app whose full name or leaf name equals `t`,
    /// in index order.
    fn collect_candidates(&self, t: &str) -> (r: Vec<String>)
        requires
            self.wf(),
        ensures
            seq_views(r@) == candidate_paths(self.apps.key_seq(), self.apps.val_seq(), t@),
    {
        let ghost ks = self.apps.key_seq();
        let ghost vs = self.apps.val_seq();
        let n = self.apps.len();
        let mut cands: Vec<String> = Vec::new();
        let mut i: usize = 0;
        proof {
            assert(ks.take(0) =~= Seq::<Seq<char>>::empty());
            assert(vs.take(0) =~= Seq::<Seq<char>>::empty());
            assert(seq_views(cands@) =~= candidate_paths(ks.take(0), vs.take(0), t@));
        }
        while i < n
            invariant
                self.wf(),
                ks == self.apps.key_seq(),
                vs == self.apps.val_seq(),
                n == ks.len(),
                i <= n,
                seq_views(cands@) == candidate_paths(ks.take(i as int), vs.take(i as int), t@),
            decreases n - i,
        {
            let name = self.apps.key_at(i);
            let hit = if str_eq(name.as_str(), t) {
                true
            } else {
                str_eq(leaf_of(name.as_str()), t)
            };
            proof {
                assert(ks.take(i + 1).drop_last() =~= ks.take(i as int));
                assert(vs.take(i + 1).drop_last() =~= vs.take(i as int));
                assert(ks.take(i + 1).last() == ks[i as int]);
                assert(vs.take(i + 1).last() == vs[i as int]);
            }
            if hit {
                let ghost before = seq_views(cands@);
                let p = self.apps.val_at(i);
                cands.push(p.clone());
                proof {
                    assert(seq_views(cands@) =~= before.push(vs[i as int]));
                }
            }
            i += 1;
        }
        proof {
            assert(ks.take(n as int) =~= ks);
            assert(vs.take(n as int) =~= vs);
        }
        cands
    }

    /// The name of the first indexed app whose definition path is `path`.
    pub fn name_for_path(&self, path: &str) -> (r: Option<String>)
        requires
            self.wf(),
        ensures
            match r {
                Some(name) => exists|i: int|
                    0 <= i < self.apps.key_seq().len() && #[trigger] self.apps.val_seq()[i]
                        == path@ && self.apps.key_seq()[i] == name@,
                None => forall|i: int|
                    0 <= i < self.apps.val_seq().len() ==> #[trigger] self.apps.val_seq()[i]
                        != path@,
            },
    {
        let n = self.apps.len();
        let mut i: usize = 0;
        while i < n
            invariant
                self.wf(),
                n == self.apps.key_seq().len(),
                i <= n,
                forall|j: int| 0 <= j < i ==> #[trigger] self.apps.val_seq()[j] != path@,
            decreases n - i,
        {
            if str_eq(self.apps.val_at(i).as_str(), path) {
                return Some(self.apps.key_at(i).clone());
            }
            i += 1;
        }
        None
    }

    /// Resolves a free-text query to an app definition path. Aliases are
    /// followed first (with cycle detection), then every known app whose full
    /// name or leaf name equals the settled query is collected: none is
    /// `AppNotFound`, one is the answer, and several are handed to an
    /// interactive chooser when the configuration and the output stream
    /// (`tty`) permit it, or reported as `AmbiguousQuery` otherwise.
    pub fn find_app(&self, query: &str, tty: bool) -> (r: Result<FindOutcome, LauncherError>)
        requires
            self.wf(),
        ensures
            find_app_post(*self, query@, tty, r),
    {
        let ghost am = self.config.alias@;
        let ghost ks = self.config.alias.key_seq();
        let ghost fuel0 = query_fuel(*self);
        let mut stack: Vec<String> = Vec::new();
        let mut q: String = query.to_owned();
        proof {
            assert(seq_views(stack@) =~= Seq::<Seq<char>>::empty());
        }
        loop
            invariant
                self.wf(),
                am == self.config.alias@,
                ks == self.config.alias.key_seq(),
                fuel0 == query_fuel(*self),
                seq_views(stack@).no_duplicates(),
                forall|i: int|
                    0 <= i < stack@.len() ==> am.contains_key(#[trigger] seq_views(stack@)[i]),
                stack@.len() < fuel0,
                query_target(*self, query@) == follow_query(
                    am,
                    q@,
                    seq_views(stack@),
                    (fuel0 - stack@.len()) as nat,
                ),
            decreases fuel0 - stack@.len(),
        {
            let ghost sv = seq_views(stack@);
            let ghost rem_fuel = (fuel0 - stack@.len()) as nat;
            let trimmed = trim_slashes(trim_spaces(q.as_str()));
            let t: String = trimmed.to_owned();
            proof {
                assert(t@ == trimmed_query(q@));
            }
            if t.as_str().is_empty() {
                proof {
                    assert(follow_query(am, q@, sv, rem_fuel) == QueryStep::EmptyQuery);
                    assert(t@ =~= Seq::<char>::empty());
                }
                return Err(LauncherError::AppNotFound(t));
            }
            if vec_contains_string(&stack, &t) {
                stack.push(t);
                proof {
                    assert(seq_views(stack@) =~= sv.push(trimmed_query(q@)));
                    assert(follow_query(am, q@, sv, rem_fuel) == QueryStep::Cycle(
                        seq_views(stack@),
                    ));
                }
                return Err(LauncherError::CircularAlias(stack));
            }
            match self.config.alias.get(t.as_str()) {
                Some(target) => {
                    let target_owned = target.clone();
                    proof {
                        assert(rem_fuel >= 1);
                        assert(follow_query(am, q@, sv, rem_fuel) == follow_query(
                            am,
                            am[t@],
                            sv.push(t@),
                            (rem_fuel - 1) as nat,
                        ));
                        let svp = sv.push(t@);
                        assert(forall|i: int| 0 <= i < sv.len() ==> svp[i] == sv[i]);
                        assert(svp.no_duplicates());
                        assert(forall|i: int|
                            0 <= i < svp.len() ==> am.contains_key(#[trigger] svp[i]));
                        svp.unique_seq_to_set();
                        seq_to_set_is_finite(svp);
                        assert(svp.to_set().subset_of(am.dom()));
                        lemma_pairs_dom_finite(ks, self.config.alias.val_seq());
                        lemma_len_subset(svp.to_set(), am.dom());
                        assert(svp.len() <= ks.len());
                    }
                    stack.push(t);
                    q = target_owned;
                    proof {
                        assert(seq_views(stack@) =~= sv.push(t@));
                    }
                },
                None => {
                    proof {
                        assert(follow_query(am, q@, sv, rem_fuel) == QueryStep::Settled(t@));
                    }
                    let cands = self.collect_candidates(t.as_str());
                    if cands.len() == 0 {
                        return Err(LauncherError::AppNotFound(t));
                    } else if cands.len() == 1 {
                        let p = cands[0].clone();
                        return Ok(FindOutcome::One(p));
                    } else if self.config.interactive && tty {
                        return Ok(FindOutcome::Many(cands));
                    } else {
                        return Err(LauncherError::AmbiguousQuery(t, cands));
                    }
                },
            }
        }
    }

    /// Every argument expanded against the configuration namespace.
    fn expand_args_all(&self, v: Vec<String>) -> (r: Vec<String>)
        requires
            self.wf(),
        ensures
            seq_views(r@) == expanded_args(seq_views(v@), self.config),
    {
        let ghost src = seq_views(v@);
        let n = v.len();
        let mut out: Vec<String> = Vec::new();
        let mut i: usize = 0;
        proof {
            assert(seq_views(out@) =~= src.take(0).map_values(
                |t: Seq<char>| expand_full(t, self.config),
            ));
        }
        while i < n
            invariant
                self.wf(),
                src == seq_views(v@),
                n == src.len(),
                i <= n,
                seq_views(out@) == src.take(i as int).map_values(
                    |t: Seq<char>| expand_full(t, self.config),
                ),
            decreases n - i,
        {
            let ghost before = seq_views(out@);
            let e = expand_text(v[i].as_str(), &self.config);
            out.push(e);
            proof {
                assert(seq_views(out@) =~= before.push(expand_full(src[i as int], self.config)));
                assert(seq_views(out@) =~= src.take(i + 1).map_values(
                    |t: Seq<char>| expand_full(t, self.config),
                ));
            }
            i += 1;
        }
        proof {
            assert(src.take(n as int) =~= src);
        }
        out
    }

    /// A copy of the environment with every value expanded against the
    /// configuration namespace; the keys stay as they are.
    fn expand_env_all(&self, m: &StrMap) -> (r: StrMap)
        requires
            self.wf(),
            m.wf(),
        ensures
            r.wf(),
            r@ == expanded_env(m@, self.config),
    {
        let ghost ks = m.key_seq();
        let ghost vs = m.val_seq();
        let n = m.len();
        let mut out = StrMap::new();
        let mut i: usize = 0;
        proof {
            assert(ks.take(0) =~= Seq::<Seq<char>>::empty());
            assert(vs.take(0) =~= Seq::<Seq<char>>::empty());
            assert(out@ =~= expanded_env(
                crate::strmap::pairs_to_map(ks.take(0), vs.take(0)),
                self.config,
            ));
        }
        while i < n
            invariant
                self.wf(),
                m.wf(),
                ks == m.key_seq(),
                vs == m.val_seq(),
                n == ks.len(),
                i <= n,
                out.wf(),
                out@ == expanded_env(
                    crate::strmap::pairs_to_map(ks.take(i as int), vs.take(i as int)),
                    self.config,
                ),
            decreases n - i,
        {
            let k = m.key_at(i).clone();
            let e = expand_text(m.val_at(i).as_str(), &self.config);
            out.insert(k, e);
            proof {
                let prefix = crate::strmap::pairs_to_map(ks.take(i as int), vs.take(i as int));
                assert(ks.take(i + 1).drop_last() =~= ks.take(i as int));
                assert(vs.take(i + 1).drop_last() =~= vs.take(i as int));
                assert(crate::strmap::pairs_to_map(ks.take(i + 1), vs.take(i + 1)) == prefix.insert(
                    ks[i as int],
                    vs[i as int],
                ));
                assert(expanded_env(prefix, self.config).insert(
                    ks[i as int],
                    expand_full(vs[i as int], self.config),
                ) =~= expanded_env(prefix.insert(ks[i as int], vs[i as int]), self.config));
            }
            i += 1;
        }
        proof {
            assert(ks.take(n as int) =~= ks);
            assert(vs.take(n as int) =~= vs);
        }
        out
    }

    /// Turns a resolved app and the caller's arguments and environment into
    /// the final launch triple: the caller's arguments are spliced into the
    /// resolved arguments at `%!`, the environments are layered so that the
    /// configuration's overrides beat the caller's and the app's own beat
    /// both, and every field is expanded against the configuration namespace.
    pub fn prepare_launch(&self, parts: ResolvedParts, cli_args: Vec<String>, cli_env: StrMap) -> (r:
        (String, Vec<String>, StrMap))
        requires
            self.wf(),
            parts.wf(),
            cli_env.wf(),
        ensures
            r.0@ == expand_full(parts.bin@, self.config),
            seq_views(r.1@) == expanded_args(
                sandwich_spec(seq_views(parts.args@), seq_views(cli_args@)),
                self.config,
            ),
            r.2.wf(),
            r.2@ == expanded_env(
                cli_env@.union_prefer_right(self.config.env@).union_prefer_right(parts.env@),
                self.config,
            ),
    {
        let merged_args = sandwich_args(parts.args, cli_args);
        let mut merged_env = cli_env;
        merged_env.extend_from(&self.config.env);
        merged_env.extend_from(&parts.env);
        let bin = expand_text(parts.bin.as_str(), &self.config);
        let final_args = self.expand_args_all(merged_args);
        let final_env = self.expand_env_all(&merged_env);
        (bin, final_args, final_env)
    }
}

} // verus!
