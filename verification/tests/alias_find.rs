//! Alias-chain resolution and query-to-app lookup, on concrete values.

use ran::{Config, FindOutcome, Launcher, LauncherError, StrMap};

fn strs(v: &[&str]) -> Vec<String> {
    v.iter().map(|s| s.to_string()).collect()
}

fn map_of(pairs: &[(&str, &str)]) -> StrMap {
    let mut m = StrMap::new();
    for (k, v) in pairs {
        m.insert(k.to_string(), v.to_string());
    }
    m
}

fn launcher(apps: &[(&str, &str)], alias: &[(&str, &str)], interactive: bool) -> Launcher {
    Launcher {
        apps: map_of(apps),
        config: Config {
            interactive,
            editor: None,
            alias: map_of(alias),
            vars: StrMap::new(),
            env: StrMap::new(),
        },
    }
}

#[test]
fn alias_chain_follows_to_terminal() {
    let l = launcher(&[], &[("a", "b"), ("b", "c")], true);
    match l.resolve_alias_chain("a") {
        Ok(chain) => assert_eq!(chain, strs(&["a", "b", "c"])),
        Err(_) => panic!("acyclic chain must resolve"),
    }
}

#[test]
fn alias_chain_of_unaliased_name_is_itself() {
    let l = launcher(&[], &[("a", "b")], true);
    match l.resolve_alias_chain("z") {
        Ok(chain) => assert_eq!(chain, strs(&["z"])),
        Err(_) => panic!("a name that is no alias must resolve to itself"),
    }
}

#[test]
fn alias_chain_reports_two_step_cycle() {
    let l = launcher(&[], &[("a", "b"), ("b", "a")], true);
    match l.resolve_alias_chain("a") {
        Err(LauncherError::CircularAlias(chain)) => {
            assert_eq!(chain, strs(&["a", "b", "a"]));
        },
        _ => panic!("a cycle must be reported as CircularAlias"),
    }
}

#[test]
fn alias_chain_reports_self_cycle() {
    let l = launcher(&[], &[("a", "a")], true);
    match l.resolve_alias_chain("a") {
        Err(LauncherError::CircularAlias(chain)) => {
            assert_eq!(chain, strs(&["a", "a"]));
        },
        _ => panic!("a self-alias must be reported as CircularAlias"),
    }
}

#[test]
fn alias_chain_cycle_not_reachable_from_start() {
    let l = launcher(&[], &[("a", "b"), ("x", "y"), ("y", "x")], true);
    match l.resolve_alias_chain("a") {
        Ok(chain) => assert_eq!(chain, strs(&["a", "b"])),
        Err(_) => panic!("a cycle elsewhere must not affect this start"),
    }
}

#[test]
fn find_ambiguous_leaf_without_interaction() {
    let l = launcher(&[("games/doom", "p1"), ("tools/doom", "p2")], &[], false);
    match l.find_app("doom", true) {
        Err(LauncherError::AmbiguousQuery(q, cands)) => {
            assert_eq!(q, "doom");
            assert_eq!(cands, strs(&["p1", "p2"]));
        },
        _ => panic!("two leaf matches without interaction must be ambiguous"),
    }
}

#[test]
fn find_ambiguous_leaf_without_terminal() {
    let l = launcher(&[("games/doom", "p1"), ("tools/doom", "p2")], &[], true);
    match l.find_app("doom", false) {
        Err(LauncherError::AmbiguousQuery(q, cands)) => {
            assert_eq!(q, "doom");
            assert_eq!(cands, strs(&["p1", "p2"]));
        },
        _ => panic!("two leaf matches without a terminal must be ambiguous"),
    }
}

#[test]
fn find_ambiguous_leaf_interactive_hands_out_candidates() {
    let l = launcher(&[("games/doom", "p1"), ("tools/doom", "p2")], &[], true);
    match l.find_app("doom", true) {
        Ok(FindOutcome::Many(cands)) => assert_eq!(cands, strs(&["p1", "p2"])),
        _ => panic!("two matches with interaction permitted must be handed out"),
    }
}

#[test]
fn find_empty_query_fails() {
    let l = launcher(&[("games/doom", "p1")], &[], true);
    match l.find_app("", true) {
        Err(LauncherError::AppNotFound(q)) => assert_eq!(q, ""),
        _ => panic!("an empty query must be AppNotFound"),
    }
}

#[test]
fn find_slashes_only_query_fails() {
    let l = launcher(&[("games/doom", "p1")], &[], true);
    match l.find_app("///", true) {
        Err(LauncherError::AppNotFound(q)) => assert_eq!(q, ""),
        _ => panic!("a query of slashes must be AppNotFound"),
    }
}

#[test]
fn find_by_full_name() {
    let l = launcher(&[("games/doom", "p1"), ("tools/doom", "p2")], &[], true);
    match l.find_app("games/doom", true) {
        Ok(FindOutcome::One(p)) => assert_eq!(p, "p1"),
        _ => panic!("a full name must match exactly one app"),
    }
}

#[test]
fn find_by_unique_leaf() {
    let l = launcher(&[("games/quake", "p3"), ("tools/doom", "p2")], &[], true);
    match l.find_app("quake", true) {
        Ok(FindOutcome::One(p)) => assert_eq!(p, "p3"),
        _ => panic!("a unique leaf must match exactly one app"),
    }
}

#[test]
fn find_trims_query() {
    let l = launcher(&[("games/doom", "p1")], &[], true);
    match l.find_app("  games/doom/ ", true) {
        Ok(FindOutcome::One(p)) => assert_eq!(p, "p1"),
        _ => panic!("surrounding blanks and slashes must be trimmed"),
    }
}

#[test]
fn find_follows_alias_first() {
    // The query names both an app and an alias; the alias wins.
    let l = launcher(
        &[("doom", "pa"), ("games/doom2", "p1")],
        &[("doom", "games/doom2")],
        true,
    );
    match l.find_app("doom", true) {
        Ok(FindOutcome::One(p)) => assert_eq!(p, "p1"),
        _ => panic!("alias resolution must win over a literal name"),
    }
}

#[test]
fn find_reports_alias_cycle() {
    let l = launcher(&[("games/doom", "p1")], &[("x", "y"), ("y", "x")], true);
    match l.find_app("x", true) {
        Err(LauncherError::CircularAlias(chain)) => {
            assert_eq!(chain, strs(&["x", "y", "x"]));
        },
        _ => panic!("an alias cycle must be reported as CircularAlias"),
    }
}

#[test]
fn alias_chain_reports_cycle_entered_mid_chain() {
    let l = launcher(&[], &[("a", "b"), ("b", "c"), ("c", "b")], true);
    match l.resolve_alias_chain("a") {
        Err(LauncherError::CircularAlias(chain)) => {
            assert_eq!(chain, strs(&["a", "b", "c", "b"]));
        },
        _ => panic!("a cycle entered mid-chain must be reported as CircularAlias"),
    }
}

#[test]
fn find_trims_each_alias_hop() {
    let l = launcher(&[("games/doom", "p1")], &[("d", " games/doom/ ")], true);
    match l.find_app("d", true) {
        Ok(FindOutcome::One(p)) => assert_eq!(p, "p1"),
        _ => panic!("an alias target must be trimmed like a query"),
    }
}

#[test]
fn find_alias_looping_through_trimming_is_a_cycle() {
    // The target trims back to the same alias name: one revisit, then a cycle.
    let l = launcher(&[], &[("a", " a")], true);
    match l.find_app("a", true) {
        Err(LauncherError::CircularAlias(chain)) => {
            assert_eq!(chain, strs(&["a", "a"]));
        },
        _ => panic!("an alias that trims back to itself must be a cycle"),
    }
}

#[test]
fn find_unknown_name_fails() {
    let l = launcher(&[("games/doom", "p1")], &[], true);
    match l.find_app("nothing", true) {
        Err(LauncherError::AppNotFound(q)) => assert_eq!(q, "nothing"),
        _ => panic!("an unknown name must be AppNotFound"),
    }
}
