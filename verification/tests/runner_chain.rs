//! The recursive runner resolver and launch preparation, on concrete values.

use ran::{
    App, Config, DefResolver, Exec, Launcher, LauncherError, ResolveStep, ResolvedParts, StrMap,
};

fn strs(v: &[&str]) -> Vec<String> {
    v.iter().map(|s| s.to_string()).collect()
}

fn map_of(pairs: &[(&str, &str)]) -> StrMap {
    let mut m = StrMap::new();
    for (k, v) in pairs {
        m.insert(k.to_string(), v.to_string());
    }
    m
}

fn app(bin: &str, args: &[&str], env: Option<&[(&str, &str)]>) -> App {
    App {
        meta: None,
        run: Exec { bin: bin.to_string(), args: strs(args) },
        env: env.map(map_of),
    }
}

fn need(r: Result<ResolveStep, LauncherError>) -> String {
    match r {
        Ok(ResolveStep::Need(name)) => name,
        _ => panic!("expected another layer to load"),
    }
}

fn done(r: Result<ResolveStep, LauncherError>) -> ResolvedParts {
    match r {
        Ok(ResolveStep::Done(parts)) => parts,
        _ => panic!("expected the chain to complete"),
    }
}

#[test]
fn runner_chain_sandwiches_in_indirection_order() {
    // A runs B, B runs C, C is the literal binary with a marker argument.
    let a = app("@B", &["a1"], None);
    let b = app("@C", &["b1", "%!", "b2"], None);
    let c = app("/bin/c", &["%!"], None);
    let mut resolver = DefResolver::new();
    assert_eq!(need(resolver.push_app(a)), "B");
    assert_eq!(need(resolver.push_app(b)), "C");
    let parts = done(resolver.push_app(c));
    assert_eq!(parts.bin, "/bin/c");
    assert_eq!(parts.args, strs(&["b1", "a1", "b2"]));
}

#[test]
fn runner_chain_outermost_env_wins() {
    let a = app("@B", &[], Some(&[("K", "a")]));
    let b = app("@C", &[], Some(&[("K", "b"), ("B_ONLY", "b2")]));
    let c = app("/bin/c", &[], Some(&[("K", "c"), ("C_ONLY", "c2")]));
    let mut resolver = DefResolver::new();
    need(resolver.push_app(a));
    need(resolver.push_app(b));
    let parts = done(resolver.push_app(c));
    assert_eq!(parts.env.get("K"), Some(&"a".to_string()));
    assert_eq!(parts.env.get("B_ONLY"), Some(&"b2".to_string()));
    assert_eq!(parts.env.get("C_ONLY"), Some(&"c2".to_string()));
}

#[test]
fn plain_app_resolves_to_itself() {
    let c = app("/bin/tool", &["x", "y"], Some(&[("E", "v")]));
    let mut resolver = DefResolver::new();
    let parts = done(resolver.push_app(c));
    assert_eq!(parts.bin, "/bin/tool");
    assert_eq!(parts.args, strs(&["x", "y"]));
    assert_eq!(parts.env.get("E"), Some(&"v".to_string()));
}

#[test]
fn wrapper_args_replace_empty_inner_args() {
    // The base app has no arguments of its own, so the wrapper's list is
    // taken unmodified.
    let a = app("@C", &["w1", "w2"], None);
    let c = app("/bin/c", &[], None);
    let mut resolver = DefResolver::new();
    need(resolver.push_app(a));
    let parts = done(resolver.push_app(c));
    assert_eq!(parts.args, strs(&["w1", "w2"]));
}

#[test]
fn empty_runner_name_is_invalid() {
    let a = app("@", &[], None);
    let mut resolver = DefResolver::new();
    match resolver.push_app(a) {
        Err(LauncherError::InvalidApp(path, reason)) => {
            assert_eq!(path, "");
            assert!(reason.is_some());
        },
        _ => panic!("a bare runner marker must be InvalidApp"),
    }
}

#[test]
fn self_referential_runner_is_a_cycle() {
    let a = app("@A", &[], None);
    let mut resolver = DefResolver::new();
    assert_eq!(need(resolver.push_app(a)), "A");
    let a_again = app("@A", &[], None);
    match resolver.push_app(a_again) {
        Err(LauncherError::CircularAlias(chain)) => {
            assert_eq!(chain, strs(&["A", "A"]));
        },
        _ => panic!("a self-referential runner must be reported as a cycle"),
    }
}

#[test]
fn prepare_launch_merges_and_expands() {
    let l = Launcher {
        apps: StrMap::new(),
        config: Config {
            interactive: true,
            editor: None,
            alias: StrMap::new(),
            vars: map_of(&[("who", "world")]),
            env: map_of(&[("GK", "gv"), ("PK", "gcfg")]),
        },
    };
    let parts = ResolvedParts {
        bin: "echo".to_string(),
        args: strs(&["%who%", "%!"]),
        env: map_of(&[("PK", "pv"), ("EK", "%who%")]),
    };
    let cli_args = strs(&["x"]);
    let cli_env = map_of(&[("CK", "cv"), ("PK", "cli"), ("GK", "cli")]);
    let (bin, args, env) = l.prepare_launch(parts, cli_args, cli_env);
    assert_eq!(bin, "echo");
    assert_eq!(args, strs(&["world", "x"]));
    // Caller-supplied values lose to the configuration's, which lose to the
    // app's own; values are expanded.
    assert_eq!(env.get("PK"), Some(&"pv".to_string()));
    assert_eq!(env.get("GK"), Some(&"gv".to_string()));
    assert_eq!(env.get("CK"), Some(&"cv".to_string()));
    assert_eq!(env.get("EK"), Some(&"world".to_string()));
    assert_eq!(env.get("NOPE"), None);
}
