//! The argument sandwich, placeholder expansion, and the small helpers, on
//! concrete values.

use ran::{expand_vars, parse_bool, sandwich_args, sanitize_app_name, Config, Launcher, StrMap};
use ran::helpers::app_key_from_path;

fn strs(v: &[&str]) -> Vec<String> {
    v.iter().map(|s| s.to_string()).collect()
}

fn map_of(pairs: &[(&str, &str)]) -> StrMap {
    let mut m = StrMap::new();
    for (k, v) in pairs {
        m.insert(k.to_string(), v.to_string());
    }
    m
}

fn launcher_with_vars(pairs: &[(&str, &str)]) -> Launcher {
    Launcher {
        apps: StrMap::new(),
        config: Config {
            interactive: true,
            editor: None,
            alias: StrMap::new(),
            vars: map_of(pairs),
            env: StrMap::new(),
        },
    }
}

#[test]
fn sandwich_injects_at_marker() {
    let merged = sandwich_args(strs(&["a", "%!", "b"]), strs(&["x", "y"]));
    assert_eq!(merged, strs(&["a", "x", "y", "b"]));
}

#[test]
fn sandwich_appends_without_marker() {
    let merged = sandwich_args(strs(&["a", "b"]), strs(&["x", "y"]));
    assert_eq!(merged, strs(&["a", "b", "x", "y"]));
}

#[test]
fn sandwich_honors_only_first_marker() {
    let merged = sandwich_args(strs(&["a", "%!", "b", "%!"]), strs(&["x"]));
    assert_eq!(merged, strs(&["a", "x", "b", "%!"]));
}

#[test]
fn sandwich_empty_edges() {
    assert_eq!(sandwich_args(strs(&[]), strs(&["x"])), strs(&["x"]));
    assert_eq!(sandwich_args(strs(&["%!"]), strs(&[])), strs(&[]));
    assert_eq!(sandwich_args(strs(&[]), strs(&[])), strs(&[]));
}

#[test]
fn expand_bare_variable() {
    let l = launcher_with_vars(&[("foo", "bar")]);
    assert_eq!(expand_vars("%foo%", &l), "bar");
}

#[test]
fn expand_scoped_variable() {
    let l = launcher_with_vars(&[("foo", "bar")]);
    assert_eq!(expand_vars("%config.vars.foo%", &l), "bar");
}

#[test]
fn expand_undefined_variable_stays_verbatim() {
    let l = launcher_with_vars(&[]);
    assert_eq!(expand_vars("%config.vars.foo%", &l), "%config.vars.foo%");
    assert_eq!(expand_vars("%foo%", &l), "%foo%");
}

#[test]
fn expand_unrecognized_shape_stays_verbatim() {
    // Only `config.*` shapes and a bare key are recognized; a two-segment
    // `vars.foo` is neither.
    let l = launcher_with_vars(&[("foo", "bar")]);
    assert_eq!(expand_vars("%vars.foo%", &l), "%vars.foo%");
}

#[test]
fn expand_two_level_indirection() {
    let l = launcher_with_vars(&[("a", "%b%"), ("b", "done")]);
    assert_eq!(expand_vars("%a%", &l), "done");
}

#[test]
fn expand_self_reference_reaches_fixed_point() {
    let l = launcher_with_vars(&[("a", "%a%")]);
    assert_eq!(expand_vars("%a%", &l), "%a%");
}

#[test]
fn expand_stops_at_pass_bound() {
    // Six levels of indirection: five passes leave the last hop unexpanded.
    let l = launcher_with_vars(&[
        ("v1", "%v2%"),
        ("v2", "%v3%"),
        ("v3", "%v4%"),
        ("v4", "%v5%"),
        ("v5", "%v6%"),
        ("v6", "end"),
    ]);
    assert_eq!(expand_vars("%v1%", &l), "%v6%");
}

#[test]
fn expand_empty_span_is_no_placeholder() {
    let l = launcher_with_vars(&[("b", "B")]);
    assert_eq!(expand_vars("a%%b", &l), "a%%b");
    // The scan moves one character past the first `%`, so the second `%` can
    // still open a real placeholder.
    assert_eq!(expand_vars("a%%b%", &l), "a%B");
}

#[test]
fn expand_mixed_text() {
    let l = launcher_with_vars(&[("name", "doom")]);
    assert_eq!(expand_vars("run %name% now", &l), "run doom now");
    assert_eq!(expand_vars("no placeholders", &l), "no placeholders");
    assert_eq!(expand_vars("", &l), "");
}

#[test]
fn expand_config_flag_and_editor() {
    let mut l = launcher_with_vars(&[]);
    assert_eq!(expand_vars("%config.interactive%", &l), "true");
    l.config.interactive = false;
    assert_eq!(expand_vars("%config.interactive%", &l), "false");
    assert_eq!(expand_vars("%config.editor%", &l), "%config.editor%");
    l.config.editor = Some("vi".to_string());
    assert_eq!(expand_vars("%config.editor%", &l), "vi");
}

#[test]
fn expand_alias_and_env_scopes() {
    let mut l = launcher_with_vars(&[]);
    l.config.alias.insert("d".to_string(), "games/doom".to_string());
    l.config.env.insert("HOME_DIR".to_string(), "/home/u".to_string());
    assert_eq!(expand_vars("%config.alias.d%", &l), "games/doom");
    assert_eq!(expand_vars("%config.env.HOME_DIR%", &l), "/home/u");
}

#[test]
fn parse_bool_accepts_usual_spellings() {
    assert_eq!(parse_bool("1"), Some(true));
    assert_eq!(parse_bool("TRUE"), Some(true));
    assert_eq!(parse_bool(" Yes "), Some(true));
    assert_eq!(parse_bool("y"), Some(true));
    assert_eq!(parse_bool("on"), Some(true));
    assert_eq!(parse_bool("0"), Some(false));
    assert_eq!(parse_bool("False"), Some(false));
    assert_eq!(parse_bool("no"), Some(false));
    assert_eq!(parse_bool("N"), Some(false));
    assert_eq!(parse_bool("OFF"), Some(false));
}

#[test]
fn parse_bool_rejects_everything_else() {
    assert_eq!(parse_bool("maybe"), None);
    assert_eq!(parse_bool("tru"), None);
    assert_eq!(parse_bool(""), None);
    assert_eq!(parse_bool("10"), None);
}

#[test]
fn sanitize_normalizes_names() {
    assert_eq!(sanitize_app_name(" my app "), "my_app");
    assert_eq!(sanitize_app_name("\\games\\doom"), "games/doom");
    assert_eq!(sanitize_app_name("/a/b/"), "a/b");
    assert_eq!(sanitize_app_name(""), "");
    assert_eq!(sanitize_app_name("plain"), "plain");
}

#[test]
fn app_key_strips_suffix_and_normalizes() {
    assert_eq!(app_key_from_path("games/doom.toml"), "games/doom");
    assert_eq!(app_key_from_path("games\\doom.toml"), "games/doom");
    assert_eq!(app_key_from_path("x"), "x");
    assert_eq!(app_key_from_path(".toml"), "");
    assert_eq!(app_key_from_path("a.toml.toml"), "a.toml");
}
