use casa::env::Env;
use casa::expand::{expand, ExpandError};
use indexmap::IndexMap;

fn sample_env() -> IndexMap<String, String> {
    let mut env = IndexMap::new();
    env.insert("VAR1".to_string(), "value1".to_string());
    env.insert("VAR2".to_string(), "".to_string());
    env.insert("VAR3".to_string(), "value3".to_string());
    env
}

#[test]
fn env_test_expand_env_string() {
    let env = sample_env();

    let expanded = expand("No var here", &env).unwrap();
    assert_eq!(expanded.value, "No var here");
    assert_eq!(expanded.replacement_count, 0);

    let expanded = expand("Path is $VAR1", &env).unwrap();
    assert_eq!(expanded.value, "Path is value1");
    let expanded = expand("Path is ${VAR1}", &env).unwrap();
    assert_eq!(expanded.value, "Path is value1");
    assert_eq!(expand("Path is ${VAR2:-default}", &env).unwrap().value, "Path is default");
    assert_eq!(expand("Path is ${VAR3:+set}", &env).unwrap().value, "Path is set");
    assert_eq!(expand("Path is ${VAR2:+set}", &env).unwrap().value, "Path is ");

    let expanded = expand("Values: $VAR1, ${VAR3}, ${VAR2:-def}", &env).unwrap();
    assert_eq!(expanded.value, "Values: value1, value3, def");
    assert_eq!(expanded.replacement_count, 3);

    let err = expand("Missing $XDG_CONFIG_HOME", &env).unwrap_err();
    assert_eq!(err, ExpandError { var: "XDG_CONFIG_HOME".to_string(), offset: 8, len: 16 });
    let err = expand("Not Found ${HOME}", &env).unwrap_err();
    assert_eq!(err, ExpandError { var: "HOME".to_string(), offset: 10, len: 7 });
}

#[test]
fn plain_references_are_not_expanded_twice() {
    let mut env = IndexMap::new();
    env.insert("A".to_string(), "$B".to_string());
    env.insert("B".to_string(), "bee".to_string());
    let r = expand("x/$A/${B}/$A", &env).unwrap();
    assert_eq!(r.value, "x/$B/bee/$B");
    assert_eq!(r.replacement_count, 3);
    assert_eq!(r.raw, "x/$A/${B}/$A");
}

#[test]
fn default_and_alternative_operators() {
    let env = sample_env();
    assert_eq!(expand("${MISSING:-fallback}", &env).unwrap().value, "fallback");
    assert_eq!(expand("${VAR1:-fallback}", &env).unwrap().value, "value1");
    assert_eq!(expand("${VAR1:-fallback}", &env).unwrap().replacement_count, 1);
    assert_eq!(expand("${MISSING:+alt}", &env).unwrap().value, "");
    assert_eq!(expand("${MISSING:+alt}", &env).unwrap().replacement_count, 0);
    assert_eq!(expand("${VAR3:+alt}", &env).unwrap().value, "alt");
    assert_eq!(expand("${VAR2:-$VAR1}", &env).unwrap().value, "$VAR1");
}

#[test]
fn empty_plain_variable_is_an_error() {
    let env = sample_env();
    let err = expand("a $VAR2 b", &env).unwrap_err();
    assert_eq!(err, ExpandError { var: "VAR2".to_string(), offset: 2, len: 5 });
}

#[test]
fn error_offsets_count_bytes() {
    let env = sample_env();
    let err = expand("é ${NOPE}", &env).unwrap_err();
    assert_eq!(err, ExpandError { var: "NOPE".to_string(), offset: 3, len: 7 });
}

#[test]
fn text_that_is_not_a_reference_stays() {
    let env = sample_env();
    let r = expand("cost: $ 5, ${}, ${VAR1:x}, $", &env).unwrap();
    assert_eq!(r.value, "cost: $ 5, ${}, ${VAR1:x}, $");
    assert_eq!(r.replacement_count, 0);
    assert_eq!(expand("", &env).unwrap().value, "");
}

#[test]
fn child_store_layers_over_parent() {
    let mut parent = Env::empty();
    parent.insert_simple("HOME", "/home/u");
    parent.insert_simple("SHELL", "zsh");
    let mut child = parent.child();
    child.insert_simple("SHELL", "fish");
    assert_eq!(child.get_str("HOME").unwrap(), "/home/u");
    assert_eq!(child.get_str("SHELL").unwrap(), "fish");
    assert_eq!(parent.get_str("SHELL").unwrap(), "zsh");
    assert!(child.get_str("NOPE").is_none());
    assert_eq!(child.expand("$HOME/.config/$SHELL").unwrap().value, "/home/u/.config/fish");
    assert_eq!(child.len(), 3);
    let mut keys = child.keys();
    keys.sort();
    assert_eq!(keys, vec!["HOME".to_string(), "SHELL".to_string()]);
    assert!(Env::empty().is_empty());
}

#[test]
fn unicode_names_are_references() {
    let mut env = IndexMap::new();
    env.insert("café".to_string(), "latte".to_string());
    let r = expand("a ${café} b $café.", &env).unwrap();
    assert_eq!(r.value, "a latte b latte.");
    assert_eq!(r.replacement_count, 2);
    let err = expand("x $naïve", &env).unwrap_err();
    assert_eq!(err, ExpandError { var: "naïve".to_string(), offset: 2, len: 7 });
}
