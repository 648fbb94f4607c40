use casa::config::{BundleItem, Config, Position, Shell};
use casa::file_ops::PathState;
use casa::install::Op;
use casa::diag::{ConfigDiagnostic, KdlItemRef, Span};
use casa::document::{Document, Entry, Ident, Node, Value};
use indexmap::IndexMap;

fn sp(offset: usize, len: usize) -> Span {
    Span { offset, len }
}

fn ident(s: &str) -> Ident {
    Ident { value: s.to_string(), span: sp(0, s.len()) }
}

fn arg_str(s: &str) -> Entry {
    Entry { name: None, ty: None, value: Value::Str(s.to_string()), span: sp(0, s.len() + 2) }
}

fn prop_str(k: &str, v: &str) -> Entry {
    Entry { name: Some(ident(k)), ty: None, value: Value::Str(v.to_string()), span: sp(0, k.len() + v.len() + 3) }
}

fn node(name: &str, entries: Vec<Entry>, children: Option<Vec<Node>>) -> Node {
    Node {
        name: ident(name),
        entries,
        children: children.map(|nodes| Document { nodes, span: sp(0, 0) }),
        span: sp(0, 1),
    }
}

fn doc(nodes: Vec<Node>) -> Document {
    Document { nodes, span: sp(0, 100) }
}

fn zsh_doc(with_home: bool) -> Document {
    let mut nodes = vec![node("dotfiles_dir", vec![arg_str("/")], None)];
    if with_home {
        nodes.push(node("env", vec![arg_str("HOME"), arg_str("/tmp/home")], None));
    }
    nodes.push(node(
        "bundle",
        vec![arg_str("zsh")],
        Some(vec![node("cp", vec![arg_str("tmp"), arg_str("${HOME}/.zshrc")], None)]),
    ));
    doc(nodes)
}

#[test]
fn resolves_copy_destination_from_env() {
    let base = IndexMap::new();
    let host = IndexMap::new();
    let config = Config::from_kdl(&zsh_doc(true), &base, &host).unwrap();
    assert_eq!(config.dotfiles_dir, "/");
    assert_eq!(config.bundles.len(), 1);
    assert_eq!(config.bundles[0].name, "zsh");
    assert_eq!(config.bundles[0].items.len(), 1);
    match &config.bundles[0].items[0] {
        BundleItem::Copy { source, target, .. } => {
            assert_eq!(source, "/tmp");
            assert_eq!(target, "/tmp/home/.zshrc");
        }
        other => panic!("unexpected item {:?}", other),
    }
    assert_eq!(config.env.get_str("HOME").unwrap(), "/tmp/home");
}

#[test]
fn undefined_home_aborts_resolution() {
    let base = IndexMap::new();
    let host = IndexMap::new();
    let err = Config::from_kdl(&zsh_doc(false), &base, &host).unwrap_err();
    match err {
        ConfigDiagnostic::EnvExpandError { error, .. } => assert_eq!(error.var, "HOME"),
        other => panic!("unexpected diagnostic {:?}", other),
    }
}

#[test]
fn missing_dotfiles_dir_node_is_required() {
    let err = Config::from_kdl(&doc(vec![]), &IndexMap::new(), &IndexMap::new()).unwrap_err();
    match err {
        ConfigDiagnostic::ParseError(d) => assert_eq!(d.message, "node 'dotfiles_dir' is required"),
        other => panic!("unexpected diagnostic {:?}", other),
    }
}

#[test]
fn missing_dotfiles_dir_path_is_not_found() {
    let d = doc(vec![node("dotfiles_dir", vec![arg_str("/no/such/dir/anywhere")], None)]);
    let err = Config::from_kdl(&d, &IndexMap::new(), &IndexMap::new()).unwrap_err();
    assert_eq!(err.kind(), "path not found");
    match err {
        ConfigDiagnostic::PathNotFound { path, .. } => assert_eq!(path, "/no/such/dir/anywhere"),
        other => panic!("unexpected diagnostic {:?}", other),
    }
}

#[test]
fn duplicate_bundle_names_are_rejected() {
    let d = doc(vec![
        node("dotfiles_dir", vec![arg_str("/")], None),
        node("bundle", vec![arg_str("zsh")], Some(vec![])),
        node("bundle", vec![arg_str("zsh")], Some(vec![])),
    ]);
    let err = Config::from_kdl(&d, &IndexMap::new(), &IndexMap::new()).unwrap_err();
    match err {
        ConfigDiagnostic::ParseError(d) => {
            assert_eq!(d.message, "node 'bundle' with id 'zsh' can only be specified once")
        }
        other => panic!("unexpected diagnostic {:?}", other),
    }
}

#[test]
fn bundles_keep_document_order_and_item_kinds() {
    let d = doc(vec![
        node("dotfiles_dir", vec![arg_str("/")], None),
        node("bundle", vec![arg_str("zsh")], None),
        node(
            "bundle",
            vec![arg_str("neovim")],
            Some(vec![
                node("env", vec![prop_str("EDITOR", "nvim")], None),
                node("alias", vec![prop_str("vi", "$EDITOR")], None),
                node("source", vec![arg_str("eval x"), prop_str("shell", "fish")], None),
                node("ln", vec![arg_str("tmp"), arg_str("/x/$EDITOR")], None),
            ]),
        ),
    ]);
    let config = Config::from_kdl(&d, &IndexMap::new(), &IndexMap::new()).unwrap();
    assert_eq!(config.bundles[0].name, "zsh");
    assert_eq!(config.bundles[1].name, "neovim");
    let items = &config.bundles[1].items;
    assert_eq!(items.len(), 3);
    match &items[0] {
        BundleItem::Alias { from, to, .. } => {
            assert_eq!(from, "vi");
            assert_eq!(to, "nvim");
        }
        other => panic!("unexpected item {:?}", other),
    }
    match &items[1] {
        BundleItem::Source { snippet, position, shell, .. } => {
            assert_eq!(snippet, "eval x");
            assert_eq!(*position, Position::Random);
            assert_eq!(*shell, Shell::Fish);
        }
        other => panic!("unexpected item {:?}", other),
    }
    match &items[2] {
        BundleItem::Link { target, .. } => assert_eq!(target, "/x/nvim"),
        other => panic!("unexpected item {:?}", other),
    }
    assert_eq!(config.get_env_for_bundle("neovim").get_str("EDITOR").unwrap(), "nvim");
    assert!(config.get_env_for_bundle("zsh").get_str("EDITOR").is_none());
    assert!(config.env.get_str("EDITOR").is_none());
}

#[test]
fn unknown_bundle_action_lists_the_tags() {
    let d = doc(vec![
        node("dotfiles_dir", vec![arg_str("/")], None),
        node("bundle", vec![arg_str("b")], Some(vec![node("install", vec![], None)])),
    ]);
    let err = Config::from_kdl(&d, &IndexMap::new(), &IndexMap::new()).unwrap_err();
    assert_eq!(
        err.help().unwrap(),
        "expected one of `cp`, `ln`, `alias`, `source`, `env`"
    );
    match err {
        ConfigDiagnostic::UnknownVariant { variant, source, .. } => {
            assert_eq!(variant, "install");
            assert!(matches!(source, KdlItemRef::Node(_)));
        }
        other => panic!("unexpected diagnostic {:?}", other),
    }
}

#[test]
fn env_import_reads_host_or_default() {
    let mut host = IndexMap::new();
    host.insert("EDITOR".to_string(), "hx".to_string());
    let d = doc(vec![
        node("dotfiles_dir", vec![arg_str("/")], None),
        node("env", vec![arg_str("import"), arg_str("EDITOR")], None),
        node("env", vec![arg_str("import"), prop_str("PAGER", "less")], None),
        node("env", vec![arg_str("export"), prop_str("VISUAL", "$EDITOR")], None),
    ]);
    let config = Config::from_kdl(&d, &IndexMap::new(), &host).unwrap();
    assert_eq!(config.env.get_str("EDITOR").unwrap(), "hx");
    assert_eq!(config.env.get_str("PAGER").unwrap(), "less");
    assert_eq!(config.env.get_str("VISUAL").unwrap(), "hx");

    let d = doc(vec![
        node("dotfiles_dir", vec![arg_str("/")], None),
        node("env", vec![arg_str("import"), arg_str("NOT_SET_ANYWHERE")], None),
    ]);
    let err = Config::from_kdl(&d, &IndexMap::new(), &host).unwrap_err();
    assert_eq!(err.severity(), casa::diag::Severity::Warning);
}

#[test]
fn unknown_position_is_an_unknown_variant() {
    let d = doc(vec![
        node("dotfiles_dir", vec![arg_str("/")], None),
        node(
            "bundle",
            vec![arg_str("b")],
            Some(vec![node(
                "source",
                vec![arg_str("x"), prop_str("shell", "elvish"), prop_str("position", "middle")],
                None,
            )]),
        ),
    ]);
    let err = Config::from_kdl(&d, &IndexMap::new(), &IndexMap::new()).unwrap_err();
    assert_eq!(err.help().unwrap(), "expected one of `start`, `end`, `random`");
}

#[test]
fn base_values_seed_the_store() {
    let mut base = IndexMap::new();
    base.insert("HOME".to_string(), "/home/me".to_string());
    let config = Config::from_kdl(&zsh_doc(false), &base, &IndexMap::new()).unwrap();
    match &config.bundles[0].items[0] {
        BundleItem::Copy { target, .. } => assert_eq!(target, "/home/me/.zshrc"),
        other => panic!("unexpected item {:?}", other),
    }
}

#[test]
fn selection_and_registration_follow_bundles() {
    let d = doc(vec![
        node("dotfiles_dir", vec![arg_str("/")], None),
        node(
            "bundle",
            vec![arg_str("a")],
            Some(vec![
                node("cp", vec![arg_str("tmp"), arg_str("/dst/one")], None),
                node("alias", vec![prop_str("x", "y")], None),
                node("ln", vec![arg_str("tmp"), arg_str("/dst/two")], None),
            ]),
        ),
        node("bundle", vec![arg_str("b")], Some(vec![node("cp", vec![arg_str("tmp"), arg_str("/dst/three")], None)])),
    ]);
    let config = Config::from_kdl(&d, &IndexMap::new(), &IndexMap::new()).unwrap();
    assert_eq!(config.selected_bundles(&vec![]).unwrap(), vec![0, 1]);
    assert_eq!(config.selected_bundles(&vec!["b".to_string()]).unwrap(), vec![1]);
    assert_eq!(config.selected_bundles(&vec!["a".to_string(), "c".to_string()]).unwrap_err(), "c");

    let up = config.planner_for(&vec![1, 0], true);
    let roots: Vec<(String, String, (usize, Op))> =
        up.sources.iter().map(|s| (s.path.clone(), s.target.clone(), s.data)).collect();
    assert_eq!(
        roots,
        vec![
            ("/tmp".to_string(), "/dst/three".to_string(), (1, Op::Copy)),
            ("/tmp".to_string(), "/dst/one".to_string(), (0, Op::Copy)),
            ("/tmp".to_string(), "/dst/two".to_string(), (0, Op::Link)),
        ]
    );
    let down = config.planner_for(&vec![0], false);
    assert_eq!(down.sources.len(), 2);
    assert!(down.sources.iter().all(|s| s.data.1 == Op::Remove));
}

#[test]
fn top_level_env_applies_before_bundles() {
    let d = doc(vec![
        node("dotfiles_dir", vec![arg_str("/")], None),
        node("bundle", vec![arg_str("b")], Some(vec![node("cp", vec![arg_str("tmp"), arg_str("${K}/x")], None)])),
        node("env", vec![prop_str("K", "v")], None),
    ]);
    let config = Config::from_kdl(&d, &IndexMap::new(), &IndexMap::new()).unwrap();
    match &config.bundles[0].items[0] {
        BundleItem::Copy { target, .. } => assert_eq!(target, "v/x"),
        other => panic!("unexpected item {:?}", other),
    }
}

#[test]
fn resolve_takes_disk_answers() {
    let d = doc(vec![
        node("dotfiles_dir", vec![arg_str("/df")], None),
        node("env", vec![arg_str("HOME"), arg_str("/tmp/home")], None),
        node("bundle", vec![arg_str("zsh")], Some(vec![node("cp", vec![arg_str("zshrc"), arg_str("${HOME}/.zshrc")], None)])),
    ]);
    let present = vec!["/df/zshrc".to_string()];
    let c = Config::resolve(&d, &IndexMap::new(), &IndexMap::new(), PathState::Dir, &present).unwrap();
    assert_eq!(c.dotfiles_dir, "/df");
    match &c.bundles[0].items[0] {
        BundleItem::Copy { source, target, .. } => {
            assert_eq!(source, "/df/zshrc");
            assert_eq!(target, "/tmp/home/.zshrc");
        }
        other => panic!("unexpected item {:?}", other),
    }
    let err = Config::resolve(&d, &IndexMap::new(), &IndexMap::new(), PathState::Dir, &vec![]).unwrap_err();
    match err {
        ConfigDiagnostic::PathNotFound { path, .. } => assert_eq!(path, "/df/zshrc"),
        other => panic!("unexpected diagnostic {:?}", other),
    }
    let err = Config::resolve(&d, &IndexMap::new(), &IndexMap::new(), PathState::File, &present).unwrap_err();
    match err {
        ConfigDiagnostic::ParseError(diag) => assert_eq!(diag.message, "path is not a directory: /df"),
        other => panic!("unexpected diagnostic {:?}", other),
    }
}

#[test]
fn repeated_selection_counts_once() {
    let d = doc(vec![
        node("dotfiles_dir", vec![arg_str("/")], None),
        node("bundle", vec![arg_str("a")], None),
        node("bundle", vec![arg_str("b")], None),
    ]);
    let config = Config::from_kdl(&d, &IndexMap::new(), &IndexMap::new()).unwrap();
    let names = vec!["b".to_string(), "a".to_string(), "b".to_string()];
    assert_eq!(config.selected_bundles(&names).unwrap(), vec![1, 0]);
}

#[test]
fn env_nodes_record_metadata() {
    let mut host = IndexMap::new();
    host.insert("EDITOR".to_string(), "hx".to_string());
    let d = doc(vec![
        node("dotfiles_dir", vec![arg_str("/")], None),
        node("env", vec![arg_str("export"), prop_str("A", "a")], None),
        node("env", vec![arg_str("B"), arg_str("b")], None),
        node("env", vec![arg_str("import"), arg_str("EDITOR")], None),
    ]);
    let mut base = IndexMap::new();
    base.insert("HOME".to_string(), "/h".to_string());
    let config = Config::from_kdl(&d, &base, &host).unwrap();
    let (home, m) = config.env.get("HOME").unwrap();
    assert_eq!(home, "/h");
    assert!(m.inherited && !m.exported && m.span.is_none());
    let (a, m) = config.env.get("A").unwrap();
    assert_eq!(a, "a");
    assert!(m.exported && !m.inherited);
    let (_, m) = config.env.get("B").unwrap();
    assert!(!m.exported && !m.inherited);
    let (_, m) = config.env.get("EDITOR").unwrap();
    assert!(m.exported);
    assert!(config.env.get("NONE").is_none());
    let child = config.env.child();
    assert!(child.get("A").unwrap().1.exported);
}
