use casa::diag::{prop_value_span_exec, ConfigDiagnostic, KdlItemRef, OneOf, Span};
use casa::document::{Entry, Ident, Node, Value};
use casa::helpers::{
    arg, arg0, arg_at, args, decimal_exec, get_node_required_one, inspect_entry_ty_name, prop, prop0, prop_at, FromKdlEntry,
    string_from_entry, KdlBool,
};

fn sp(offset: usize, len: usize) -> Span {
    Span { offset, len }
}

fn ident(s: &str, offset: usize) -> Ident {
    Ident { value: s.to_string(), span: sp(offset, s.len()) }
}

fn entry(name: Option<&str>, value: Value, offset: usize, len: usize) -> Entry {
    Entry { name: name.map(|n| ident(n, offset)), ty: None, value, span: sp(offset, len) }
}

fn sample_node() -> Node {
    Node {
        name: ident("source", 0),
        entries: vec![
            entry(None, Value::Str("a".to_string()), 7, 3),
            entry(Some("shell"), Value::Str("zsh".to_string()), 11, 11),
            entry(None, Value::Int(3), 23, 1),
            entry(Some("shell"), Value::Str("fish".to_string()), 25, 12),
        ],
        children: None,
        span: sp(0, 37),
    }
}

#[test]
fn property_lookup_takes_the_last() {
    let n = sample_node();
    let e = prop(&n, "shell").unwrap();
    assert_eq!(e.value, Value::Str("fish".to_string()));
    let err = prop(&n, "position").unwrap_err();
    assert_eq!(err.message, "node 'source' requires property 'position'");
    assert_eq!(err.span, n.span);
}

#[test]
fn argument_lookup_counts_arguments_only() {
    let n = sample_node();
    assert_eq!(arg(&n, 1).unwrap().value, Value::Int(3));
    let err = arg(&n, 2).unwrap_err();
    assert_eq!(err.message, "node 'source' requires argument '3'");
    assert_eq!(arg0(&n).unwrap().value, Value::Str("a".to_string()));
    let err = arg_at(&n, 1).unwrap_err();
    assert_eq!(err.message, "node entry index '1' must be an argument, not a property");
    assert_eq!(err.span, sp(11, 11));
    assert_eq!(args(&n).unwrap().len(), 2);
}

#[test]
fn property_by_position() {
    let n = sample_node();
    let (id, _) = prop_at(&n, 1).unwrap();
    assert_eq!(id.value, "shell");
    let err = prop0(&n).unwrap_err();
    assert_eq!(err.message, "node entry index '0' must be a property, not an argument");
    let err = prop_at(&n, 10).unwrap_err();
    assert_eq!(err.message, "node 'source' requires property at index '10'");
}

#[test]
fn no_arguments_is_an_error() {
    let n = Node { name: ident("cp", 0), entries: vec![], children: None, span: sp(0, 2) };
    let err = args(&n).unwrap_err();
    assert_eq!(err.message, "node 'cp' requires at least one argument");
}

#[test]
fn typed_extraction_is_exact() {
    let n = sample_node();
    assert_eq!(string_from_entry(&n.entries[0]).unwrap(), "a");
    let err = string_from_entry(&n.entries[2]).unwrap_err();
    assert_eq!(err.message, "invalid type: int, expected: string");
    let b = entry(None, Value::Bool(true), 0, 4);
    assert_eq!(KdlBool::from_entry(&b).unwrap(), KdlBool(true));
    let err = KdlBool::from_entry(&n.entries[0]).unwrap_err();
    assert_eq!(err.message, "invalid type: string, expected: bool");
    let mut typed = entry(None, Value::Str("x".to_string()), 0, 8);
    typed.ty = Some(ident("date", 1));
    assert_eq!(inspect_entry_ty_name(&typed), "date");
    let err = string_from_entry(&typed).unwrap_err();
    assert_eq!(err.message, "type annotations are not supported on this entry, found: date");
    assert_eq!(err.span, sp(1, 4));
    assert_eq!(inspect_entry_ty_name(&entry(None, Value::Null, 0, 4)), "null");
}

#[test]
fn required_node_once() {
    let nodes = vec![sample_node(), sample_node()];
    let err = get_node_required_one(&nodes, sp(0, 99), "source").unwrap_err();
    assert_eq!(err.message, "node 'source' can only be specified once");
    let err = get_node_required_one(&nodes, sp(0, 99), "cp").unwrap_err();
    assert_eq!(err.message, "node 'cp' is required");
    assert_eq!(err.span, sp(0, 99));
    let one = vec![sample_node()];
    assert!(get_node_required_one(&one, sp(0, 99), "source").is_ok());
}

#[test]
fn property_value_span_follows_key_and_equals() {
    // `shell="zsh"` at offset 11: key of 5 bytes, then `=`, then 5 bytes.
    let v = prop_value_span_exec(sp(11, 11), sp(11, 5));
    assert_eq!(v, sp(17, 5));
    // A key longer than the entry leaves the entry span.
    assert_eq!(prop_value_span_exec(sp(4, 2), sp(4, 5)), sp(4, 2));
    let r = KdlItemRef::EntryProp { entry: sp(11, 11), key: sp(11, 5), value: v };
    assert_eq!(r.span_key(), sp(11, 5));
    assert_eq!(r.span_value(), sp(17, 5));
    assert_eq!(r.span(), sp(11, 11));
    assert_eq!(r.at_str(), "property");
    assert_eq!(r.at_value_str(), "property value");
}

#[test]
fn one_of_wording() {
    let none = OneOf::from_names(vec![]);
    assert_eq!(none.describe(), "there are no variants");
    let one = OneOf::from_strs(&vec!["a"]);
    assert_eq!(one.describe(), "`a`");
    let two = OneOf::from_strs(&vec!["a", "b"]);
    assert_eq!(two.describe(), "`a` or `b`");
    let three = OneOf::from_strs(&vec!["a", "b", "c"]);
    assert_eq!(three.describe(), "one of `a`, `b`, `c`");
    assert_eq!(decimal_exec(0), "0");
    assert_eq!(decimal_exec(1907), "1907");
}

#[test]
fn diagnostic_labels_and_kinds() {
    let src = KdlItemRef::Node(sp(3, 4));
    let reference = KdlItemRef::Document(sp(0, 50));
    let d = ConfigDiagnostic::unknown_variant_reference(src, "x".to_string(), OneOf::from_strs(&vec!["y"]), reference);
    assert_eq!(d.kind(), "unknown variant reference");
    let labels = d.labels();
    assert_eq!(labels.len(), 2);
    assert_eq!(labels[0], ("here".to_string(), sp(3, 4)));
    assert_eq!(labels[1], ("reference document".to_string(), sp(0, 50)));
    let p = ConfigDiagnostic::path_not_found(src, "/p".to_string());
    assert_eq!(p.kind(), "path not found");
    assert_eq!(p.help().unwrap(), "ensure the path exists");
    assert_eq!(p.labels().len(), 1);
}

#[test]
fn flattened_diagnostics() {
    let d = ConfigDiagnostic::path_not_found(KdlItemRef::Node(sp(3, 4)), "/p".to_string());
    let err = casa::diag::ConfigError::from_str("text".to_string(), vec![d]);
    let flat = err.diagnostics_jsonable();
    assert_eq!(flat.len(), 1);
    let fields: Vec<(String, String)> = vec![
        ("message".to_string(), "path not found: /p".to_string()),
        ("span".to_string(), "3:+4".to_string()),
        ("kind".to_string(), "path not found".to_string()),
        ("help".to_string(), "ensure the path exists".to_string()),
        ("severity".to_string(), "Error".to_string()),
    ];
    assert_eq!(flat[0], fields);
    let e = casa::expand::ExpandError { var: "HOME".to_string(), offset: 10, len: 7 };
    let d = ConfigDiagnostic::env_expand_error(
        KdlItemRef::EntryArg { entry: sp(5, 9), value: sp(5, 9) },
        e,
        OneOf::from_names(vec![]),
    );
    assert_eq!(
        d.message(),
        "failed to expand environment variable at argument value: environment variable '$HOME' not found at offset 10 (len 7)"
    );
    let u = ConfigDiagnostic::unknown_variant(
        KdlItemRef::Node(sp(0, 1)),
        "mv".to_string(),
        OneOf::from_strs(&vec!["cp", "ln"]),
    );
    assert_eq!(u.message(), "unknown variant `mv` at node, expected `cp` or `ln`");
}

#[test]
fn values_read_through_the_trait() {
    let e = entry(None, Value::Str("v".to_string()), 0, 3);
    assert_eq!(<String as FromKdlEntry>::from_kdl_entry(&e).unwrap(), "v");
    let b = entry(None, Value::Bool(false), 0, 5);
    assert_eq!(<KdlBool as FromKdlEntry>::from_kdl_entry(&b).unwrap(), KdlBool(false));
    assert!(<KdlBool as FromKdlEntry>::from_kdl_entry(&e).is_err());
}
