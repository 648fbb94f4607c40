//! Typed accessors over a document: each returns the value asked for or a
//! diagnostic that points at the offending node or entry.

use crate::diag::{Diag, Severity, Span};
use crate::document::{Entry, Ident, Node, Value};
use crate::text::{push_char, push_str, str_eq};
use vstd::prelude::*;

verus! {

/// The decimal digit `d`.
pub open spec fn digit(d: nat) -> char {
    seq!['0', '1', '2', '3', '4', '5', '6', '7', '8', '9'][d as int]
}

/// The decimal representation of `n`.
pub open spec fn decimal(n: nat) -> Seq<char>
    decreases n,
{
    if n < 10 {
        seq![digit(n)]
    } else {
        decimal(n / 10).push(digit(n % 10))
    }
}

fn digit_exec(d: usize) -> (c: char)
    requires
        d < 10,
    ensures
        c == digit(d as nat),
{
    let digits = ['0', '1', '2', '3', '4', '5', '6', '7', '8', '9'];
    assert(digits@ == seq!['0', '1', '2', '3', '4', '5', '6', '7', '8', '9']);
    digits[d]
}

/// `n` written in decimal.
pub fn decimal_exec(n: usize) -> (r: String)
    ensures
        r@ == decimal(n as nat),
    decreases n,
{
    if n < 10 {
        let mut s = String::new();
        push_char(&mut s, digit_exec(n));
        assert(s@ =~= seq![digit(n as nat)]);
        s
    } else {
        let mut s = decimal_exec(n / 10);
        push_char(&mut s, digit_exec(n % 10));
        s
    }
}

/// A diagnostic of error severity with a message and no help.
pub fn diag(span: Span, message: String) -> (r: Diag)
    ensures
        r.span == span,
        r.message@ == message@,
        r.help is None,
        r.severity == Severity::Error,
{
    Diag { span, message, help: None, severity: Severity::Error }
}

pub open spec fn quote(s: Seq<char>) -> Seq<char> {
    "'"@ + s + "'"@
}

fn push_quote(s: &mut String, t: &str)
    ensures
        final(s)@ == old(s)@ + quote(t@),
{
    push_str(s, "'");
    push_str(s, t);
    push_str(s, "'");
    assert(old(s)@ + "'"@ + t@ + "'"@ =~= old(s)@ + quote(t@));
}

/// The message "node 'NAME' <what> 'ITEM'".
pub open spec fn node_msg(node: Seq<char>, what: Seq<char>, item: Seq<char>) -> Seq<char> {
    "node "@ + quote(node) + what + quote(item)
}

fn node_msg_exec(node: &str, what: &str, item: &str) -> (r: String)
    ensures
        r@ == node_msg(node@, what@, item@),
{
    let mut s = String::new();
    push_str(&mut s, "node ");
    push_quote(&mut s, node);
    push_str(&mut s, what);
    push_quote(&mut s, item);
    assert(s@ =~= node_msg(node@, what@, item@));
    s
}

/// The message "node entry index 'I' must be <what>".
pub open spec fn index_msg(index: nat, what: Seq<char>) -> Seq<char> {
    "node entry index "@ + quote(decimal(index)) + what
}

fn index_msg_exec(index: usize, what: &str) -> (r: String)
    ensures
        r@ == index_msg(index as nat, what@),
{
    let mut s = String::new();
    push_str(&mut s, "node entry index ");
    let d = decimal_exec(index);
    push_quote(&mut s, d.as_str());
    push_str(&mut s, what);
    assert(s@ =~= index_msg(index as nat, what@));
    s
}

/// The name of the type of an entry: its annotation, or the kind of its value.
pub open spec fn ty_name(e: Entry) -> Seq<char> {
    match e.ty {
        Some(id) => id.value@,
        None => match e.value {
            Value::Str(_) => "string"@,
            Value::Int(_) => "int"@,
            Value::Float => "float"@,
            Value::Bool(_) => "bool"@,
            Value::Null => "null"@,
        },
    }
}

pub fn inspect_entry_ty_name(entry: &Entry) -> (r: &str)
    ensures
        r@ == ty_name(*entry),
{
    match &entry.ty {
        Some(id) => id.value.as_str(),
        None => match &entry.value {
            Value::Str(_) => "string",
            Value::Int(_) => "int",
            Value::Float => "float",
            Value::Bool(_) => "bool",
            Value::Null => "null",
        },
    }
}

/// Whether entry `e` is a property named `key`.
pub open spec fn is_prop_named(e: Entry, key: Seq<char>) -> bool {
    e.name matches Some(id) && id.value@ == key
}

/// The position of the last property of `es` named `key`.
pub open spec fn last_prop(es: Seq<Entry>, key: Seq<char>) -> Option<int>
    decreases es.len(),
{
    if es.len() == 0 {
        None
    } else if is_prop_named(es.last(), key) {
        Some(es.len() - 1)
    } else {
        last_prop(es.drop_last(), key)
    }
}

/// The property `key` of `node`; where several carry that name, the last.
pub fn prop<'a>(node: &'a Node, key: &str) -> (r: Result<&'a Entry, Diag>)
    ensures
        match last_prop(node.entries@, key@) {
            Some(k) => 0 <= k < node.entries@.len() && (r matches Ok(e) && *e == node.entries@[k]),
            None => r matches Err(d) && d.span == node.span && d.message@ == node_msg(
                node.name.value@,
                " requires property "@,
                key@,
            ),
        },
{
    let n = node.entries.len();
    let mut k = n;
    assert(node.entries@.subrange(0, n as int) =~= node.entries@);
    while k > 0
        invariant
            k <= n == node.entries@.len(),
            last_prop(node.entries@, key@) == last_prop(node.entries@.subrange(0, k as int), key@),
        decreases k,
    {
        let ghost sub = node.entries@.subrange(0, k as int);
        assert(sub.drop_last() =~= node.entries@.subrange(0, k - 1));
        let e = &node.entries[k - 1];
        match &e.name {
            Some(id) => {
                if str_eq(id.value.as_str(), key) {
                    return Ok(e);
                }
            },
            None => {},
        }
        k -= 1;
    }
    let m = node_msg_exec(node.name.value.as_str(), " requires property ", key);
    Err(diag(node.span, m))
}

/// The entry at position `index` of `node`, argument or property.
pub fn entry_at<'a>(node: &'a Node, index: usize) -> (r: Result<&'a Entry, Diag>)
    ensures
        match r {
            Ok(e) => index < node.entries@.len() && *e == node.entries@[index as int],
            Err(d) => index >= node.entries@.len() && d.span == node.span && d.message@ == node_msg(
                node.name.value@,
                " requires an entry at index "@,
                decimal(index as nat),
            ),
        },
{
    if index < node.entries.len() {
        Ok(&node.entries[index])
    } else {
        let d = decimal_exec(index);
        Err(diag(node.span, node_msg_exec(node.name.value.as_str(), " requires an entry at index ", d.as_str())))
    }
}

/// What `prop_at` returns for `node` and `index`.
pub open spec fn prop_at_post(node: Node, index: usize, r: Result<(&Ident, &Entry), Diag>) -> bool {
    match r {
            Ok((id, e)) => index < node.entries@.len() && *e == node.entries@[index as int]
                && e.name == Some(*id),
            Err(d) => if index < node.entries@.len() {
                node.entries@[index as int].name is None && d.span == node.entries@[index as int].span
                    && d.message@ == index_msg(index as nat, " must be a property, not an argument"@)
            } else {
                d.span == node.span && d.message@ == node_msg(
                    node.name.value@,
                    " requires property at index "@,
                    decimal(index as nat),
                )
            },
        }
}

/// What `arg_at` returns for `node` and `index`.
pub open spec fn arg_at_post(node: Node, index: usize, r: Result<&Entry, Diag>) -> bool {
    match r {
            Ok(e) => index < node.entries@.len() && *e == node.entries@[index as int] && e.name is None,
            Err(d) => if index < node.entries@.len() {
                node.entries@[index as int].name is Some && d.span == node.entries@[index as int].span
                    && d.message@ == index_msg(index as nat, " must be an argument, not a property"@)
            } else {
                d.span == node.span && d.message@ == node_msg(
                    node.name.value@,
                    " requires argument at index "@,
                    decimal(index as nat),
                )
            },
        }
}

/// The entry at position `index` of `node`, which must be a property; with
/// its name.
pub fn prop_at<'a>(node: &'a Node, index: usize) -> (r: Result<(&'a Ident, &'a Entry), Diag>)
    ensures
        prop_at_post(*node, index, r),
{
    if index >= node.entries.len() {
        let d = decimal_exec(index);
        return Err(diag(node.span, node_msg_exec(node.name.value.as_str(), " requires property at index ", d.as_str())));
    }
    let e = &node.entries[index];
    match &e.name {
        None => Err(diag(e.span, index_msg_exec(index, " must be a property, not an argument"))),
        Some(id) => Ok((id, e)),
    }
}

/// The first entry of `node`, which must be a property.
pub fn prop0<'a>(node: &'a Node) -> (r: Result<(&'a Ident, &'a Entry), Diag>)
    ensures
        prop_at_post(*node, 0, r),
{
    prop_at(node, 0)
}

/// The entry at position `index` of `node`, which must be an argument.
pub fn arg_at<'a>(node: &'a Node, index: usize) -> (r: Result<&'a Entry, Diag>)
    ensures
        arg_at_post(*node, index, r),
{
    if index >= node.entries.len() {
        let d = decimal_exec(index);
        return Err(diag(node.span, node_msg_exec(node.name.value.as_str(), " requires argument at index ", d.as_str())));
    }
    let e = &node.entries[index];
    match &e.name {
        None => Ok(e),
        Some(_) => Err(diag(e.span, index_msg_exec(index, " must be an argument, not a property"))),
    }
}

/// The first entry of `node`, which must be an argument.
pub fn arg0<'a>(node: &'a Node) -> (r: Result<&'a Entry, Diag>)
    ensures
        arg_at_post(*node, 0, r),
{
    arg_at(node, 0)
}

/// The position of argument number `n` among `es` from position `i` on.
pub open spec fn nth_arg_from(es: Seq<Entry>, i: int, n: int) -> Option<int>
    decreases es.len() - i,
{
    if i < 0 || i >= es.len() {
        None
    } else if es[i].name is None {
        if n == 0 {
            Some(i)
        } else {
            nth_arg_from(es, i + 1, n - 1)
        }
    } else {
        nth_arg_from(es, i + 1, n)
    }
}

/// The position of argument number `n` (from zero) among `es`.
pub open spec fn nth_arg(es: Seq<Entry>, n: int) -> Option<int> {
    nth_arg_from(es, 0, n)
}

proof fn lemma_nth_arg_from_bounds(es: Seq<Entry>, i: int, n: int)
    ensures
        nth_arg_from(es, i, n) matches Some(k) ==> 0 <= k < es.len() && es[k].name is None,
    decreases es.len() - i,
{
    if 0 <= i < es.len() {
        if es[i].name is None {
            if n != 0 {
                lemma_nth_arg_from_bounds(es, i + 1, n - 1);
            }
        } else {
            lemma_nth_arg_from_bounds(es, i + 1, n);
        }
    }
}

/// The argument number `index` of `node`, counting arguments only.
pub fn arg<'a>(node: &'a Node, index: usize) -> (r: Result<&'a Entry, Diag>)
    ensures
        match nth_arg(node.entries@, index as int) {
            Some(k) => 0 <= k < node.entries@.len() && node.entries@[k].name is None && (r matches Ok(e)
                && *e == node.entries@[k]),
            None => r matches Err(d) && d.span == node.span && d.message@ == node_msg(
                node.name.value@,
                " requires argument "@,
                decimal(index as nat + 1),
            ),
        },
{
    proof {
        lemma_nth_arg_from_bounds(node.entries@, 0, index as int);
    }
    let n = node.entries.len();
    let mut seen: usize = 0;
    let mut k: usize = 0;
    while k < n
        invariant
            k <= n == node.entries@.len(),
            seen <= index,
            seen <= k,
            nth_arg(node.entries@, index as int) == nth_arg_from(node.entries@, k as int, index - seen),
        decreases n - k,
    {
        let e = &node.entries[k];
        if e.name.is_none() {
            if seen == index {
                return Ok(e);
            }
            seen += 1;
        }
        k += 1;
    }
    let d = if index < usize::MAX {
        decimal_exec(index + 1)
    } else {
        decimal_exec_wide(index)
    };
    Err(diag(node.span, node_msg_exec(node.name.value.as_str(), " requires argument ", d.as_str())))
}

/// The decimal representation of `n + 1` for the largest `usize`, whose
/// successor does not fit.
fn decimal_exec_wide(n: usize) -> (r: String)
    requires
        n == usize::MAX,
    ensures
        r@ == decimal(n as nat + 1),
{
    let mut s = decimal_exec(n / 10);
    assert((n as nat + 1) / 10 == n as nat / 10 && (n as nat + 1) % 10 == n as nat % 10 + 1) by {
        assert(usize::MAX % 10 != 9);
    }
    push_char(&mut s, digit_exec(n % 10 + 1));
    s
}

/// The arguments among `es`, in order.
pub open spec fn args_of(es: Seq<Entry>) -> Seq<Entry>
    decreases es.len(),
{
    if es.len() == 0 {
        Seq::empty()
    } else if es.last().name is None {
        args_of(es.drop_last()).push(es.last())
    } else {
        args_of(es.drop_last())
    }
}

/// All arguments of `node`, in order; there must be at least one.
pub fn args<'a>(node: &'a Node) -> (r: Result<Vec<&'a Entry>, Diag>)
    ensures
        match r {
            Ok(v) => v@.len() > 0 && v@.len() == args_of(node.entries@).len() && forall|i: int|
                0 <= i < v@.len() ==> *(#[trigger] v@[i]) == args_of(node.entries@)[i],
            Err(d) => args_of(node.entries@).len() == 0 && d.span == node.span && d.message@ == "node "@
                + quote(node.name.value@) + " requires at least one argument"@,
        },
{
    let n = node.entries.len();
    let mut v: Vec<&Entry> = Vec::new();
    let mut k: usize = 0;
    while k < n
        invariant
            k <= n == node.entries@.len(),
            v@.len() == args_of(node.entries@.subrange(0, k as int)).len(),
            forall|i: int| 0 <= i < v@.len() ==> *(#[trigger] v@[i]) == args_of(node.entries@.subrange(0, k as int))[i],
        decreases n - k,
    {
        let ghost old_v = v@;
        let ghost nxt = node.entries@.subrange(0, k + 1);
        assert(nxt.drop_last() =~= node.entries@.subrange(0, k as int));
        assert(nxt.last() == node.entries@[k as int]);
        if node.entries[k].name.is_none() {
            v.push(&node.entries[k]);
            assert forall|i: int| 0 <= i < v@.len() implies *(#[trigger] v@[i]) == args_of(nxt)[i] by {
                if i < old_v.len() {
                    assert(v@[i] == old_v[i]);
                }
            }
        }
        k += 1;
    }
    assert(node.entries@.subrange(0, n as int) =~= node.entries@);
    if v.len() == 0 {
        let mut s = String::new();
        push_str(&mut s, "node ");
        push_quote(&mut s, node.name.value.as_str());
        push_str(&mut s, " requires at least one argument");
        assert(s@ =~= "node "@ + quote(node.name.value@) + " requires at least one argument"@);
        return Err(diag(node.span, s));
    }
    Ok(v)
}

/// The message for a value of the wrong type.
pub open spec fn invalid_type_msg(found: Seq<char>, expected: Seq<char>) -> Seq<char> {
    "invalid type: "@ + found + ", expected: "@ + expected
}

fn invalid_type(entry: &Entry, expected: &str) -> (d: Diag)
    ensures
        d.span == entry.span,
        d.message@ == invalid_type_msg(ty_name(*entry), expected@),
        d.help is None,
        d.severity == Severity::Error,
{
    let mut s = String::new();
    push_str(&mut s, "invalid type: ");
    push_str(&mut s, inspect_entry_ty_name(entry));
    push_str(&mut s, ", expected: ");
    push_str(&mut s, expected);
    diag(entry.span, s)
}

/// The string value of an entry, whatever its annotation.
pub fn as_str<'a>(entry: &'a Entry) -> (r: Result<&'a String, Diag>)
    ensures
        match r {
            Ok(s) => entry.value == Value::Str(*s),
            Err(d) => !(entry.value is Str) && d.span == entry.span && d.message@ == invalid_type_msg(
                ty_name(*entry),
                "string"@,
            ),
        },
{
    match &entry.value {
        Value::Str(s) => Ok(s),
        _ => Err(invalid_type(entry, "string")),
    }
}

/// The message for an entry with a type annotation.
pub open spec fn annotation_msg(ty: Seq<char>) -> Seq<char> {
    "type annotations are not supported on this entry, found: "@ + ty
}

fn reject_annotation(entry: &Entry) -> (r: Result<(), Diag>)
    ensures
        match r {
            Ok(_) => entry.ty is None,
            Err(d) => entry.ty matches Some(id) && d.span == id.span && d.message@ == annotation_msg(id.value@),
        },
{
    match &entry.ty {
        None => Ok(()),
        Some(id) => {
            let mut s = String::new();
            push_str(&mut s, "type annotations are not supported on this entry, found: ");
            push_str(&mut s, id.value.as_str());
            Err(diag(id.span, s))
        },
    }
}

/// The string value of an entry without a type annotation.
pub fn string_from_entry(entry: &Entry) -> (r: Result<String, Diag>)
    ensures
        match r {
            Ok(s) => entry.ty is None && (entry.value matches Value::Str(v) && s@ == v@),
            Err(d) => match entry.ty {
                Some(id) => d.span == id.span && d.message@ == annotation_msg(id.value@),
                None => !(entry.value is Str) && d.span == entry.span && d.message@ == invalid_type_msg(
                    ty_name(*entry),
                    "string"@,
                ),
            },
        },
{
    reject_annotation(entry)?;
    let s = as_str(entry)?;
    Ok(s.clone())
}

/// Values that can be read from one entry of a node.
pub trait FromKdlEntry: Sized {
    /// The value written in `entry`, or a diagnostic at it.
    fn from_kdl_entry(entry: &Entry) -> Result<Self, Diag>;
}

impl FromKdlEntry for String {
    fn from_kdl_entry(entry: &Entry) -> (r: Result<String, Diag>)
        ensures
            match r {
                Ok(s) => entry.ty is None && (entry.value matches Value::Str(v) && s@ == v@),
                Err(d) => match entry.ty {
                    Some(id) => d.span == id.span && d.message@ == annotation_msg(id.value@),
                    None => !(entry.value is Str) && d.span == entry.span && d.message@ == invalid_type_msg(
                        ty_name(*entry),
                        "string"@,
                    ),
                },
            },
    {
        string_from_entry(entry)
    }
}

/// A boolean entry value.
#[derive(Clone, Copy, Debug, PartialEq, Eq)]
pub struct KdlBool(pub bool);

impl KdlBool {
    /// The boolean value of an entry without a type annotation.
    pub fn from_entry(entry: &Entry) -> (r: Result<KdlBool, Diag>)
        ensures
            match r {
                Ok(b) => entry.ty is None && entry.value == Value::Bool(b.0),
                Err(d) => match entry.ty {
                    Some(id) => d.span == id.span && d.message@ == annotation_msg(id.value@),
                    None => !(entry.value is Bool) && d.span == entry.span && d.message@
                        == invalid_type_msg(ty_name(*entry), "bool"@),
                },
            },
    {
        reject_annotation(entry)?;
        match &entry.value {
            Value::Bool(b) => Ok(KdlBool(*b)),
            _ => Err(invalid_type(entry, "bool")),
        }
    }
}

impl FromKdlEntry for KdlBool {
    fn from_kdl_entry(entry: &Entry) -> (r: Result<KdlBool, Diag>)
        ensures
            match r {
                Ok(b) => entry.ty is None && entry.value == Value::Bool(b.0),
                Err(d) => match entry.ty {
                    Some(id) => d.span == id.span && d.message@ == annotation_msg(id.value@),
                    None => !(entry.value is Bool) && d.span == entry.span && d.message@
                        == invalid_type_msg(ty_name(*entry), "bool"@),
                },
            },
    {
        KdlBool::from_entry(entry)
    }
}

/// The nodes among `nodes` named `name`, in order.
pub open spec fn named_nodes(nodes: Seq<Node>, name: Seq<char>) -> Seq<Node>
    decreases nodes.len(),
{
    if nodes.len() == 0 {
        Seq::empty()
    } else if nodes.last().name.value@ == name {
        named_nodes(nodes.drop_last(), name).push(nodes.last())
    } else {
        named_nodes(nodes.drop_last(), name)
    }
}

/// The positions of the nodes among `nodes` named `name`, in order.
pub fn get_children_named(nodes: &Vec<Node>, name: &str) -> (r: Vec<usize>)
    ensures
        forall|i: int| 0 <= i < r@.len() ==> #[trigger] r@[i] < nodes@.len(),
        forall|i: int| 0 <= i < r@.len() ==> (#[trigger] nodes@[r@[i] as int]).name.value@ == name@,
        forall|i: int, j: int| 0 <= i < j < r@.len() ==> r@[i] < r@[j],
        forall|k: int| 0 <= k < nodes@.len() && (#[trigger] nodes@[k]).name.value@ == name@ ==> exists|i: int|
            0 <= i < r@.len() && r@[i] == k,
        r@.len() == named_nodes(nodes@, name@).len(),
        forall|i: int| 0 <= i < r@.len() ==> nodes@[#[trigger] r@[i] as int] == named_nodes(nodes@, name@)[i],
{
    let mut v: Vec<usize> = Vec::new();
    let mut k: usize = 0;
    while k < nodes.len()
        invariant
            k <= nodes@.len(),
            forall|i: int| 0 <= i < v@.len() ==> #[trigger] v@[i] < k,
            forall|i: int| 0 <= i < v@.len() ==> (#[trigger] nodes@[v@[i] as int]).name.value@ == name@,
            forall|i: int, j: int| 0 <= i < j < v@.len() ==> v@[i] < v@[j],
            forall|m: int| 0 <= m < k && (#[trigger] nodes@[m]).name.value@ == name@ ==> exists|i: int|
                0 <= i < v@.len() && v@[i] == m,
            v@.len() == named_nodes(nodes@.subrange(0, k as int), name@).len(),
            forall|i: int| 0 <= i < v@.len() ==> nodes@[#[trigger] v@[i] as int] == named_nodes(nodes@.subrange(0, k as int), name@)[i],
        decreases nodes@.len() - k,
    {
        let ghost old_v = v@;
        proof {
            let nxt = nodes@.subrange(0, k + 1);
            assert(nxt.drop_last() =~= nodes@.subrange(0, k as int));
            assert(nxt.last() == nodes@[k as int]);
        }
        if str_eq(nodes[k].name.value.as_str(), name) {
            v.push(k);
            assert(v@ == old_v.push(k));
            assert forall|i: int, j: int| 0 <= i < j < v@.len() implies v@[i] < v@[j] by {
                if j == v@.len() - 1 {
                    assert(old_v[i] < k);
                }
            }
            assert forall|m: int| 0 <= m <= k && (#[trigger] nodes@[m]).name.value@ == name@ implies exists|i: int|
                0 <= i < v@.len() && v@[i] == m by {
                if m == k {
                    assert(v@[v@.len() - 1] == m);
                } else {
                    let i = choose|i: int| 0 <= i < old_v.len() && old_v[i] == m;
                    assert(v@[i] == m);
                }
            }
        }
        proof {
            let nn = named_nodes(nodes@.subrange(0, k + 1), name@);
            assert forall|i: int| 0 <= i < v@.len() implies nodes@[#[trigger] v@[i] as int] == nn[i] by {
                if i < old_v.len() {
                    assert(v@[i] == old_v[i]);
                }
            }
        }
        k += 1;
    }
    assert(nodes@.subrange(0, nodes@.len() as int) =~= nodes@);
    v
}

/// The one node among `nodes` named `name`; `span` is that of the enclosing
/// document or node. A second such node is reported at its own span.
pub fn get_node_required_one<'a>(nodes: &'a Vec<Node>, span: Span, name: &str) -> (r: Result<&'a Node, Diag>)
    ensures
        ({
            let nn = named_nodes(nodes@, name@);
            match r {
                Ok(n) => nn.len() == 1 && *n == nn[0],
                Err(d) => d.severity == Severity::Error && if nn.len() == 0 {
                    d.span == span && d.message@ == "node "@ + quote(name@) + " is required"@
                } else {
                    nn.len() >= 2 && d.span == nn[1].span && d.message@ == "node "@ + quote(name@)
                        + " can only be specified once"@
                },
            }
        }),
{
    let mut found: Option<usize> = None;
    let mut k: usize = 0;
    while k < nodes.len()
        invariant
            k <= nodes@.len(),
            match found {
                None => named_nodes(nodes@.subrange(0, k as int), name@).len() == 0,
                Some(f) => f < k && named_nodes(nodes@.subrange(0, k as int), name@).len() == 1
                    && named_nodes(nodes@.subrange(0, k as int), name@)[0] == nodes@[f as int],
            },
        decreases nodes@.len() - k,
    {
        let ghost nxt = nodes@.subrange(0, k + 1);
        assert(nxt.drop_last() =~= nodes@.subrange(0, k as int));
        assert(nxt.last() == nodes@[k as int]);
        if str_eq(nodes[k].name.value.as_str(), name) {
            if let Some(f) = found {
                proof {
                    lemma_named_prefix(nodes@, name@, k + 1);
                    assert(named_nodes(nxt, name@) == named_nodes(nodes@.subrange(0, k as int), name@).push(nodes@[k as int]));
                    assert(named_nodes(nxt, name@)[1] == nodes@[k as int]);
                }
                let mut s = String::new();
                push_str(&mut s, "node ");
                push_quote(&mut s, name);
                push_str(&mut s, " can only be specified once");
                assert(s@ =~= "node "@ + quote(name@) + " can only be specified once"@);
                return Err(diag(nodes[k].span, s));
            }
            found = Some(k);
        }
        k += 1;
    }
    assert(nodes@.subrange(0, nodes@.len() as int) =~= nodes@);
    match found {
        Some(f) => Ok(&nodes[f]),
        None => {
            let mut s = String::new();
            push_str(&mut s, "node ");
            push_quote(&mut s, name);
            push_str(&mut s, " is required");
            assert(s@ =~= "node "@ + quote(name@) + " is required"@);
            Err(diag(span, s))
        },
    }
}

/// The named nodes of a prefix of `s` begin the named nodes of `s`.
pub proof fn lemma_named_prefix(s: Seq<Node>, name: Seq<char>, j: int)
    requires
        0 <= j <= s.len(),
    ensures
        named_nodes(s.subrange(0, j), name).len() <= named_nodes(s, name).len(),
        forall|i: int|
            0 <= i < named_nodes(s.subrange(0, j), name).len() ==> #[trigger] named_nodes(s.subrange(0, j), name)[i]
                == named_nodes(s, name)[i],
    decreases s.len(),
{
    if j == s.len() {
        assert(s.subrange(0, j) =~= s);
    } else {
        assert(s.drop_last().subrange(0, j) =~= s.subrange(0, j));
        lemma_named_prefix(s.drop_last(), name, j);
    }
}

} // verus!
