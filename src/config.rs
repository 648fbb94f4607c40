//! The resolver: walks a document into the dotfiles directory, the
//! environment, and the bundles of actions, stopping at the first diagnostic.

use crate::diag::{
    names_view, prop_value_span, prop_value_span_exec, ConfigDiagnostic, Diag, KdlItemRef, OneOf, Severity, Span,
};
use crate::document::{Document, Entry, Node, Value};
use crate::env::{contains_str, listed, Env, EnvItemMeta, EnvValue};
use crate::expand::{chain_lookup, expand_spec};
use crate::file_ops::PathState;
use crate::helpers::{
    arg, arg0, as_str, entry_at, get_children_named, get_node_required_one, last_prop, named_nodes, nth_arg, prop,
    prop0, prop_at, quote, string_from_entry,
};
use crate::planner::{join_path, join_path_exec};
use crate::strmap::{
    entries_insert, entries_lookup, lemma_lookup_insert, str_map_entries, str_map_get, str_map_get_index, str_map_len,
};
use crate::text::{push_str, str_eq};
use indexmap::IndexMap;
use vstd::prelude::*;

verus! {

/// The shell that a snippet is for.
#[derive(Clone, Debug, PartialEq, Eq)]
pub enum Shell {
    Bash,
    Zsh,
    Fish,
    PowerShell,
    Nushell,
    /// Any other shell, by name.
    Other(String),
}

/// Where in the shell's startup file a snippet goes.
#[derive(Clone, Copy, Debug, PartialEq, Eq)]
pub enum Position {
    Start,
    End,
    Random,
}

/// One action of a bundle, with the span of the node that declared it.
#[derive(Clone, Debug, PartialEq, Eq)]
pub enum BundleItem {
    Copy { source: String, target: String, span: Span },
    Link { source: String, target: String, span: Span },
    Alias { from: String, to: String, span: Span },
    Source { snippet: String, position: Position, shell: Shell, span: Span },
}

/// A named group of actions, with the environment that its own `env` nodes
/// made, if it has any.
#[derive(Debug)]
pub struct Bundle {
    pub name: String,
    pub items: Vec<BundleItem>,
    pub env: Option<Env>,
}

/// A resolved configuration.
#[derive(Debug)]
pub struct Config {
    pub env: Env,
    pub dotfiles_dir: String,
    pub bundles: Vec<Bundle>,
}

impl Shell {
    pub open spec fn from_name(s: Seq<char>) -> Shell {
        if s == "bash"@ {
            Shell::Bash
        } else if s == "zsh"@ {
            Shell::Zsh
        } else if s == "fish"@ {
            Shell::Fish
        } else if s == "pwsh"@ {
            Shell::PowerShell
        } else if s == "nushell"@ {
            Shell::Nushell
        } else {
            Shell::Other(arbitrary())
        }
    }

    /// The shell named `s`; an unknown name gives `Other` with that name.
    pub fn parse(s: String) -> (r: Shell)
        ensures
            match Shell::from_name(s@) {
                Shell::Other(_) => r matches Shell::Other(n) && n@ == s@,
                known => r == known,
            },
    {
        if str_eq(s.as_str(), "bash") {
            Shell::Bash
        } else if str_eq(s.as_str(), "zsh") {
            Shell::Zsh
        } else if str_eq(s.as_str(), "fish") {
            Shell::Fish
        } else if str_eq(s.as_str(), "pwsh") {
            Shell::PowerShell
        } else if str_eq(s.as_str(), "nushell") {
            Shell::Nushell
        } else {
            Shell::Other(s)
        }
    }
}

impl Position {
    pub open spec fn from_name(s: Seq<char>) -> Option<Position> {
        if s == "start"@ {
            Some(Position::Start)
        } else if s == "end"@ {
            Some(Position::End)
        } else if s == "random"@ {
            Some(Position::Random)
        } else {
            None
        }
    }

    /// The position named `s`.
    pub fn parse(s: &str) -> (r: Option<Position>)
        ensures
            r == Position::from_name(s@),
    {
        if str_eq(s, "start") {
            Some(Position::Start)
        } else if str_eq(s, "end") {
            Some(Position::End)
        } else if str_eq(s, "random") {
            Some(Position::Random)
        } else {
            None
        }
    }
}

/// The reference to an entry: a property with its key and value spans, or
/// an argument whose value is the whole entry.
pub open spec fn entry_ref(e: Entry) -> KdlItemRef {
    match e.name {
        Some(id) => KdlItemRef::EntryProp { entry: e.span, key: id.span, value: prop_value_span(e.span, id.span) },
        None => KdlItemRef::EntryArg { entry: e.span, value: e.span },
    }
}

pub fn entry_ref_exec(e: &Entry) -> (r: KdlItemRef)
    ensures
        r == entry_ref(*e),
{
    match &e.name {
        Some(id) => KdlItemRef::EntryProp { entry: e.span, key: id.span, value: prop_value_span_exec(e.span, id.span) },
        None => KdlItemRef::EntryArg { entry: e.span, value: e.span },
    }
}

/// Relies on `std::path::Path::metadata`: what is at `p` on disk now. The
/// answer depends on the filesystem, so nothing is promised of it.
#[verifier::external_body]
fn path_state(p: &str) -> (r: PathState) {
    match std::path::Path::new(p).metadata() {
        Err(e) if e.kind() == std::io::ErrorKind::NotFound => PathState::Missing,
        Err(e) => PathState::Unreadable(e.to_string()),
        Ok(m) => if m.is_dir() { PathState::Dir } else { PathState::File },
    }
}

/// A structural diagnostic as a configuration diagnostic.
pub fn parse_error(d: Diag) -> (r: ConfigDiagnostic)
    ensures
        r == ConfigDiagnostic::ParseError(d),
{
    ConfigDiagnostic::ParseError(d)
}

impl Env {
    /// The string value of `entry` expanded with this store's values.
    pub fn expand_kdl_entry(&self, entry: &Entry) -> (r: Result<String, ConfigDiagnostic>)
        requires
            self.wf(),
        ensures
            match string_from_entry_spec(*entry) {
                None => r matches Err(ConfigDiagnostic::ParseError(_)),
                Some(s) => match expand_spec(s, self.view_layers()) {
                    Ok((v, _)) => r matches Ok(x) && x@ == v,
                    Err((name, _, _)) => r matches Err(ConfigDiagnostic::EnvExpandError { error, source, .. })
                        && error.var@ == name && source == entry_ref(*entry),
                },
            },
    {
        let s = match string_from_entry(entry) {
            Ok(s) => s,
            Err(d) => return Err(parse_error(d)),
        };
        match self.expand(s.as_str()) {
            Ok(v) => Ok(v.value),
            Err(e) => {
                let keys = self.keys();
                Err(ConfigDiagnostic::EnvExpandError { error: e, source: entry_ref_exec(entry), expected: OneOf::from_names(keys) })
            },
        }
    }
}

/// The string of an entry that has no type annotation and a string value.
pub open spec fn string_from_entry_spec(e: Entry) -> Option<Seq<char>> {
    if e.ty is None {
        match e.value {
            crate::document::Value::Str(s) => Some(s@),
            _ => None,
        }
    } else {
        None
    }
}

fn names_of(names: &Vec<&str>) -> (r: OneOf)
    ensures
        crate::diag::names_view(r.names@) == names@.map_values(|s: &str| s@),
{
    OneOf::from_strs(names)
}

impl Position {
    /// The position written in `entry`.
    pub fn from_entry(entry: &Entry) -> (r: Result<Position, ConfigDiagnostic>)
        ensures
            match string_from_entry_spec(*entry) {
                None => r matches Err(ConfigDiagnostic::ParseError(_)),
                Some(s) => match Position::from_name(s) {
                    Some(p) => r == Ok::<Position, ConfigDiagnostic>(p),
                    None => r matches Err(ConfigDiagnostic::UnknownVariant { variant, source, source_ref, expected })
                        && variant@ == s && source == entry_ref(*entry) && source_ref is None
                        && crate::diag::names_view(expected.names@) == seq!["start"@, "end"@, "random"@],
                },
            },
    {
        let s = match string_from_entry(entry) {
            Ok(s) => s,
            Err(d) => return Err(parse_error(d)),
        };
        match Position::parse(s.as_str()) {
            Some(p) => Ok(p),
            None => {
                let expected = names_of(&vec!["start", "end", "random"]);
                proof {
                    assert(crate::diag::names_view(expected.names@) =~= seq!["start"@, "end"@, "random"@]);
                }
                Err(ConfigDiagnostic::unknown_variant(entry_ref_exec(entry), s, expected))
            },
        }
    }
}

impl Shell {
    /// The shell written in `entry`.
    pub fn from_entry(entry: &Entry) -> (r: Result<Shell, ConfigDiagnostic>)
        ensures
            match string_from_entry_spec(*entry) {
                None => r matches Err(ConfigDiagnostic::ParseError(_)),
                Some(s) => match Shell::from_name(s) {
                    Shell::Other(_) => r matches Ok(Shell::Other(n)) && n@ == s,
                    known => r == Ok::<Shell, ConfigDiagnostic>(known),
                },
            },
    {
        match string_from_entry(entry) {
            Ok(s) => Ok(Shell::parse(s)),
            Err(d) => Err(parse_error(d)),
        }
    }
}

/// The layers of a store, outermost first.
pub type Layers = Seq<Seq<(Seq<char>, Seq<char>)>>;

/// `l` with `k` set to `v` in its local (last) layer.
pub open spec fn insert_local(l: Layers, k: Seq<char>, v: Seq<char>) -> Layers {
    l.update(l.len() - 1, entries_insert(l.last(), k, v))
}

/// Setting a key in the local layer gives it the new value and leaves every
/// other key as it was.
pub proof fn lemma_insert_local(l: Layers, k: Seq<char>, v: Seq<char>, x: Seq<char>)
    requires
        l.len() >= 1,
    ensures
        chain_lookup(insert_local(l, k, v), x) == if x == k {
            Some(v)
        } else {
            chain_lookup(l, x)
        },
{
    lemma_lookup_insert(l.last(), k, v, x);
    assert(insert_local(l, k, v).drop_last() =~= l.drop_last());
}

/// What a failed resolution step reports: a structural problem (`Parse`),
/// or one of the diagnostics below with exactly these contents.
pub enum Failure {
    Parse,
    Message { span: Span, message: Seq<char>, severity: Severity },
    Unknown { variant: Seq<char>, source: KdlItemRef, expected: Seq<Seq<char>> },
    NotFound { path: Seq<char>, source: KdlItemRef },
    Expand { var: Seq<char>, source: KdlItemRef },
}

/// Whether diagnostic `e` is the report `f` describes.
pub open spec fn failure_matches(e: ConfigDiagnostic, f: Failure) -> bool {
    match f {
        Failure::Parse => e is ParseError,
        Failure::Message { span, message, severity } => e matches ConfigDiagnostic::ParseError(d) && d.span
            == span && d.message@ == message && d.severity == severity,
        Failure::Unknown { variant, source, expected } => e matches ConfigDiagnostic::UnknownVariant {
            variant: v,
            source: s,
            expected: x,
            source_ref,
        } && v@ == variant && s == source && names_view(x.names@) == expected && source_ref is None,
        Failure::NotFound { path, source } => e matches ConfigDiagnostic::PathNotFound { path: p, source: s }
            && p@ == path && s == source,
        Failure::Expand { var, source } => e matches ConfigDiagnostic::EnvExpandError { error, source: s, .. }
            && error.var@ == var && s == source,
    }
}

/// The string of `e` expanded under `l`.
pub open spec fn entry_value(e: Entry, l: Layers) -> Result<Seq<char>, Failure> {
    match string_from_entry_spec(e) {
        None => Err(Failure::Parse),
        Some(s) => match expand_spec(s, l) {
            Ok((v, _)) => Ok(v),
            Err((name, _, _)) => Err(Failure::Expand { var: name, source: entry_ref(e) }),
        },
    }
}

/// What one `env` node does to the layers `l`, `host` being the process
/// environment: `env K=V` and `env K V` set `K`, `env export K=V` sets `K`
/// as exported, `env import K[=D]` takes `K` from `host`, else `D`.
pub open spec fn env_node_spec(l: Layers, node: Node, host: Seq<(Seq<char>, Seq<char>)>) -> Result<Layers, Failure> {
    let es = node.entries@;
    if es.len() == 0 {
        Err(Failure::Parse)
    } else {
        let e0 = es[0];
        match e0.name {
            Some(id) => match entry_value(e0, l) {
                Ok(v) => Ok(insert_local(l, id.value@, v)),
                Err(f) => Err(f),
            },
            None => match e0.value {
                Value::Str(m) => if m@ == "export"@ {
                    if es.len() > 1 && es[1].name is Some {
                        match entry_value(es[1], l) {
                            Ok(v) => Ok(insert_local(l, es[1].name->Some_0.value@, v)),
                            Err(f) => Err(f),
                        }
                    } else {
                        Err(Failure::Parse)
                    }
                } else if m@ == "import"@ {
                    if es.len() > 1 && es[1].value is Str {
                        let e = es[1];
                        let s = e.value->Str_0@;
                        let key = match e.name {
                            Some(id) => id.value@,
                            None => s,
                        };
                        let default = match e.name {
                            Some(_) => s,
                            None => Seq::empty(),
                        };
                        match entries_lookup(host, key) {
                            Some(v) => Ok(insert_local(l, key, v)),
                            None => if default.len() > 0 {
                                Ok(insert_local(l, key, default))
                            } else {
                                Err(
                                    Failure::Message {
                                        span: e.span,
                                        message: "environment variable '"@ + key + "' not found"@,
                                        severity: Severity::Warning,
                                    },
                                )
                            },
                        }
                    } else {
                        Err(Failure::Parse)
                    }
                } else if es.len() == 2 && es[1].name is None {
                    match entry_value(es[1], l) {
                        Ok(v) => Ok(insert_local(l, m@, v)),
                        Err(f) => Err(f),
                    }
                } else {
                    Err(
                        Failure::Unknown {
                            variant: m@,
                            source: entry_ref(e0),
                            expected: seq!["export"@, "import"@],
                        },
                    )
                },
                _ => Err(Failure::Parse),
            },
        }
    }
}

/// The key that a successful `env` node sets, with the metadata recorded for
/// it: never inherited; exported for `export`, and for `import` where `host`
/// has the variable; the span of the entry that gave the value.
pub open spec fn env_node_meta(node: Node, host: Seq<(Seq<char>, Seq<char>)>) -> (Seq<char>, EnvItemMeta) {
    let es = node.entries@;
    let e0 = es[0];
    match e0.name {
        Some(id) => (id.value@, EnvItemMeta { inherited: false, exported: false, span: Some(entry_ref(e0)) }),
        None => {
            let m = e0.value->Str_0@;
            let e = es[1];
            if m == "export"@ {
                (e.name->Some_0.value@, EnvItemMeta { inherited: false, exported: true, span: Some(entry_ref(e)) })
            } else if m == "import"@ {
                let key = match e.name {
                    Some(id) => id.value@,
                    None => e.value->Str_0@,
                };
                (key, EnvItemMeta {
                    inherited: false,
                    exported: entries_lookup(host, key) is Some,
                    span: Some(entry_ref(e)),
                })
            } else {
                (m, EnvItemMeta { inherited: false, exported: false, span: Some(entry_ref(e)) })
            }
        },
    }
}

impl Env {
    /// Applies one `env` node to this store, as `env_node_spec` says. On a
    /// failure the store's values are unchanged.
    pub fn apply_node(&mut self, node: &Node, host: &IndexMap<String, String>) -> (r: Result<(), ConfigDiagnostic>)
        requires
            old(self).wf(),
        ensures
            final(self).wf(),
            match env_node_spec(old(self).view_layers(), *node, str_map_entries(*host)) {
                Ok(l) => r is Ok && final(self).view_layers() == l && ({
                    let (key, meta) = env_node_meta(*node, str_map_entries(*host));
                    &&& final(self).meta@.len() == old(self).meta@.len() + 1
                    &&& forall|i: int| 0 <= i < old(self).meta@.len() ==> final(self).meta@[i] == old(self).meta@[i]
                    &&& final(self).meta@.last().0@ == key
                    &&& final(self).meta@.last().1 == meta
                }),
                Err(f) => (r matches Err(e) && failure_matches(e, f)) && final(self).view_layers() == old(
                    self,
                ).view_layers() && final(self).meta@ == old(self).meta@,
            },
    {
        proof {
            reveal_strlit("export");
            reveal_strlit("import");
            assert("export"@[0] != "import"@[0]);
        }
        let first = match entry_at(node, 0) {
            Ok(e) => e,
            Err(d) => return Err(parse_error(d)),
        };
        match &first.name {
            Some(id) => {
                let v = self.expand_kdl_entry(first)?;
                self.insert(id.value.clone(), EnvValue::String(v), EnvItemMeta { inherited: false, exported: false, span: Some(entry_ref_exec(first)) });
                Ok(())
            },
            None => {
                let mode = match as_str(first) {
                    Ok(m) => m,
                    Err(d) => return Err(parse_error(d)),
                };
                if str_eq(mode.as_str(), "export") {
                    let (key, e) = match prop_at(node, 1) {
                        Ok(kv) => kv,
                        Err(d) => return Err(parse_error(d)),
                    };
                    let v = self.expand_kdl_entry(e)?;
                    self.insert(key.value.clone(), EnvValue::String(v), EnvItemMeta { inherited: false, exported: true, span: Some(entry_ref_exec(e)) });
                    Ok(())
                } else if str_eq(mode.as_str(), "import") {
                    let e = match entry_at(node, 1) {
                        Ok(e) => e,
                        Err(d) => return Err(parse_error(d)),
                    };
                    let s = match as_str(e) {
                        Ok(s) => s,
                        Err(d) => return Err(parse_error(d)),
                    };
                    let (key, default) = match &e.name {
                        Some(id) => (&id.value, if s.as_str().is_empty() { None } else { Some(s) }),
                        None => (s, None),
                    };
                    match str_map_get(host, key.as_str()) {
                        Some(v) => {
                            self.insert(key.clone(), EnvValue::String(v.clone()), EnvItemMeta { inherited: false, exported: true, span: Some(entry_ref_exec(e)) });
                            Ok(())
                        },
                        None => match default {
                            Some(d) => {
                                self.insert(key.clone(), EnvValue::String(d.clone()), EnvItemMeta { inherited: false, exported: false, span: Some(entry_ref_exec(e)) });
                                Ok(())
                            },
                            None => {
                                let mut m = String::new();
                                push_str(&mut m, "environment variable '");
                                push_str(&mut m, key.as_str());
                                push_str(&mut m, "' not found");
                                Err(ConfigDiagnostic::ParseError(Diag {
                                    span: e.span,
                                    message: m,
                                    help: Some("ensure the environment variable is set, or provide a default value".to_owned()),
                                    severity: Severity::Warning,
                                }))
                            },
                        },
                    }
                } else if node.entries.len() == 2 && node.entries[1].name.is_none() {
                    let v = self.expand_kdl_entry(&node.entries[1])?;
                    self.insert(mode.clone(), EnvValue::String(v), EnvItemMeta { inherited: false, exported: false, span: Some(entry_ref_exec(&node.entries[1])) });
                    Ok(())
                } else {
                    let expected = names_of(&vec!["export", "import"]);
                    assert(names_view(expected.names@) =~= seq!["export"@, "import"@]);
                    Err(ConfigDiagnostic::unknown_variant(entry_ref_exec(first), mode.clone(), expected))
                }
            },
        }
    }
}

/// What a resolved action holds, as plain values.
pub enum ItemView {
    Copy { source: Seq<char>, target: Seq<char>, span: Span },
    Link { source: Seq<char>, target: Seq<char>, span: Span },
    Alias { from: Seq<char>, to: Seq<char>, span: Span },
    Source { snippet: Seq<char>, position: Position, shell: Seq<char>, span: Span },
}

/// The name a shell is written with.
pub open spec fn shell_text(sh: Shell) -> Seq<char> {
    match sh {
        Shell::Bash => "bash"@,
        Shell::Zsh => "zsh"@,
        Shell::Fish => "fish"@,
        Shell::PowerShell => "pwsh"@,
        Shell::Nushell => "nushell"@,
        Shell::Other(n) => n@,
    }
}

pub open spec fn item_view(i: BundleItem) -> ItemView {
    match i {
        BundleItem::Copy { source, target, span } => ItemView::Copy { source: source@, target: target@, span },
        BundleItem::Link { source, target, span } => ItemView::Link { source: source@, target: target@, span },
        BundleItem::Alias { from, to, span } => ItemView::Alias { from: from@, to: to@, span },
        BundleItem::Source { snippet, position, shell, span } => ItemView::Source {
            snippet: snippet@,
            position,
            shell: shell_text(shell),
            span,
        },
    }
}

pub open spec fn items_view(s: Seq<BundleItem>) -> Seq<ItemView>
    decreases s.len(),
{
    if s.len() == 0 {
        Seq::empty()
    } else {
        items_view(s.drop_last()).push(item_view(s.last()))
    }
}

/// `alias KEY=VALUE`: the value expanded under `l`.
pub open spec fn alias_spec(node: Node, l: Layers) -> Result<ItemView, Failure> {
    let es = node.entries@;
    if es.len() > 0 && es[0].name is Some {
        match entry_value(es[0], l) {
            Ok(v) => Ok(ItemView::Alias { from: es[0].name->Some_0.value@, to: v, span: node.span }),
            Err(f) => Err(f),
        }
    } else {
        Err(Failure::Parse)
    }
}

/// `cp SRC DST` or `ln SRC DST`: the source under the dotfiles directory
/// `dir` must be among the existing paths `present`; the destination is
/// expanded under `l`.
pub open spec fn file_spec(node: Node, dir: Seq<char>, l: Layers, present: Seq<String>, link: bool) -> Result<
    ItemView,
    Failure,
> {
    let es = node.entries@;
    if !(es.len() > 0 && es[0].name is None) {
        Err(Failure::Parse)
    } else {
        match string_from_entry_spec(es[0]) {
            None => Err(Failure::Parse),
            Some(s) => {
                let src = join_path(dir, s);
                if !listed(present, src) {
                    Err(Failure::NotFound { path: src, source: entry_ref(es[0]) })
                } else {
                    match nth_arg(es, 1) {
                        None => Err(Failure::Parse),
                        Some(k) => match entry_value(es[k], l) {
                            Err(f) => Err(f),
                            Ok(v) => Ok(
                                if link {
                                    ItemView::Link { source: src, target: v, span: node.span }
                                } else {
                                    ItemView::Copy { source: src, target: v, span: node.span }
                                },
                            ),
                        },
                    }
                }
            },
        }
    }
}

/// `source SNIPPET shell=NAME [position=WHERE]`; the position defaults to random.
pub open spec fn source_spec(node: Node) -> Result<ItemView, Failure> {
    let es = node.entries@;
    match nth_arg(es, 0) {
        None => Err(Failure::Parse),
        Some(k) => match string_from_entry_spec(es[k]) {
            None => Err(Failure::Parse),
            Some(snippet) => match last_prop(es, "shell"@) {
                None => Err(Failure::Parse),
                Some(j) => match string_from_entry_spec(es[j]) {
                    None => Err(Failure::Parse),
                    Some(sh) => match last_prop(es, "position"@) {
                        None => Ok(ItemView::Source { snippet, position: Position::Random, shell: sh, span: node.span }),
                        Some(p) => match string_from_entry_spec(es[p]) {
                            None => Err(Failure::Parse),
                            Some(ps) => match Position::from_name(ps) {
                                Some(pos) => Ok(ItemView::Source { snippet, position: pos, shell: sh, span: node.span }),
                                None => Err(
                                    Failure::Unknown {
                                        variant: ps,
                                        source: entry_ref(es[p]),
                                        expected: seq!["start"@, "end"@, "random"@],
                                    },
                                ),
                            },
                        },
                    },
                },
            },
        },
    }
}

/// The action a `cp`, `ln`, `alias` or `source` node declares.
pub open spec fn item_spec(node: Node, dir: Seq<char>, l: Layers, present: Seq<String>) -> Result<ItemView, Failure> {
    let tag = node.name.value@;
    if tag == "alias"@ {
        alias_spec(node, l)
    } else if tag == "cp"@ {
        file_spec(node, dir, l, present, false)
    } else if tag == "ln"@ {
        file_spec(node, dir, l, present, true)
    } else {
        source_spec(node)
    }
}

pub open spec fn item_result_matches(r: Result<BundleItem, ConfigDiagnostic>, s: Result<ItemView, Failure>) -> bool {
    match s {
        Ok(v) => r matches Ok(item) && item_view(item) == v,
        Err(f) => r matches Err(e) && failure_matches(e, f),
    }
}

/// `alias KEY=VALUE`, the value expanded with `env`.
pub fn alias_item(node: &Node, env: &Env) -> (r: Result<BundleItem, ConfigDiagnostic>)
    requires
        env.wf(),
    ensures
        item_result_matches(r, alias_spec(*node, env.view_layers())),
{
    let (key, value) = match prop0(node) {
        Ok(kv) => kv,
        Err(d) => return Err(parse_error(d)),
    };
    let to = env.expand_kdl_entry(value)?;
    Ok(BundleItem::Alias { from: key.value.clone(), to, span: node.span })
}

/// A `cp` (or, with `link`, `ln`) action: its source must be listed in
/// `present`, the paths found to exist.
pub fn file_item(node: &Node, dir: &str, env: &Env, present: &Vec<String>, link: bool) -> (r: Result<
    BundleItem,
    ConfigDiagnostic,
>)
    requires
        env.wf(),
    ensures
        item_result_matches(r, file_spec(*node, dir@, env.view_layers(), present@, link)),
{
    let e0 = match arg0(node) {
        Ok(e) => e,
        Err(d) => return Err(parse_error(d)),
    };
    let s = match string_from_entry(e0) {
        Ok(s) => s,
        Err(d) => return Err(parse_error(d)),
    };
    let source = join_path_exec(dir, s.as_str());
    if !contains_str(present, source.as_str()) {
        return Err(ConfigDiagnostic::path_not_found(entry_ref_exec(e0), source));
    }
    let te = match arg(node, 1) {
        Ok(e) => e,
        Err(d) => return Err(parse_error(d)),
    };
    let target = env.expand_kdl_entry(te)?;
    if link {
        Ok(BundleItem::Link { source, target, span: node.span })
    } else {
        Ok(BundleItem::Copy { source, target, span: node.span })
    }
}

/// A `source` action.
pub fn source_item(node: &Node) -> (r: Result<BundleItem, ConfigDiagnostic>)
    ensures
        item_result_matches(r, source_spec(*node)),
{
    let snippet = match arg(node, 0) {
        Ok(e) => match string_from_entry(e) {
            Ok(s) => s,
            Err(d) => return Err(parse_error(d)),
        },
        Err(d) => return Err(parse_error(d)),
    };
    let shell = match prop(node, "shell") {
        Ok(e) => Shell::from_entry(e)?,
        Err(d) => return Err(parse_error(d)),
    };
    let position = match prop(node, "position") {
        Ok(e) => Position::from_entry(e)?,
        Err(_) => Position::Random,
    };
    Ok(BundleItem::Source { snippet, position, shell, span: node.span })
}

/// One action node of a bundle; `env` is the bundle's environment so far.
pub fn bundle_item(node: &Node, dir: &str, env: &Env, present: &Vec<String>) -> (r: Result<BundleItem, ConfigDiagnostic>)
    requires
        env.wf(),
    ensures
        item_result_matches(r, item_spec(*node, dir@, env.view_layers(), present@)),
{
    let tag = node.name.value.as_str();
    if str_eq(tag, "alias") {
        alias_item(node, env)
    } else if str_eq(tag, "cp") {
        file_item(node, dir, env, present, false)
    } else if str_eq(tag, "ln") {
        file_item(node, dir, env, present, true)
    } else {
        source_item(node)
    }
}

proof fn lemma_tags_distinct()
    ensures
        "env"@ != "cp"@,
        "env"@ != "ln"@,
        "env"@ != "alias"@,
        "env"@ != "source"@,
        "cp"@ != "ln"@,
        "cp"@ != "alias"@,
        "cp"@ != "source"@,
        "ln"@ != "alias"@,
        "ln"@ != "source"@,
        "alias"@ != "source"@,
{
    reveal_strlit("env");
    reveal_strlit("cp");
    reveal_strlit("ln");
    reveal_strlit("alias");
    reveal_strlit("source");
    assert("env"@[0] == 'e' && "cp"@[0] == 'c' && "ln"@[0] == 'l' && "alias"@[0] == 'a' && "source"@[0] == 's');
}

/// Whether `name` is one of the action tags a bundle accepts.
pub open spec fn is_bundle_tag(name: Seq<char>) -> bool {
    name == "cp"@ || name == "ln"@ || name == "alias"@ || name == "source"@ || name == "env"@
}

/// The children of a bundle from position `i` on, with the actions so far
/// and the bundle's own layers, if its first `env` child made them.
pub open spec fn children_from(
    nodes: Seq<Node>,
    i: int,
    dir: Seq<char>,
    outer: Layers,
    host: Seq<(Seq<char>, Seq<char>)>,
    present: Seq<String>,
    items: Seq<ItemView>,
    own: Option<Layers>,
) -> Result<(Seq<ItemView>, Option<Layers>), Failure>
    decreases nodes.len() - i,
{
    if i < 0 || i >= nodes.len() {
        Ok((items, own))
    } else {
        let t = nodes[i];
        let tag = t.name.value@;
        if tag == "env"@ {
            let base = match own {
                Some(o) => o,
                None => outer.push(Seq::empty()),
            };
            match env_node_spec(base, t, host) {
                Ok(l) => children_from(nodes, i + 1, dir, outer, host, present, items, Some(l)),
                Err(f) => Err(f),
            }
        } else if is_bundle_tag(tag) {
            let cur = match own {
                Some(o) => o,
                None => outer,
            };
            match item_spec(t, dir, cur, present) {
                Ok(v) => children_from(nodes, i + 1, dir, outer, host, present, items.push(v), own),
                Err(f) => Err(f),
            }
        } else {
            Err(
                Failure::Unknown {
                    variant: tag,
                    source: KdlItemRef::Node(t.span),
                    expected: seq!["cp"@, "ln"@, "alias"@, "source"@, "env"@],
                },
            )
        }
    }
}

/// The actions and own layers of one bundle node.
pub open spec fn bundle_spec(
    node: Node,
    dir: Seq<char>,
    outer: Layers,
    host: Seq<(Seq<char>, Seq<char>)>,
    present: Seq<String>,
) -> Result<(Seq<ItemView>, Option<Layers>), Failure> {
    match node.children {
        None => Ok((Seq::empty(), None)),
        Some(c) => children_from(c.nodes@, 0, dir, outer, host, present, Seq::empty(), None),
    }
}

pub open spec fn opt_layers(o: Option<Env>) -> Option<Layers> {
    match o {
        Some(e) => Some(e.view_layers()),
        None => None,
    }
}

/// The actions and the own environment of one bundle node. The bundle's
/// environment is made on its first `env` node; until then `outer` serves.
pub fn resolve_bundle(
    node: &Node,
    dir: &str,
    outer: &Env,
    host: &IndexMap<String, String>,
    present: &Vec<String>,
) -> (r: Result<(Vec<BundleItem>, Option<Env>), ConfigDiagnostic>)
    requires
        outer.wf(),
    ensures
        match bundle_spec(*node, dir@, outer.view_layers(), str_map_entries(*host), present@) {
            Ok((iv, own)) => r matches Ok((items, o)) && items_view(items@) == iv && opt_layers(o) == own && (
            o matches Some(e) ==> e.wf()),
            Err(f) => r matches Err(e) && failure_matches(e, f),
        },
{
    let mut items: Vec<BundleItem> = Vec::new();
    let mut own: Option<Env> = None;
    let ghost ol = outer.view_layers();
    let ghost he = str_map_entries(*host);
    proof {
        lemma_tags_distinct();
    }
    match &node.children {
        None => {
            assert(items_view(items@) =~= Seq::<ItemView>::empty());
            Ok((items, own))
        },
        Some(doc) => {
            let mut k: usize = 0;
            assert(items_view(items@) =~= Seq::<ItemView>::empty());
            while k < doc.nodes.len()
                invariant
                    k <= doc.nodes@.len(),
                    outer.wf(),
                    ol == outer.view_layers(),
                    he == str_map_entries(*host),
                    own matches Some(e) ==> e.wf(),
                    node.children == Some(*doc),
                    children_from(doc.nodes@, 0, dir@, ol, he, present@, Seq::empty(), None) == children_from(
                        doc.nodes@,
                        k as int,
                        dir@,
                        ol,
                        he,
                        present@,
                        items_view(items@),
                        opt_layers(own),
                    ),
                decreases doc.nodes@.len() - k,
            {
                let item_node = &doc.nodes[k];
                let tag = item_node.name.value.as_str();
                let ghost rest = children_from(doc.nodes@, k as int, dir@, ol, he, present@, items_view(items@), opt_layers(own));
                let ghost cur = match opt_layers(own) {
                    Some(o) => o,
                    None => ol,
                };
                if str_eq(tag, "env") {
                    let ghost base = match opt_layers(own) {
                        Some(o) => o,
                        None => ol.push(Seq::empty()),
                    };
                    assert(rest == match env_node_spec(base, *item_node, he) {
                        Ok(l) => children_from(doc.nodes@, k + 1, dir@, ol, he, present@, items_view(items@), Some(l)),
                        Err(f) => Err(f),
                    });
                    let mut e = match own {
                        Some(e) => e,
                        None => outer.child(),
                    };
                    assert(e.view_layers() == base);
                    e.apply_node(item_node, host)?;
                    own = Some(e);
                } else if str_eq(tag, "cp") || str_eq(tag, "ln") || str_eq(tag, "alias") || str_eq(tag, "source") {
                    let ghost old_items = items@;
                    let item = match &own {
                        Some(e) => bundle_item(item_node, dir, e, present)?,
                        None => bundle_item(item_node, dir, outer, present)?,
                    };
                    items.push(item);
                    proof {
                        assert(items@.drop_last() =~= old_items);
                    }
                } else {
                    let expected = names_of(&vec!["cp", "ln", "alias", "source", "env"]);
                    assert(names_view(expected.names@) =~= seq!["cp"@, "ln"@, "alias"@, "source"@, "env"@]);
                    return Err(ConfigDiagnostic::unknown_variant(KdlItemRef::Node(item_node.span), item_node.name.value.clone(), expected));
                }
                k += 1;
            }
            Ok((items, own))
        },
    }
}

/// The diagnostic for the dotfiles directory in `state`, if it is not a
/// directory.
pub fn check_dir(entry: &Entry, path: &String, state: PathState) -> (r: Result<(), ConfigDiagnostic>)
    ensures
        match state {
            PathState::Dir => r is Ok,
            PathState::Missing => r == Err::<(), ConfigDiagnostic>(
                ConfigDiagnostic::PathNotFound { path: *path, source: entry_ref(*entry) },
            ),
            PathState::File => r matches Err(ConfigDiagnostic::ParseError(d)) && d.span == entry.span
                && d.severity == Severity::Warning && d.message@ == "path is not a directory: "@ + path@,
            PathState::Unreadable(why) => r matches Err(ConfigDiagnostic::ParseError(d)) && d.span == entry.span
                && d.severity == Severity::Warning && d.message@ == "failed to access path "@ + path@ + ": "@
                + why@,
        },
{
    match state {
        PathState::Dir => Ok(()),
        PathState::Missing => Err(ConfigDiagnostic::path_not_found(entry_ref_exec(entry), path.clone())),
        PathState::File => {
            let mut m = String::new();
            push_str(&mut m, "path is not a directory: ");
            push_str(&mut m, path.as_str());
            Err(ConfigDiagnostic::ParseError(Diag {
                span: entry.span,
                message: m,
                help: Some("ensure the path is a directory, or update the configuration".to_owned()),
                severity: Severity::Warning,
            }))
        },
        PathState::Unreadable(why) => {
            let mut m = String::new();
            push_str(&mut m, "failed to access path ");
            push_str(&mut m, path.as_str());
            push_str(&mut m, ": ");
            push_str(&mut m, why.as_str());
            Err(ConfigDiagnostic::ParseError(Diag {
                span: entry.span,
                message: m,
                help: Some("check the path permissions or system state, or update the configuration".to_owned()),
                severity: Severity::Warning,
            }))
        },
    }
}

/// The index of the bundle named `name`, if any.
pub fn find_bundle(bundles: &Vec<Bundle>, name: &str) -> (r: Option<usize>)
    ensures
        match r {
            Some(i) => i < bundles@.len() && bundles@[i as int].name@ == name@ && forall|j: int|
                0 <= j < i ==> (#[trigger] bundles@[j]).name@ != name@,
            None => forall|i: int| 0 <= i < bundles@.len() ==> (#[trigger] bundles@[i]).name@ != name@,
        },
{
    let mut i: usize = 0;
    while i < bundles.len()
        invariant
            i <= bundles@.len(),
            forall|j: int| 0 <= j < i ==> (#[trigger] bundles@[j]).name@ != name@,
        decreases bundles@.len() - i,
    {
        if str_eq(bundles[i].name.as_str(), name) {
            return Some(i);
        }
        i += 1;
    }
    None
}

/// What a resolved bundle holds, as plain values.
pub struct BundleView {
    pub name: Seq<char>,
    pub items: Seq<ItemView>,
    pub env: Option<Layers>,
}

pub open spec fn bundle_view(b: Bundle) -> BundleView {
    BundleView { name: b.name@, items: items_view(b.items@), env: opt_layers(b.env) }
}

pub open spec fn bundles_view(s: Seq<Bundle>) -> Seq<BundleView>
    decreases s.len(),
{
    if s.len() == 0 {
        Seq::empty()
    } else {
        bundles_view(s.drop_last()).push(bundle_view(s.last()))
    }
}

proof fn lemma_bundles_view(s: Seq<Bundle>)
    ensures
        bundles_view(s).len() == s.len(),
        forall|j: int| 0 <= j < s.len() ==> #[trigger] bundles_view(s)[j] == bundle_view(s[j]),
    decreases s.len(),
{
    if s.len() > 0 {
        lemma_bundles_view(s.drop_last());
    }
}

/// What a resolved configuration holds, as plain values.
pub struct ConfigView {
    pub dir: Seq<char>,
    pub env: Layers,
    pub bundles: Seq<BundleView>,
}

pub open spec fn config_matches(c: Config, v: ConfigView) -> bool {
    &&& c.dotfiles_dir@ == v.dir
    &&& c.env.wf()
    &&& c.env.view_layers() == v.env
    &&& bundles_view(c.bundles@) == v.bundles
}

/// The entries that inserting `s` from position `i` on into `acc` gives.
pub open spec fn seed_from(s: Seq<(Seq<char>, Seq<char>)>, i: int, acc: Seq<(Seq<char>, Seq<char>)>) -> Seq<
    (Seq<char>, Seq<char>),
>
    decreases s.len() - i,
{
    if i < 0 || i >= s.len() {
        acc
    } else {
        seed_from(s, i + 1, entries_insert(acc, s[i].0, s[i].1))
    }
}

/// The single layer a store seeded with `base` holds.
pub open spec fn seed_layers(base: Seq<(Seq<char>, Seq<char>)>) -> Layers {
    seq![seed_from(base, 0, Seq::empty())]
}

/// Seeds a store with `base`, each value marked as inherited.
pub fn seeded_env(base: &IndexMap<String, String>) -> (r: Env)
    ensures
        r.wf(),
        r.view_layers() == seed_layers(str_map_entries(*base)),
        r.meta@.len() == str_map_entries(*base).len(),
        forall|i: int|
            0 <= i < r.meta@.len() ==> (#[trigger] r.meta@[i]).0@ == str_map_entries(*base)[i].0 && r.meta@[i].1 == (
            EnvItemMeta { inherited: true, exported: false, span: None }),
{
    let mut env = Env::empty();
    let ghost be = str_map_entries(*base);
    let ghost mut cur = Seq::<(Seq<char>, Seq<char>)>::empty();
    let n = str_map_len(base);
    let mut i: usize = 0;
    while i < n
        invariant
            env.wf(),
            be == str_map_entries(*base),
            i <= n == be.len(),
            env.view_layers() == seq![cur],
            seed_from(be, 0, Seq::empty()) == seed_from(be, i as int, cur),
            env.meta@.len() == i,
            forall|j: int|
                0 <= j < i ==> (#[trigger] env.meta@[j]).0@ == be[j].0 && env.meta@[j].1 == (EnvItemMeta {
                    inherited: true,
                    exported: false,
                    span: None,
                }),
        decreases n - i,
    {
        match str_map_get_index(base, i) {
            Some((k, v)) => {
                let ghost old_meta = env.meta@;
                env.insert(k.clone(), EnvValue::String(v.clone()), EnvItemMeta { inherited: true, exported: false, span: None });
                proof {
                    assert forall|j: int| 0 <= j < i + 1 implies (#[trigger] env.meta@[j]).0@ == be[j].0 && env.meta@[j].1 == (
                    EnvItemMeta { inherited: true, exported: false, span: None }) by {
                        if j < i {
                            assert(env.meta@[j] == old_meta[j]);
                        }
                    }
                    cur = entries_insert(cur, be[i as int].0, be[i as int].1);
                    assert(env.view_layers() =~= seq![cur]);
                }
            },
            None => {},
        }
        i += 1;
    }
    env
}

/// The layers after applying `nodes` from position `i` on to `l`.
pub open spec fn envs_from(nodes: Seq<Node>, i: int, l: Layers, host: Seq<(Seq<char>, Seq<char>)>) -> Result<
    Layers,
    Failure,
>
    decreases nodes.len() - i,
{
    if i < 0 || i >= nodes.len() {
        Ok(l)
    } else {
        match env_node_spec(l, nodes[i], host) {
            Ok(l2) => envs_from(nodes, i + 1, l2, host),
            Err(f) => Err(f),
        }
    }
}

/// Whether some bundle of `acc` is named `name`.
pub open spec fn name_taken(acc: Seq<BundleView>, name: Seq<char>) -> bool {
    exists|j: int| 0 <= j < acc.len() && acc[j].name == name
}

/// The bundles of `nodes` from position `i` on, after those in `acc`.
pub open spec fn bundles_from(
    nodes: Seq<Node>,
    i: int,
    dir: Seq<char>,
    env: Layers,
    host: Seq<(Seq<char>, Seq<char>)>,
    present: Seq<String>,
    acc: Seq<BundleView>,
) -> Result<Seq<BundleView>, Failure>
    decreases nodes.len() - i,
{
    if i < 0 || i >= nodes.len() {
        Ok(acc)
    } else {
        let b = nodes[i];
        let es = b.entries@;
        if !(es.len() > 0 && es[0].name is None) {
            Err(Failure::Parse)
        } else {
            match string_from_entry_spec(es[0]) {
                None => Err(Failure::Parse),
                Some(name) => if name_taken(acc, name) {
                    Err(
                        Failure::Message {
                            span: b.span,
                            message: "node '"@ + b.name.value@ + "' with id '"@ + name
                                + "' can only be specified once"@,
                            severity: Severity::Error,
                        },
                    )
                } else {
                    match bundle_spec(b, dir, env, host, present) {
                        Ok((items, own)) => bundles_from(
                            nodes,
                            i + 1,
                            dir,
                            env,
                            host,
                            present,
                            acc.push(BundleView { name, items, env: own }),
                        ),
                        Err(f) => Err(f),
                    }
                },
            }
        }
    }
}

/// What the state `state` of the dotfiles directory `dir` reports, if it is
/// not a directory.
pub open spec fn dir_failure(e: Entry, dir: Seq<char>, state: PathState) -> Option<Failure> {
    match state {
        PathState::Dir => None,
        PathState::Missing => Some(Failure::NotFound { path: dir, source: entry_ref(e) }),
        PathState::File => Some(
            Failure::Message { span: e.span, message: "path is not a directory: "@ + dir, severity: Severity::Warning },
        ),
        PathState::Unreadable(why) => Some(
            Failure::Message {
                span: e.span,
                message: "failed to access path "@ + dir + ": "@ + why@,
                severity: Severity::Warning,
            },
        ),
    }
}

/// The resolution of `doc`: the store seeded with `base`; the one
/// `dotfiles_dir` node's argument expanded, found in `state`; every
/// top-level `env` node applied in order; then every `bundle` node in order,
/// names unique. `present` lists the action sources that exist.
pub open spec fn resolve_spec(
    doc: Document,
    base: Seq<(Seq<char>, Seq<char>)>,
    host: Seq<(Seq<char>, Seq<char>)>,
    state: PathState,
    present: Seq<String>,
) -> Result<ConfigView, Failure> {
    let dn = named_nodes(doc.nodes@, "dotfiles_dir"@);
    if dn.len() == 0 {
        Err(
            Failure::Message {
                span: doc.span,
                message: "node "@ + quote("dotfiles_dir"@) + " is required"@,
                severity: Severity::Error,
            },
        )
    } else if dn.len() > 1 {
        Err(
            Failure::Message {
                span: dn[1].span,
                message: "node "@ + quote("dotfiles_dir"@) + " can only be specified once"@,
                severity: Severity::Error,
            },
        )
    } else {
        let es = dn[0].entries@;
        if !(es.len() > 0 && es[0].name is None) {
            Err(Failure::Parse)
        } else {
            let seed = seed_layers(base);
            match entry_value(es[0], seed) {
                Err(f) => Err(f),
                Ok(dir) => match dir_failure(es[0], dir, state) {
                    Some(f) => Err(f),
                    None => match envs_from(named_nodes(doc.nodes@, "env"@), 0, seed, host) {
                        Err(f) => Err(f),
                        Ok(env) => match bundles_from(
                            named_nodes(doc.nodes@, "bundle"@),
                            0,
                            dir,
                            env,
                            host,
                            present,
                            Seq::empty(),
                        ) {
                            Err(f) => Err(f),
                            Ok(bs) => Ok(ConfigView { dir, env, bundles: bs }),
                        },
                    },
                },
            }
        }
    }
}

/// What resolution gives once the top-level `env` nodes gave `envr`.
pub open spec fn finish_resolve(
    envr: Result<Layers, Failure>,
    bn: Seq<Node>,
    dir: Seq<char>,
    host: Seq<(Seq<char>, Seq<char>)>,
    present: Seq<String>,
) -> Result<ConfigView, Failure> {
    match envr {
        Err(f) => Err(f),
        Ok(env) => match bundles_from(bn, 0, dir, env, host, present, Seq::empty()) {
            Err(f) => Err(f),
            Ok(bs) => Ok(ConfigView { dir, env, bundles: bs }),
        },
    }
}

pub open spec fn resolve_matches(r: Result<Config, ConfigDiagnostic>, s: Result<ConfigView, Failure>) -> bool {
    match s {
        Ok(v) => r matches Ok(c) && config_matches(c, v),
        Err(f) => r matches Err(e) && failure_matches(e, f),
    }
}

/// The dotfiles directory `doc` names, expanded with the store seeded from
/// `base`, where there is exactly one and it expands.
pub open spec fn dotfiles_dir_of(doc: Document, base: Seq<(Seq<char>, Seq<char>)>) -> Option<Seq<char>> {
    let dn = named_nodes(doc.nodes@, "dotfiles_dir"@);
    if dn.len() == 1 && dn[0].entries@.len() > 0 && dn[0].entries@[0].name is None {
        match entry_value(dn[0].entries@[0], seed_layers(base)) {
            Ok(d) => Some(d),
            Err(_) => None,
        }
    } else {
        None
    }
}

/// The source path of child `k` of bundle node `b` under `dir`, where that
/// child is a `cp` or `ln` node whose first entry is a string argument.
pub open spec fn source_of_child(bn: Seq<Node>, b: int, k: int, dir: Seq<char>) -> Option<Seq<char>> {
    if 0 <= b < bn.len() && bn[b].children is Some && 0 <= k < bn[b].children->Some_0.nodes@.len() {
        let t = bn[b].children->Some_0.nodes@[k];
        if (t.name.value@ == "cp"@ || t.name.value@ == "ln"@) && t.entries@.len() > 0 && t.entries@[0].name is None {
            match string_from_entry_spec(t.entries@[0]) {
                Some(s) => Some(join_path(dir, s)),
                None => None,
            }
        } else {
            None
        }
    } else {
        None
    }
}

/// Whether `p` is one of the action sources of `doc`: the dotfiles directory
/// joined with the first argument of a `cp` or `ln` child of a bundle.
pub open spec fn is_source_candidate(doc: Document, base: Seq<(Seq<char>, Seq<char>)>, p: Seq<char>) -> bool {
    dotfiles_dir_of(doc, base) matches Some(d) && exists|b: int, k: int|
        #[trigger] source_of_child(named_nodes(doc.nodes@, "bundle"@), b, k, d) == Some(p)
}

/// Whether `p` is a directory or a file.
fn exists_on_disk(p: &str) -> bool {
    match path_state(p) {
        PathState::Dir | PathState::File => true,
        _ => false,
    }
}

/// Asks the disk what resolution needs: the state of the dotfiles directory
/// and which action sources under it exist.
fn probe(doc: &Document, base: &IndexMap<String, String>) -> (r: (PathState, Vec<String>))
    ensures
        forall|i: int| 0 <= i < r.1@.len() ==> is_source_candidate(*doc, str_map_entries(*base), (#[trigger] r.1@[i])@),
{
    let ghost be = str_map_entries(*base);
    let mut present: Vec<String> = Vec::new();
    let env = seeded_env(base);
    let dir_node = match get_node_required_one(&doc.nodes, doc.span, "dotfiles_dir") {
        Ok(n) => n,
        Err(_) => return (PathState::Missing, present),
    };
    let dir_entry = match arg0(dir_node) {
        Ok(e) => e,
        Err(_) => return (PathState::Missing, present),
    };
    let dir = match env.expand_kdl_entry(dir_entry) {
        Ok(d) => d,
        Err(_) => return (PathState::Missing, present),
    };
    let state = path_state(dir.as_str());
    assert(dotfiles_dir_of(*doc, be) == Some(dir@));
    let bundles = get_children_named(&doc.nodes, "bundle");
    let ghost bn = named_nodes(doc.nodes@, "bundle"@);
    let mut b: usize = 0;
    while b < bundles.len()
        invariant
            be == str_map_entries(*base),
            dotfiles_dir_of(*doc, be) == Some(dir@),
            bundles@.len() == bn.len(),
            bn == named_nodes(doc.nodes@, "bundle"@),
            forall|j: int| 0 <= j < bundles@.len() ==> #[trigger] bundles@[j] < doc.nodes@.len(),
            forall|j: int| 0 <= j < bundles@.len() ==> doc.nodes@[#[trigger] bundles@[j] as int] == bn[j],
            forall|i: int| 0 <= i < present@.len() ==> is_source_candidate(*doc, be, (#[trigger] present@[i])@),
        decreases bundles@.len() - b,
    {
        if let Some(children) = &doc.nodes[bundles[b]].children {
            let mut k: usize = 0;
            while k < children.nodes.len()
                invariant
                    b < bundles@.len(),
                    bundles@.len() == bn.len(),
                    be == str_map_entries(*base),
                    dotfiles_dir_of(*doc, be) == Some(dir@),
                    bn == named_nodes(doc.nodes@, "bundle"@),
                    bn[b as int].children == Some(*children),
                    forall|i: int| 0 <= i < present@.len() ==> is_source_candidate(*doc, be, (#[trigger] present@[i])@),
                decreases children.nodes@.len() - k,
            {
                let t = &children.nodes[k];
                if str_eq(t.name.value.as_str(), "cp") || str_eq(t.name.value.as_str(), "ln") {
                    if let Ok(e) = arg0(t) {
                        if let Ok(s) = string_from_entry(e) {
                            let src = join_path_exec(dir.as_str(), s.as_str());
                            if exists_on_disk(src.as_str()) {
                                assert(source_of_child(bn, b as int, k as int, dir@) == Some(src@));
                                assert(is_source_candidate(*doc, be, src@));
                                let ghost old_p = present@;
                                present.push(src);
                                assert forall|i: int| 0 <= i < present@.len() implies is_source_candidate(
                                    *doc,
                                    be,
                                    (#[trigger] present@[i])@,
                                ) by {
                                    if i < old_p.len() {
                                        assert(present@[i] == old_p[i]);
                                    }
                                }
                            }
                        }
                    }
                }
                k += 1;
            }
        }
        b += 1;
    }
    (state, present)
}

impl Config {
    /// Resolves `doc` given the answers of the disk: `state` is what the
    /// dotfiles directory is, `present` the action sources that exist.
    /// `base` holds the well-known values the store starts from, `host` the
    /// process environment that `env import` reads. The first failure aborts.
    pub fn resolve(
        doc: &Document,
        base: &IndexMap<String, String>,
        host: &IndexMap<String, String>,
        state: PathState,
        present: &Vec<String>,
    ) -> (r: Result<Config, ConfigDiagnostic>)
        ensures
            resolve_matches(r, resolve_spec(*doc, str_map_entries(*base), str_map_entries(*host), state, present@)),
    {
        let ghost he = str_map_entries(*host);
        let ghost seed = seed_layers(str_map_entries(*base));
        let ghost whole = resolve_spec(*doc, str_map_entries(*base), he, state, present@);
        let mut env = seeded_env(base);
        let dir_node = match get_node_required_one(&doc.nodes, doc.span, "dotfiles_dir") {
            Ok(n) => n,
            Err(d) => return Err(parse_error(d)),
        };
        let dir_entry = match arg0(dir_node) {
            Ok(e) => e,
            Err(d) => return Err(parse_error(d)),
        };
        let dotfiles_dir = env.expand_kdl_entry(dir_entry)?;
        check_dir(dir_entry, &dotfiles_dir, state)?;

        let env_nodes = get_children_named(&doc.nodes, "env");
        let ghost en = named_nodes(doc.nodes@, "env"@);
        let ghost bn = named_nodes(doc.nodes@, "bundle"@);
        assert(whole == finish_resolve(envs_from(en, 0, seed, he), bn, dotfiles_dir@, he, present@));
        let mut i: usize = 0;
        while i < env_nodes.len()
            invariant
                env.wf(),
                i <= env_nodes@.len(),
                he == str_map_entries(*host),
                env_nodes@.len() == en.len(),
                forall|j: int| 0 <= j < env_nodes@.len() ==> #[trigger] env_nodes@[j] < doc.nodes@.len(),
                forall|j: int| 0 <= j < env_nodes@.len() ==> doc.nodes@[#[trigger] env_nodes@[j] as int] == en[j],
                envs_from(en, 0, seed, he) == envs_from(en, i as int, env.view_layers(), he),
                whole == finish_resolve(envs_from(en, 0, seed, he), bn, dotfiles_dir@, he, present@),
                whole == resolve_spec(*doc, str_map_entries(*base), he, state, present@),
            decreases env_nodes@.len() - i,
        {
            let ghost cur = env.view_layers();
            let node = &doc.nodes[env_nodes[i]];
            assert(*node == en[i as int]);
            assert(envs_from(en, i as int, cur, he) == match env_node_spec(cur, *node, he) {
                Ok(l2) => envs_from(en, i + 1, l2, he),
                Err(f) => Err(f),
            });
            match env.apply_node(node, host) {
                Ok(()) => {},
                Err(e) => {
                    assert(whole == Err::<ConfigView, Failure>(env_node_spec(cur, *node, he)->Err_0));
                    return Err(e);
                },
            }
            i += 1;
        }

        let bundle_nodes = get_children_named(&doc.nodes, "bundle");
        let ghost el = env.view_layers();
        assert(envs_from(en, i as int, el, he) == Ok::<Layers, Failure>(el));
        let mut bundles: Vec<Bundle> = Vec::new();
        let mut b: usize = 0;
        while b < bundle_nodes.len()
            invariant
                env.wf(),
                el == env.view_layers(),
                he == str_map_entries(*host),
                b <= bundle_nodes@.len(),
                bundle_nodes@.len() == bn.len(),
                forall|j: int| 0 <= j < bundle_nodes@.len() ==> #[trigger] bundle_nodes@[j] < doc.nodes@.len(),
                forall|j: int| 0 <= j < bundle_nodes@.len() ==> doc.nodes@[#[trigger] bundle_nodes@[j] as int] == bn[j],
                bundles_from(bn, 0, dotfiles_dir@, el, he, present@, Seq::empty()) == bundles_from(
                    bn,
                    b as int,
                    dotfiles_dir@,
                    el,
                    he,
                    present@,
                    bundles_view(bundles@),
                ),
                whole == finish_resolve(Ok(el), bn, dotfiles_dir@, he, present@),
                whole == resolve_spec(*doc, str_map_entries(*base), he, state, present@),
            decreases bundle_nodes@.len() - b,
        {
            let node = &doc.nodes[bundle_nodes[b]];
            let name = match arg0(node) {
                Ok(e) => match string_from_entry(e) {
                    Ok(s) => s,
                    Err(d) => return Err(parse_error(d)),
                },
                Err(d) => return Err(parse_error(d)),
            };
            proof {
                lemma_bundles_view(bundles@);
            }
            if let Some(j) = find_bundle(&bundles, name.as_str()) {
                assert(bundles_view(bundles@)[j as int].name == name@);
                let mut m = String::new();
                push_str(&mut m, "node '");
                push_str(&mut m, node.name.value.as_str());
                push_str(&mut m, "' with id '");
                push_str(&mut m, name.as_str());
                push_str(&mut m, "' can only be specified once");
                assert(m@ =~= "node '"@ + node.name.value@ + "' with id '"@ + name@ + "' can only be specified once"@);
                return Err(parse_error(crate::helpers::diag(node.span, m)));
            }
            assert(!name_taken(bundles_view(bundles@), name@)) by {
                if name_taken(bundles_view(bundles@), name@) {
                    let j = choose|j: int| 0 <= j < bundles_view(bundles@).len() && bundles_view(bundles@)[j].name == name@;
                    assert(bundles@[j].name@ == name@);
                }
            }
            let (items, own) = resolve_bundle(node, dotfiles_dir.as_str(), &env, host, present)?;
            let ghost old_b = bundles@;
            bundles.push(Bundle { name, items, env: own });
            proof {
                assert(bundles@.drop_last() =~= old_b);
            }
            b += 1;
        }
        Ok(Config { env, dotfiles_dir, bundles })
    }

    /// Resolves `doc`, asking the disk about the dotfiles directory and the
    /// action sources. Whatever the disk answers, the result is what
    /// `resolve` gives for some such answers; resolution stops at the first
    /// failure.
    pub fn from_kdl(
        doc: &Document,
        base: &IndexMap<String, String>,
        host: &IndexMap<String, String>,
    ) -> (r: Result<Config, ConfigDiagnostic>)
        ensures
            exists|state: PathState, present: Seq<String>|
                resolve_matches(
                    r,
                    #[trigger] resolve_spec(*doc, str_map_entries(*base), str_map_entries(*host), state, present),
                ) && forall|i: int|
                    0 <= i < present.len() ==> is_source_candidate(*doc, str_map_entries(*base), (#[trigger] present[i])@),
    {
        let (state, present) = probe(doc, base);
        let r = Config::resolve(doc, base, host, state, &present);
        assert(resolve_matches(r, resolve_spec(*doc, str_map_entries(*base), str_map_entries(*host), state, present@)));
        r
    }

    /// The environment of bundle `name`: its own, else the configuration's.
    pub fn get_env_for_bundle(&self, name: &str) -> (r: &Env)
        ensures
            match find_bundle_spec(self.bundles@, name@) {
                Some(i) => match self.bundles@[i].env {
                    Some(e) => *r == e,
                    None => *r == self.env,
                },
                None => *r == self.env,
            },
    {
        match find_bundle(&self.bundles, name) {
            Some(i) => {
                proof {
                    lemma_find_first(self.bundles@, name@, i as int);
                }
                match &self.bundles[i].env {
                    Some(e) => e,
                    None => &self.env,
                }
            },
            None => {
                proof {
                    lemma_find_none(self.bundles@, name@);
                }
                &self.env
            },
        }
    }
}

/// The index of the first bundle named `name`.
pub open spec fn find_bundle_spec(bundles: Seq<Bundle>, name: Seq<char>) -> Option<int>
    decreases bundles.len(),
{
    if bundles.len() == 0 {
        None
    } else if bundles.last().name@ == name && find_bundle_spec(bundles.drop_last(), name) is None {
        Some(bundles.len() - 1)
    } else {
        find_bundle_spec(bundles.drop_last(), name)
    }
}

proof fn lemma_find_none(bundles: Seq<Bundle>, name: Seq<char>)
    requires
        forall|i: int| 0 <= i < bundles.len() ==> (#[trigger] bundles[i]).name@ != name,
    ensures
        find_bundle_spec(bundles, name) is None,
    decreases bundles.len(),
{
    if bundles.len() > 0 {
        lemma_find_none(bundles.drop_last(), name);
    }
}

proof fn lemma_find_first(bundles: Seq<Bundle>, name: Seq<char>, i: int)
    requires
        0 <= i < bundles.len(),
        bundles[i].name@ == name,
        forall|j: int| 0 <= j < i ==> (#[trigger] bundles[j]).name@ != name,
    ensures
        find_bundle_spec(bundles, name) == Some(i),
    decreases bundles.len(),
{
    if i < bundles.len() - 1 {
        lemma_find_first(bundles.drop_last(), name, i);
    } else {
        lemma_find_none(bundles.drop_last(), name);
    }
}

} // verus!
