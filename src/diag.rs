//! Source spans, references to parts of a document, and the diagnostics that
//! resolution raises, each anchored to a span of the document text.

use crate::expand::ExpandError;
use crate::helpers::{decimal, decimal_exec};
use crate::text::push_str;
use vstd::prelude::*;

verus! {

/// A byte range of the document text: `len` bytes from `offset`.
#[derive(Clone, Copy, Debug, PartialEq, Eq)]
pub struct Span {
    pub offset: usize,
    pub len: usize,
}

impl Span {
    pub fn new(offset: usize, len: usize) -> (r: Span)
        ensures
            r.offset == offset && r.len == len,
    {
        Span { offset, len }
    }

    /// Whether `inner` lies within this span.
    pub open spec fn contains(self, inner: Span) -> bool {
        self.offset <= inner.offset && inner.offset + inner.len <= self.offset + self.len
    }
}

/// How grave a diagnostic is.
#[derive(Clone, Copy, Debug, PartialEq, Eq)]
pub enum Severity {
    Advice,
    Warning,
    Error,
}

impl Severity {
    pub open spec fn name_spec(self) -> Seq<char> {
        match self {
            Severity::Advice => "Advice"@,
            Severity::Warning => "Warning"@,
            Severity::Error => "Error"@,
        }
    }

    /// The severity's name.
    pub fn name(&self) -> (r: &'static str)
        ensures
            r@ == self.name_spec(),
    {
        match self {
            Severity::Advice => "Advice",
            Severity::Warning => "Warning",
            Severity::Error => "Error",
        }
    }
}

/// The text of an expansion error.
pub open spec fn expand_error_text(e: ExpandError) -> Seq<char> {
    "environment variable '$"@ + e.var@ + "' not found at offset "@ + decimal(e.offset as nat) + " (len "@
        + decimal(e.len as nat) + ")"@
}

/// The text of an expansion error.
pub fn expand_error_describe(e: &ExpandError) -> (r: String)
    ensures
        r@ == expand_error_text(*e),
{
    let mut s = String::new();
    push_str(&mut s, "environment variable '$");
    push_str(&mut s, e.var.as_str());
    push_str(&mut s, "' not found at offset ");
    let o = decimal_exec(e.offset);
    push_str(&mut s, o.as_str());
    push_str(&mut s, " (len ");
    let l = decimal_exec(e.len);
    push_str(&mut s, l.as_str());
    push_str(&mut s, ")");
    s
}

/// `offset:+len`, the form a span takes in flattened diagnostics.
pub open spec fn span_text(sp: Span) -> Seq<char> {
    decimal(sp.offset as nat) + ":+"@ + decimal(sp.len as nat)
}

pub fn span_describe(sp: Span) -> (r: String)
    ensures
        r@ == span_text(sp),
{
    let mut s = decimal_exec(sp.offset);
    push_str(&mut s, ":+");
    let l = decimal_exec(sp.len);
    push_str(&mut s, l.as_str());
    s
}

/// A place in the document that a diagnostic points at.
#[derive(Clone, Copy, Debug, PartialEq, Eq)]
pub enum KdlItemRef {
    Document(Span),
    Node(Span),
    EntryArg { entry: Span, value: Span },
    EntryProp { entry: Span, key: Span, value: Span },
    Unknown(Span),
}

impl KdlItemRef {
    /// What kind of item this is, in words.
    pub fn at_str(&self) -> (r: &'static str)
        ensures
            r@ == self.at_spec(),
    {
        match self {
            KdlItemRef::Document(_) => "document",
            KdlItemRef::Node(_) => "node",
            KdlItemRef::EntryArg { .. } => "argument",
            KdlItemRef::EntryProp { .. } => "property",
            KdlItemRef::Unknown(_) => "unknown",
        }
    }

    pub open spec fn at_spec(self) -> Seq<char> {
        match self {
            KdlItemRef::Document(_) => "document"@,
            KdlItemRef::Node(_) => "node"@,
            KdlItemRef::EntryArg { .. } => "argument"@,
            KdlItemRef::EntryProp { .. } => "property"@,
            KdlItemRef::Unknown(_) => "unknown"@,
        }
    }

    /// What kind of value this item holds, in words.
    pub fn at_value_str(&self) -> (r: &'static str)
        ensures
            r@ == self.at_value_spec(),
    {
        match self {
            KdlItemRef::Document(_) => "document",
            KdlItemRef::Node(_) => "node",
            KdlItemRef::EntryArg { .. } => "argument value",
            KdlItemRef::EntryProp { .. } => "property value",
            KdlItemRef::Unknown(_) => "unknown",
        }
    }

    pub open spec fn at_value_spec(self) -> Seq<char> {
        match self {
            KdlItemRef::Document(_) => "document"@,
            KdlItemRef::Node(_) => "node"@,
            KdlItemRef::EntryArg { .. } => "argument value"@,
            KdlItemRef::EntryProp { .. } => "property value"@,
            KdlItemRef::Unknown(_) => "unknown"@,
        }
    }

    /// The span of the whole item.
    pub fn span(&self) -> (r: Span)
        ensures
            r == match *self {
                KdlItemRef::Document(s) | KdlItemRef::Node(s) | KdlItemRef::Unknown(s) => s,
                KdlItemRef::EntryArg { entry, .. } | KdlItemRef::EntryProp { entry, .. } => entry,
            },
    {
        match self {
            KdlItemRef::Document(s) | KdlItemRef::Node(s) | KdlItemRef::Unknown(s) => *s,
            KdlItemRef::EntryArg { entry, .. } | KdlItemRef::EntryProp { entry, .. } => *entry,
        }
    }

    /// The span of the item's value.
    pub fn span_value(&self) -> (r: Span)
        ensures
            r == self.value_spec(),
    {
        match self {
            KdlItemRef::Document(s) | KdlItemRef::Node(s) | KdlItemRef::Unknown(s) => *s,
            KdlItemRef::EntryArg { value, .. } | KdlItemRef::EntryProp { value, .. } => *value,
        }
    }

    pub open spec fn value_spec(self) -> Span {
        match self {
            KdlItemRef::Document(s) | KdlItemRef::Node(s) | KdlItemRef::Unknown(s) => s,
            KdlItemRef::EntryArg { value, .. } | KdlItemRef::EntryProp { value, .. } => value,
        }
    }

    /// The span of the item's key; an argument's key is the whole entry.
    pub fn span_key(&self) -> (r: Span)
        ensures
            r == match *self {
                KdlItemRef::Document(s) | KdlItemRef::Node(s) | KdlItemRef::Unknown(s) => s,
                KdlItemRef::EntryArg { entry, .. } => entry,
                KdlItemRef::EntryProp { key, .. } => key,
            },
    {
        match self {
            KdlItemRef::Document(s) | KdlItemRef::Node(s) | KdlItemRef::Unknown(s) => *s,
            KdlItemRef::EntryArg { entry, .. } => *entry,
            KdlItemRef::EntryProp { key, .. } => *key,
        }
    }
}

/// The value span of a property `key=value` whose entry spans `entry` and
/// whose key spans `key`: it starts after the key and the `=`, and runs to the
/// end of the entry. Where the key and the `=` do not fit in the entry, the
/// whole entry stands for the value.
pub open spec fn prop_value_span(entry: Span, key: Span) -> Span {
    if key.len + 1 <= entry.len && entry.offset + entry.len <= usize::MAX {
        Span { offset: (entry.offset + key.len + 1) as usize, len: (entry.len - key.len - 1) as usize }
    } else {
        entry
    }
}

pub fn prop_value_span_exec(entry: Span, key: Span) -> (r: Span)
    ensures
        r == prop_value_span(entry, key),
        entry.contains(r),
{
    if key.len < entry.len && entry.offset <= usize::MAX - entry.len {
        Span { offset: entry.offset + key.len + 1, len: entry.len - key.len - 1 }
    } else {
        entry
    }
}

/// A diagnostic raised while reading the document's structure.
#[derive(Clone, Debug, PartialEq, Eq)]
pub struct Diag {
    pub span: Span,
    pub message: String,
    pub help: Option<String>,
    pub severity: Severity,
}

/// A closed set of accepted names, for help messages.
#[derive(Clone, Debug, PartialEq, Eq)]
pub struct OneOf {
    pub names: Vec<String>,
}

/// The words that list the accepted names.
pub open spec fn one_of_text(names: Seq<Seq<char>>) -> Seq<char> {
    if names.len() == 0 {
        "there are no variants"@
    } else if names.len() == 1 {
        quoted(names[0])
    } else if names.len() == 2 {
        quoted(names[0]) + " or "@ + quoted(names[1])
    } else {
        "one of "@ + quoted_list(names)
    }
}

pub open spec fn quoted(s: Seq<char>) -> Seq<char> {
    "`"@ + s + "`"@
}

/// The names quoted and separated by commas.
pub open spec fn quoted_list(names: Seq<Seq<char>>) -> Seq<char>
    decreases names.len(),
{
    if names.len() == 0 {
        Seq::empty()
    } else if names.len() == 1 {
        quoted(names[0])
    } else {
        quoted_list(names.drop_last()) + ", "@ + quoted(names.last())
    }
}

pub open spec fn names_view(names: Seq<String>) -> Seq<Seq<char>> {
    names.map_values(|s: String| s@)
}

impl OneOf {
    pub fn from_names(names: Vec<String>) -> (r: OneOf)
        ensures
            r.names@ == names@,
    {
        OneOf { names }
    }

    /// `OneOf` of the given names.
    pub fn from_strs(names: &Vec<&str>) -> (r: OneOf)
        ensures
            names_view(r.names@) == names@.map_values(|s: &str| s@),
    {
        let mut v: Vec<String> = Vec::new();
        let mut k: usize = 0;
        while k < names.len()
            invariant
                k <= names@.len(),
                v@.len() == k,
                forall|j: int| 0 <= j < k ==> (#[trigger] v@[j])@ == names@[j]@,
            decreases names@.len() - k,
        {
            let item = names[k].to_owned();
            v.push(item);
            k += 1;
        }
        assert(names_view(v@) =~= names@.map_values(|s: &str| s@));
        OneOf { names: v }
    }

    /// The accepted names in words: "`a`", "`a` or `b`", "one of `a`, `b`, `c`".
    pub fn describe(&self) -> (r: String)
        ensures
            r@ == one_of_text(names_view(self.names@)),
    {
        let n = self.names.len();
        let ghost names = names_view(self.names@);
        let mut s = String::new();
        if n == 0 {
            push_str(&mut s, "there are no variants");
            return s;
        }
        if n == 2 {
            push_quoted(&mut s, self.names[0].as_str());
            push_str(&mut s, " or ");
            push_quoted(&mut s, self.names[1].as_str());
            return s;
        }
        if n > 2 {
            push_str(&mut s, "one of ");
        }
        let ghost head = s@;
        let mut k: usize = 0;
        while k < n
            invariant
                n == self.names@.len(),
                names == names_view(self.names@),
                k <= n,
                n != 2 && n != 0,
                s@ == head + quoted_list(names.subrange(0, k as int)),
            decreases n - k,
        {
            if k > 0 {
                push_str(&mut s, ", ");
            }
            push_quoted(&mut s, self.names[k].as_str());
            proof {
                let sub = names.subrange(0, k + 1);
                assert(sub.drop_last() =~= names.subrange(0, k as int));
                if k == 0 {
                    assert(head + quoted(names[0]) == head + quoted_list(sub));
                }
            }
            k += 1;
        }
        proof {
            assert(names.subrange(0, n as int) =~= names);
            if n == 1 {
                assert(head =~= Seq::<char>::empty());
                assert(head + quoted(names[0]) =~= quoted(names[0]));
            }
        }
        s
    }
}

fn push_quoted(s: &mut String, t: &str)
    ensures
        final(s)@ == old(s)@ + quoted(t@),
{
    push_str(s, "`");
    push_str(s, t);
    push_str(s, "`");
    assert(old(s)@ + "`"@ + t@ + "`"@ =~= old(s)@ + quoted(t@));
}

/// A diagnostic of configuration resolution.
#[derive(Clone, Debug, PartialEq, Eq)]
pub enum ConfigDiagnostic {
    /// A value outside a closed set of names; `source_ref` points at where
    /// the set is declared, if anywhere.
    UnknownVariant { variant: String, expected: OneOf, source: KdlItemRef, source_ref: Option<KdlItemRef> },
    /// A declared path that does not exist.
    PathNotFound { path: String, source: KdlItemRef },
    /// A structural problem with the document.
    ParseError(Diag),
    /// A reference to an unset or empty variable.
    EnvExpandError { error: ExpandError, source: KdlItemRef, expected: OneOf },
}

impl ConfigDiagnostic {
    pub fn unknown_variant(source: KdlItemRef, variant: String, expected: OneOf) -> (r: ConfigDiagnostic)
        ensures
            r == (ConfigDiagnostic::UnknownVariant { variant, expected, source, source_ref: None }),
    {
        ConfigDiagnostic::UnknownVariant { variant, expected, source, source_ref: None }
    }

    pub fn unknown_variant_reference(
        source: KdlItemRef,
        variant: String,
        expected: OneOf,
        source_ref: KdlItemRef,
    ) -> (r: ConfigDiagnostic)
        ensures
            r == (ConfigDiagnostic::UnknownVariant {
                variant,
                expected,
                source,
                source_ref: Some(source_ref),
            }),
    {
        ConfigDiagnostic::UnknownVariant { variant, expected, source, source_ref: Some(source_ref) }
    }

    pub fn path_not_found(source: KdlItemRef, path: String) -> (r: ConfigDiagnostic)
        ensures
            r == (ConfigDiagnostic::PathNotFound { path, source }),
    {
        ConfigDiagnostic::PathNotFound { path, source }
    }

    pub fn env_expand_error(source: KdlItemRef, error: ExpandError, expected: OneOf) -> (r: ConfigDiagnostic)
        ensures
            r == (ConfigDiagnostic::EnvExpandError { error, source, expected }),
    {
        ConfigDiagnostic::EnvExpandError { error, source, expected }
    }

    pub open spec fn span_spec(self) -> Span {
        match self {
            ConfigDiagnostic::UnknownVariant { source, .. } => source.value_spec(),
            ConfigDiagnostic::PathNotFound { source, .. } => source.value_spec(),
            ConfigDiagnostic::ParseError(d) => d.span,
            ConfigDiagnostic::EnvExpandError { source, .. } => source.value_spec(),
        }
    }

    /// The span the diagnostic points at: the value of its item.
    pub fn span(&self) -> (r: Span)
        ensures
            r == self.span_spec(),
    {
        match self {
            ConfigDiagnostic::UnknownVariant { source, .. } => source.span_value(),
            ConfigDiagnostic::PathNotFound { source, .. } => source.span_value(),
            ConfigDiagnostic::ParseError(d) => d.span,
            ConfigDiagnostic::EnvExpandError { source, .. } => source.span_value(),
        }
    }

    pub open spec fn kind_spec(self) -> Seq<char> {
        match self {
            ConfigDiagnostic::UnknownVariant { source_ref, .. } => if source_ref is Some {
                "unknown variant reference"@
            } else {
                "unknown variant"@
            },
            ConfigDiagnostic::ParseError(_) => "parse error"@,
            ConfigDiagnostic::PathNotFound { .. } => "path not found"@,
            ConfigDiagnostic::EnvExpandError { .. } => "environment expansion error"@,
        }
    }

    /// The kind of the diagnostic, in words.
    pub fn kind(&self) -> (r: &'static str)
        ensures
            r@ == self.kind_spec(),
    {
        match self {
            ConfigDiagnostic::UnknownVariant { source_ref, .. } => if source_ref.is_some() {
                "unknown variant reference"
            } else {
                "unknown variant"
            },
            ConfigDiagnostic::ParseError(_) => "parse error",
            ConfigDiagnostic::PathNotFound { .. } => "path not found",
            ConfigDiagnostic::EnvExpandError { .. } => "environment expansion error",
        }
    }

    /// How grave the diagnostic is: a structural diagnostic keeps its own
    /// severity, every other is an error.
    pub fn severity(&self) -> (r: Severity)
        ensures
            r == match *self {
                ConfigDiagnostic::ParseError(d) => d.severity,
                _ => Severity::Error,
            },
    {
        match self {
            ConfigDiagnostic::ParseError(d) => d.severity,
            _ => Severity::Error,
        }
    }

    /// The help text.
    pub fn help(&self) -> (r: Option<String>)
        ensures
            match *self {
                ConfigDiagnostic::UnknownVariant { expected, .. } => r matches Some(h) && h@ == "expected "@
                    + one_of_text(names_view(expected.names@)),
                ConfigDiagnostic::EnvExpandError { expected, .. } => r matches Some(h) && h@ == "expected "@
                    + one_of_text(names_view(expected.names@)),
                ConfigDiagnostic::PathNotFound { .. } => r matches Some(h) && h@ == "ensure the path exists"@,
                ConfigDiagnostic::ParseError(d) => r == d.help,
            },
    {
        match self {
            ConfigDiagnostic::UnknownVariant { expected, .. } | ConfigDiagnostic::EnvExpandError {
                expected,
                ..
            } => {
                let mut s = String::new();
                push_str(&mut s, "expected ");
                let d = expected.describe();
                push_str(&mut s, d.as_str());
                Some(s)
            },
            ConfigDiagnostic::PathNotFound { .. } => Some("ensure the path exists".to_owned()),
            ConfigDiagnostic::ParseError(d) => d.help.clone(),
        }
    }

    /// The labelled spans: the diagnostic's own, and for an unknown variant
    /// with a reference, the reference's.
    pub fn labels(&self) -> (r: Vec<(String, Span)>)
        ensures
            r@.len() >= 1,
            r@[0].0@ == "here"@,
            r@[0].1 == self.span_spec(),
            match *self {
                ConfigDiagnostic::UnknownVariant { source_ref: Some(x), .. } => r@.len() == 2
                    && r@[1].0@ == "reference "@ + x.at_spec() && r@[1].1 == match x {
                    KdlItemRef::Document(s) | KdlItemRef::Node(s) | KdlItemRef::Unknown(s) => s,
                    KdlItemRef::EntryArg { entry, .. } | KdlItemRef::EntryProp { entry, .. } => entry,
                },
                _ => r@.len() == 1,
            },
    {
        let mut v: Vec<(String, Span)> = Vec::new();
        v.push(("here".to_owned(), self.span()));
        match self {
            ConfigDiagnostic::UnknownVariant { source_ref: Some(x), .. } => {
                let mut s = String::new();
                push_str(&mut s, "reference ");
                push_str(&mut s, x.at_str());
                v.push((s, x.span()));
            },
            _ => {},
        }
        v
    }
}

impl ConfigDiagnostic {
    pub open spec fn message_spec(self) -> Seq<char> {
        match self {
            ConfigDiagnostic::UnknownVariant { variant, expected, source, .. } => "unknown variant `"@
                + variant@ + "` at "@ + source.at_value_spec() + ", expected "@ + one_of_text(
                names_view(expected.names@),
            ),
            ConfigDiagnostic::PathNotFound { path, .. } => "path not found: "@ + path@,
            ConfigDiagnostic::ParseError(d) => d.message@,
            ConfigDiagnostic::EnvExpandError { error, source, .. } => "failed to expand environment variable at "@
                + source.at_value_spec() + ": "@ + expand_error_text(error),
        }
    }

    /// The diagnostic's message.
    pub fn message(&self) -> (r: String)
        ensures
            r@ == self.message_spec(),
    {
        let mut s = String::new();
        match self {
            ConfigDiagnostic::UnknownVariant { variant, expected, source, .. } => {
                push_str(&mut s, "unknown variant `");
                push_str(&mut s, variant.as_str());
                push_str(&mut s, "` at ");
                push_str(&mut s, source.at_value_str());
                push_str(&mut s, ", expected ");
                let d = expected.describe();
                push_str(&mut s, d.as_str());
            },
            ConfigDiagnostic::PathNotFound { path, .. } => {
                push_str(&mut s, "path not found: ");
                push_str(&mut s, path.as_str());
            },
            ConfigDiagnostic::ParseError(d) => {
                push_str(&mut s, d.message.as_str());
            },
            ConfigDiagnostic::EnvExpandError { error, source, .. } => {
                push_str(&mut s, "failed to expand environment variable at ");
                push_str(&mut s, source.at_value_str());
                push_str(&mut s, ": ");
                let d = expand_error_describe(error);
                push_str(&mut s, d.as_str());
            },
        }
        s
    }

    /// The diagnostic flattened into named fields: message, span, kind, help
    /// where there is one, and severity.
    pub fn jsonable(&self) -> (r: Vec<(String, String)>)
        ensures
            flattened(*self, r@),
    {
        let mut v: Vec<(String, String)> = Vec::new();
        v.push(("message".to_owned(), self.message()));
        v.push(("span".to_owned(), span_describe(self.span())));
        v.push(("kind".to_owned(), self.kind().to_owned()));
        let help = self.help();
        match help {
            Some(h) => v.push(("help".to_owned(), h)),
            None => {},
        }
        v.push(("severity".to_owned(), self.severity().name().to_owned()));
        v
    }
}

/// Whether `fields` is the flattened form of `d`.
pub open spec fn flattened(d: ConfigDiagnostic, fields: Seq<(String, String)>) -> bool {
    let n = fields.len();
    &&& n == 4 || n == 5
    &&& fields[0].0@ == "message"@ && fields[0].1@ == d.message_spec()
    &&& fields[1].0@ == "span"@ && fields[1].1@ == span_text(d.span_spec())
    &&& fields[2].0@ == "kind"@ && fields[2].1@ == d.kind_spec()
    &&& n == 5 ==> fields[3].0@ == "help"@
    &&& fields[n - 1].0@ == "severity"@ && fields[n - 1].1@ == (match d {
        ConfigDiagnostic::ParseError(x) => x.severity,
        _ => Severity::Error,
    }).name_spec()
    &&& (n == 4) == (d matches ConfigDiagnostic::ParseError(x) && x.help is None)
}

/// All diagnostics of one resolution, with the text they point into.
#[derive(Clone, Debug)]
pub struct ConfigError {
    pub input: String,
    pub diagnostics: Vec<ConfigDiagnostic>,
}

impl ConfigError {
    /// Every diagnostic flattened, in order.
    pub fn diagnostics_jsonable(&self) -> (r: Vec<Vec<(String, String)>>)
        ensures
            r@.len() == self.diagnostics@.len(),
            forall|i: int| 0 <= i < r@.len() ==> flattened(self.diagnostics@[i], (#[trigger] r@[i])@),
    {
        let mut out: Vec<Vec<(String, String)>> = Vec::new();
        let mut i: usize = 0;
        while i < self.diagnostics.len()
            invariant
                i <= self.diagnostics@.len(),
                out@.len() == i,
                forall|j: int| 0 <= j < i ==> flattened(self.diagnostics@[j], (#[trigger] out@[j])@),
            decreases self.diagnostics@.len() - i,
        {
            out.push(self.diagnostics[i].jsonable());
            i += 1;
        }
        out
    }

    pub fn from_str(input: String, diagnostics: Vec<ConfigDiagnostic>) -> (r: ConfigError)
        ensures
            r.input@ == input@,
            r.diagnostics@ == diagnostics@,
    {
        ConfigError { input, diagnostics }
    }
}

} // verus!
