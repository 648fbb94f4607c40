//! Shell-style variable expansion: `$NAME`, `${NAME}`, `${NAME:-default}` and
//! `${NAME:+alt}`, scanned once from left to right and never re-scanned.

use crate::strmap::{entries_lookup, str_map_clone, str_map_entries, str_map_get};
use crate::text::{chars_of, push_range, push_str, string_of_range};
use indexmap::IndexMap;
use vstd::prelude::*;

verus! {

/// The shape of one variable reference.
#[derive(Clone, Copy, PartialEq, Eq, Debug)]
pub enum RefForm {
    /// `$NAME`
    Plain,
    /// `${NAME}`
    Braced,
    /// `${NAME:-text}`
    Default,
    /// `${NAME:+text}`
    Alt,
}

/// Where one reference lies in the scanned characters: the name is
/// `[name_lo, name_hi)`, the default or alternative text `[text_lo, text_hi)`,
/// and the whole reference ends before `end`.
#[derive(Clone, Copy, Debug)]
pub struct RefSpan {
    pub form: RefForm,
    pub name_lo: usize,
    pub name_hi: usize,
    pub text_lo: usize,
    pub text_hi: usize,
    pub end: usize,
}

/// The successful result of an expansion.
#[derive(Debug, Clone, PartialEq, Eq)]
pub struct ExpandValue {
    pub value: String,
    pub raw: String,
    pub replacement_count: usize,
}

/// A reference to a variable that is unset or empty and has no default.
/// `offset` and `len` are byte positions within the expanded input.
#[derive(Debug, Clone, PartialEq, Eq)]
pub struct ExpandError {
    pub var: String,
    pub offset: usize,
    pub len: usize,
}

/// Whether `c` is a Unicode word character, as `regex_syntax` decides it.
pub uninterp spec fn unicode_word(c: char) -> bool;

/// Relies on `regex_syntax::is_word_character`: whether `c` is a Unicode
/// word character (alphabetic, decimal digit, mark, connector punctuation or
/// join control). It panics only without the crate's default features.
#[verifier::external_body]
fn is_unicode_word(c: char) -> (r: bool)
    ensures
        r == unicode_word(c),
{
    regex_syntax::is_word_character(c)
}

/// Word characters make up variable names: among ASCII, letters, digits and
/// the underscore; beyond ASCII, the Unicode word characters.
pub open spec fn is_word_char(c: char) -> bool {
    if (c as u32) < 0x80 {
        ('a' <= c && c <= 'z') || ('A' <= c && c <= 'Z') || ('0' <= c && c <= '9') || c == '_'
    } else {
        unicode_word(c)
    }
}

/// The number of name characters from position `j` on.
pub open spec fn word_run(s: Seq<char>, j: int) -> nat
    decreases s.len() - j,
{
    if 0 <= j < s.len() && is_word_char(s[j]) {
        1 + word_run(s, j + 1)
    } else {
        0
    }
}

/// The position of the first `}` at or after `j`, or the length of `s`.
pub open spec fn find_close(s: Seq<char>, j: int) -> int
    decreases s.len() - j,
{
    if j < 0 || j >= s.len() {
        s.len() as int
    } else if s[j] == '}' {
        j
    } else {
        find_close(s, j + 1)
    }
}

/// The reference that starts at position `i`, if one does, as
/// (form, name_lo, name_hi, text_lo, text_hi, end).
pub open spec fn ref_at(s: Seq<char>, i: int) -> Option<(RefForm, int, int, int, int, int)> {
    if !(0 <= i && i + 1 < s.len() && s[i] == '$') {
        None
    } else if is_word_char(s[i + 1]) {
        let n = i + 1 + word_run(s, i + 1);
        Some((RefForm::Plain, i + 1, n, n, n, n))
    } else if s[i + 1] == '{' && word_run(s, i + 2) > 0 {
        let j = i + 2 + word_run(s, i + 2);
        if j < s.len() && s[j] == '}' {
            Some((RefForm::Braced, i + 2, j, j, j, j + 1))
        } else if j + 1 < s.len() && s[j] == ':' && (s[j + 1] == '-' || s[j + 1] == '+') {
            let k = find_close(s, j + 2);
            if k < s.len() {
                let form = if s[j + 1] == '-' {
                    RefForm::Default
                } else {
                    RefForm::Alt
                };
                Some((form, i + 2, j, j + 2, k, k + 1))
            } else {
                None
            }
        } else {
            None
        }
    } else {
        None
    }
}

/// The bytes that one character takes in UTF-8.
pub open spec fn char_width(c: char) -> nat {
    let u = c as u32;
    if u < 0x80 {
        1
    } else if u < 0x800 {
        2
    } else if u < 0x10000 {
        3
    } else {
        4
    }
}

/// The length in bytes of the UTF-8 encoding of `s`.
pub open spec fn utf8_len(s: Seq<char>) -> nat
    decreases s.len(),
{
    if s.len() == 0 {
        0
    } else {
        utf8_len(s.drop_last()) + char_width(s.last())
    }
}

/// `n` where it fits in `usize`, else `usize::MAX`.
pub open spec fn clamp_usize(n: nat) -> usize {
    if n > usize::MAX {
        usize::MAX
    } else {
        n as usize
    }
}

/// What one reference contributes: its text and whether it counts as a
/// replacement, or the failing name with the reference's position.
pub open spec fn ref_piece(
    s: Seq<char>,
    i: int,
    r: (RefForm, int, int, int, int, int),
    env: Seq<Seq<(Seq<char>, Seq<char>)>>,
) -> Result<(Seq<char>, nat), (Seq<char>, int, int)> {
    let name = s.subrange(r.1, r.2);
    let v = chain_value(env, name);
    let text = s.subrange(r.3, r.4);
    match r.0 {
        RefForm::Plain | RefForm::Braced => if v.len() == 0 {
            Err((name, i, r.5))
        } else {
            Ok((v, 1))
        },
        RefForm::Default => Ok((if v.len() == 0 { text } else { v }, 1)),
        RefForm::Alt => Ok((if v.len() == 0 { Seq::empty() } else { text }, 0)),
    }
}

/// Puts `out` and `c` in front of an expansion result; an error passes through.
pub open spec fn prepend(
    out: Seq<char>,
    c: nat,
    rest: Result<(Seq<char>, nat), (Seq<char>, int, int)>,
) -> Result<(Seq<char>, nat), (Seq<char>, int, int)> {
    match rest {
        Ok((o, n)) => Ok((out + o, c + n)),
        Err(e) => Err(e),
    }
}

/// The expansion of `s` from position `i` on, where `env` gives each name's
/// value (the empty sequence for an unset name): the expanded text with the
/// number of replacements, or the first failing reference as
/// (name, start, end).
pub open spec fn expand_from(
    s: Seq<char>,
    i: int,
    env: Seq<Seq<(Seq<char>, Seq<char>)>>,
) -> Result<
    (Seq<char>, nat),
    (Seq<char>, int, int),
>
    decreases s.len() - i,
{
    if i < 0 || i >= s.len() {
        Ok((Seq::empty(), 0))
    } else {
        match ref_at(s, i) {
            None => prepend(seq![s[i]], 0, expand_from(s, i + 1, env)),
            Some(r) => match ref_piece(s, i, r, env) {
                Err(e) => Err(e),
                Ok((p, c)) => if i < r.5 <= s.len() {
                    prepend(p, c, expand_from(s, r.5, env))
                } else {
                    Ok((p, c))
                },
            },
        }
    }
}

/// The whole expansion of `s` under `env`.
pub open spec fn expand_spec(
    s: Seq<char>,
    env: Seq<Seq<(Seq<char>, Seq<char>)>>,
) -> Result<
    (Seq<char>, nat),
    (Seq<char>, int, int),
> {
    expand_from(s, 0, env)
}

/// The value of `k` in the innermost layer that holds it, `None` if no
/// layer does. The last layer is the innermost.
pub open spec fn chain_lookup(layers: Seq<Seq<(Seq<char>, Seq<char>)>>, k: Seq<char>) -> Option<Seq<char>>
    decreases layers.len(),
{
    if layers.len() == 0 {
        None
    } else {
        match entries_lookup(layers.last(), k) {
            Some(v) => Some(v),
            None => chain_lookup(layers.drop_last(), k),
        }
    }
}

/// The value of `k` through the layers, empty where no layer holds it.
pub open spec fn chain_value(layers: Seq<Seq<(Seq<char>, Seq<char>)>>, k: Seq<char>) -> Seq<char> {
    match chain_lookup(layers, k) {
        Some(v) => v,
        None => Seq::empty(),
    }
}

/// The entries of each map of a chain.
pub open spec fn layers_view(maps: Seq<IndexMap<String, String>>) -> Seq<Seq<(Seq<char>, Seq<char>)>> {
    maps.map_values(|m: IndexMap<String, String>| str_map_entries(m))
}

/// Whether an expansion result and an exec result agree, offsets in bytes.
pub open spec fn expand_agrees(
    s: Seq<char>,
    spec_r: Result<(Seq<char>, nat), (Seq<char>, int, int)>,
    r: Result<ExpandValue, ExpandError>,
) -> bool {
    match (spec_r, r) {
        (Ok((o, c)), Ok(v)) => v.value@ == o && v.replacement_count as nat == c && v.raw@ == s,
        (Err((name, lo, hi)), Err(e)) => e.var@ == name && e.offset == clamp_usize(
            utf8_len(s.subrange(0, lo)),
        ) && e.len == clamp_usize(utf8_len(s.subrange(lo, hi))),
        _ => false,
    }
}

fn is_word(c: char) -> (r: bool)
    ensures
        r == is_word_char(c),
{
    if (c as u32) < 0x80 {
        ('a' <= c && c <= 'z') || ('A' <= c && c <= 'Z') || ('0' <= c && c <= '9') || c == '_'
    } else {
        is_unicode_word(c)
    }
}

fn word_run_exec(s: &Vec<char>, j: usize) -> (n: usize)
    requires
        j <= s@.len(),
    ensures
        n as int == word_run(s@, j as int),
        j + n <= s@.len(),
{
    let mut k = j;
    while k < s.len() && is_word(s[k])
        invariant
            j <= k <= s@.len(),
            word_run(s@, j as int) == (k - j) + word_run(s@, k as int),
        decreases s@.len() - k,
    {
        k += 1;
    }
    k - j
}

fn find_close_exec(s: &Vec<char>, j: usize) -> (k: usize)
    requires
        j <= s@.len(),
    ensures
        k as int == find_close(s@, j as int),
        j <= k <= s@.len(),
{
    let mut k = j;
    while k < s.len() && s[k] != '}'
        invariant
            j <= k <= s@.len(),
            find_close(s@, j as int) == find_close(s@, k as int),
        decreases s@.len() - k,
    {
        k += 1;
    }
    k
}

/// The reference that starts at position `i` of `s`, if one does.
pub fn ref_at_exec(s: &Vec<char>, i: usize) -> (r: Option<RefSpan>)
    requires
        i < s@.len(),
    ensures
        match ref_at(s@, i as int) {
            None => r is None,
            Some(t) => r matches Some(m) && t == (
                m.form,
                m.name_lo as int,
                m.name_hi as int,
                m.text_lo as int,
                m.text_hi as int,
                m.end as int,
            ),
        },
{
    proof {
        lemma_ref_at_bounds(s@, i as int);
    }
    if !(s.len() - i > 1 && s[i] == '$') {
        return None;
    }
    if is_word(s[i + 1]) {
        let n = i + 1 + word_run_exec(s, i + 1);
        return Some(RefSpan { form: RefForm::Plain, name_lo: i + 1, name_hi: n, text_lo: n, text_hi: n, end: n });
    }
    if s[i + 1] != '{' {
        return None;
    }
    let w = word_run_exec(s, i + 2);
    if w == 0 {
        return None;
    }
    let j = i + 2 + w;
    if j < s.len() && s[j] == '}' {
        return Some(RefSpan { form: RefForm::Braced, name_lo: i + 2, name_hi: j, text_lo: j, text_hi: j, end: j + 1 });
    }
    if j < s.len() && s.len() - j > 1 && s[j] == ':' && (s[j + 1] == '-' || s[j + 1] == '+') {
        let k = find_close_exec(s, j + 2);
        if k < s.len() {
            let form = if s[j + 1] == '-' {
                RefForm::Default
            } else {
                RefForm::Alt
            };
            return Some(RefSpan { form, name_lo: i + 2, name_hi: j, text_lo: j + 2, text_hi: k, end: k + 1 });
        }
    }
    None
}

fn char_width_exec(c: char) -> (w: usize)
    ensures
        w as nat == char_width(c),
{
    let u = c as u32;
    if u < 0x80 {
        1
    } else if u < 0x800 {
        2
    } else if u < 0x10000 {
        3
    } else {
        4
    }
}

/// The UTF-8 length in bytes of `s[lo..hi]`, saturated at `usize::MAX`.
pub fn utf8_len_exec(s: &Vec<char>, lo: usize, hi: usize) -> (r: usize)
    requires
        lo <= hi <= s@.len(),
    ensures
        r == clamp_usize(utf8_len(s@.subrange(lo as int, hi as int))),
{
    let mut r: usize = 0;
    let mut k = lo;
    while k < hi
        invariant
            lo <= k <= hi <= s@.len(),
            r == clamp_usize(utf8_len(s@.subrange(lo as int, k as int))),
        decreases hi - k,
    {
        let w = char_width_exec(s[k]);
        let ghost prev = s@.subrange(lo as int, k as int);
        let ghost next = s@.subrange(lo as int, k + 1);
        assert(next.drop_last() =~= prev);
        assert(next.last() == s@[k as int]);
        if r > usize::MAX - w {
            r = usize::MAX;
        } else {
            r = r + w;
        }
        k += 1;
    }
    r
}

/// The value that the chain of maps gives `name`, empty if unset.
fn lookup_value(layers: &Vec<IndexMap<String, String>>, name: &str) -> (r: String)
    ensures
        r@ == chain_value(layers_view(layers@), name@),
{
    let ghost lv = layers_view(layers@);
    let mut k = layers.len();
    assert(lv.subrange(0, k as int) =~= lv);
    while k > 0
        invariant
            k <= layers@.len(),
            lv == layers_view(layers@),
            chain_lookup(lv, name@) == chain_lookup(lv.subrange(0, k as int), name@),
        decreases k,
    {
        let ghost sub = lv.subrange(0, k as int);
        assert(sub.drop_last() =~= lv.subrange(0, k - 1));
        assert(sub.last() == str_map_entries(layers@[k - 1]));
        match str_map_get(&layers[k - 1], name) {
            Some(v) => {
                return v.clone();
            },
            None => {},
        }
        k -= 1;
    }
    String::new()
}

/// Expands `input` with the values of a chain of maps, innermost last.
pub fn expand_chain(input: &str, layers: &Vec<IndexMap<String, String>>) -> (r: Result<ExpandValue, ExpandError>)
    ensures
        expand_agrees(
            input@,
            expand_spec(
                input@,
                layers_view(layers@),
            ),
            r,
        ),
{
    let ghost env = layers_view(layers@);
    let s = chars_of(input);
    let n = s.len();
    let mut out = String::new();
    let mut count: usize = 0;
    let mut i: usize = 0;
    while i < n
        invariant
            n == s@.len(),
            s@ == input@,
            env == layers_view(layers@),
            i <= n,
            count <= i,
            expand_from(s@, 0, env) == prepend(out@, count as nat, expand_from(s@, i as int, env)),
        decreases n - i,
    {
        match ref_at_exec(&s, i) {
            None => {
                let ghost before = out@;
                push_range(&mut out, &s, i, i + 1);
                assert(s@.subrange(i as int, i + 1) =~= seq![s@[i as int]]);
                proof {
                    assert(expand_from(s@, i as int, env) == prepend(
                        seq![s@[i as int]],
                        0,
                        expand_from(s@, i + 1, env),
                    ));
                    lemma_prepend_assoc(before, seq![s@[i as int]], count as nat, 0, expand_from(s@, i + 1, env));
                }
                i += 1;
            },
            Some(m) => {
                proof {
                    lemma_ref_at_bounds(s@, i as int);
                }
                let name = string_of_range(&s, m.name_lo, m.name_hi);
                let name_str = name.as_str();
                let v = lookup_value(layers, name_str);
                let empty = v.as_str().is_empty();
                let ghost before = out@;
                let ghost piece = ref_piece(s@, i as int, ref_at(s@, i as int)->Some_0, env);
                match m.form {
                    RefForm::Plain | RefForm::Braced => {
                        if empty {
                            assert(piece is Err);
                            let offset = utf8_len_exec(&s, 0, i);
                            let len = utf8_len_exec(&s, i, m.end);
                            return Err(ExpandError { var: name, offset, len });
                        }
                        push_str(&mut out, v.as_str());
                        count += 1;
                    },
                    RefForm::Default => {
                        if empty {
                            push_range(&mut out, &s, m.text_lo, m.text_hi);
                        } else {
                            push_str(&mut out, v.as_str());
                        }
                        count += 1;
                    },
                    RefForm::Alt => {
                        if !empty {
                            push_range(&mut out, &s, m.text_lo, m.text_hi);
                        }
                    },
                }
                proof {
                    let (p, c) = piece->Ok_0;
                    assert(out@ == before + p);
                    assert(expand_from(s@, i as int, env) == prepend(p, c, expand_from(s@, m.end as int, env)));
                    lemma_prepend_assoc(before, p, (count - c) as nat, c, expand_from(s@, m.end as int, env));
                }
                i = m.end;
            },
        }
    }
    assert(out@ + Seq::<char>::empty() =~= out@);
    Ok(ExpandValue { value: out, raw: input.to_owned(), replacement_count: count })
}

proof fn lemma_word_run_bound(s: Seq<char>, j: int)
    requires
        0 <= j <= s.len(),
    ensures
        j + word_run(s, j) <= s.len(),
    decreases s.len() - j,
{
    if j < s.len() && is_word_char(s[j]) {
        lemma_word_run_bound(s, j + 1);
    }
}

proof fn lemma_find_close_bound(s: Seq<char>, j: int)
    requires
        0 <= j <= s.len(),
    ensures
        j <= find_close(s, j) <= s.len(),
        find_close(s, j) < s.len() ==> s[find_close(s, j)] == '}',
    decreases s.len() - j,
{
    if j < s.len() && s[j] != '}' {
        lemma_find_close_bound(s, j + 1);
    }
}

/// A reference lies within the scanned characters, its parts in order, and
/// it is at least two characters long.
pub proof fn lemma_ref_at_bounds(s: Seq<char>, i: int)
    ensures
        ref_at(s, i) matches Some(r) ==> (i + 2 <= r.5 <= s.len() && i < r.1 <= r.2 <= r.3 <= r.4
            <= r.5),
{
    if 0 <= i && i + 1 < s.len() && s[i] == '$' {
        lemma_word_run_bound(s, i + 1);
        if i + 2 <= s.len() {
            lemma_word_run_bound(s, i + 2);
            let j = i + 2 + word_run(s, i + 2);
            if j + 2 <= s.len() {
                lemma_find_close_bound(s, j + 2);
            }
        }
    }
}

proof fn lemma_prepend_assoc(
    a: Seq<char>,
    b: Seq<char>,
    ca: nat,
    cb: nat,
    rest: Result<(Seq<char>, nat), (Seq<char>, int, int)>,
)
    ensures
        prepend(a, ca, prepend(b, cb, rest)) == prepend(a + b, ca + cb, rest),
{
    match rest {
        Ok((o, n)) => {
            assert(a + (b + o) =~= (a + b) + o);
        },
        Err(_) => {},
    }
}

/// Expands the references in `input` with the values of `env`. `$NAME` and
/// `${NAME}` fail on an unset or empty variable; `${NAME:-text}` gives `text`
/// there; `${NAME:+text}` gives `text` only for a set, non-empty variable.
pub fn expand(input: &str, env: &IndexMap<String, String>) -> (r: Result<ExpandValue, ExpandError>)
    ensures
        expand_agrees(input@, expand_spec(input@, seq![str_map_entries(*env)]), r),
{
    let mut layers: Vec<IndexMap<String, String>> = Vec::new();
    layers.push(str_map_clone(env));
    assert(layers_view(layers@) =~= seq![str_map_entries(*env)]);
    expand_chain(input, &layers)
}

/// Whether every reference from position `i` on is a `$NAME` or `${NAME}`
/// whose variable is set to a non-empty value in `env`.
pub open spec fn refs_plain_and_set(s: Seq<char>, i: int, env: Seq<(Seq<char>, Seq<char>)>) -> bool
    decreases s.len() - i,
{
    if i < 0 || i >= s.len() {
        true
    } else {
        match ref_at(s, i) {
            None => refs_plain_and_set(s, i + 1, env),
            Some(r) => (r.0 == RefForm::Plain || r.0 == RefForm::Braced) && chain_value(seq![env], s.subrange(r.1, r.2)).len() > 0 && (i < r.5 <= s.len() ==> refs_plain_and_set(s, r.5, env)),
        }
    }
}

/// The number of references from position `i` on.
pub open spec fn ref_count(s: Seq<char>, i: int) -> nat
    decreases s.len() - i,
{
    if i < 0 || i >= s.len() {
        0
    } else {
        match ref_at(s, i) {
            None => ref_count(s, i + 1),
            Some(r) => 1 + if i < r.5 <= s.len() {
                ref_count(s, r.5)
            } else {
                0
            },
        }
    }
}

/// `s` from position `i` on with each reference replaced by its variable's
/// value, taken as it is.
pub open spec fn substituted(s: Seq<char>, i: int, env: Seq<(Seq<char>, Seq<char>)>) -> Seq<char>
    decreases s.len() - i,
{
    if i < 0 || i >= s.len() {
        Seq::empty()
    } else {
        match ref_at(s, i) {
            None => seq![s[i]] + substituted(s, i + 1, env),
            Some(r) => chain_value(seq![env], s.subrange(r.1, r.2)) + if i < r.5 <= s.len() {
                substituted(s, r.5, env)
            } else {
                Seq::empty()
            },
        }
    }
}

/// Where every reference is a `$NAME` or `${NAME}` of a set, non-empty
/// variable, expansion succeeds; each reference is replaced by its value
/// verbatim (a `$` inside a value is never expanded again), and the
/// replacement count is the number of references.
pub proof fn lemma_plain_refs_expand(s: Seq<char>, env: Seq<(Seq<char>, Seq<char>)>)
    requires
        refs_plain_and_set(s, 0, env),
    ensures
        expand_spec(s, seq![env]) == Ok::<(Seq<char>, nat), (Seq<char>, int, int)>(
            (substituted(s, 0, env), ref_count(s, 0)),
        ),
{
    lemma_plain_refs_expand_from(s, 0, env);
}

proof fn lemma_plain_refs_expand_from(s: Seq<char>, i: int, env: Seq<(Seq<char>, Seq<char>)>)
    requires
        refs_plain_and_set(s, i, env),
    ensures
        expand_from(s, i, seq![env]) == Ok::<(Seq<char>, nat), (Seq<char>, int, int)>(
            (substituted(s, i, env), ref_count(s, i)),
        ),
    decreases s.len() - i,
{
    if i < 0 || i >= s.len() {
    } else {
        lemma_ref_at_bounds(s, i);
        match ref_at(s, i) {
            None => {
                lemma_plain_refs_expand_from(s, i + 1, env);
            },
            Some(r) => {
                lemma_plain_refs_expand_from(s, r.5, env);
                if r.5 >= s.len() {
                    assert(substituted(s, r.5, env) =~= Seq::<char>::empty());
                }
            },
        }
    }
}

proof fn lemma_word_run_exact(s: Seq<char>, j: int, n: int)
    requires
        0 <= j,
        0 <= n,
        j + n <= s.len(),
        forall|k: int| j <= k < j + n ==> is_word_char(#[trigger] s[k]),
        j + n == s.len() || !is_word_char(s[j + n]),
    ensures
        word_run(s, j) == n,
    decreases n,
{
    if n > 0 {
        lemma_word_run_exact(s, j + 1, n - 1);
    }
}

proof fn lemma_find_close_exact(s: Seq<char>, j: int, k: int)
    requires
        0 <= j <= k < s.len(),
        s[k] == '}',
        forall|m: int| j <= m < k ==> #[trigger] s[m] != '}',
    ensures
        find_close(s, j) == k,
    decreases k - j,
{
    if j < k {
        lemma_find_close_exact(s, j + 1, k);
    }
}

/// Whether `name` is a valid variable name: one or more letters, digits or
/// underscores.
pub open spec fn is_var_name(name: Seq<char>) -> bool {
    name.len() > 0 && forall|k: int| 0 <= k < name.len() ==> is_word_char(#[trigger] name[k])
}

/// The text `${name:<op>text}`.
pub open spec fn operator_ref(name: Seq<char>, op: char, text: Seq<char>) -> Seq<char> {
    seq!['$', '{'] + name + seq![':', op] + text + seq!['}']
}

/// `${NAME:-text}` gives `text` where `NAME` is unset or empty and the value
/// otherwise; `${NAME:+text}` gives `text` where `NAME` is set and non-empty,
/// and nothing otherwise. Only the first counts as a replacement.
pub proof fn lemma_operator_refs(
    name: Seq<char>,
    text: Seq<char>,
    env: Seq<(Seq<char>, Seq<char>)>,
)
    requires
        is_var_name(name),
        forall|k: int| 0 <= k < text.len() ==> #[trigger] text[k] != '}',
    ensures
        ({
            let v = chain_value(seq![env], name);
            &&& expand_spec(operator_ref(name, '-', text), seq![env]) == Ok::<
                (Seq<char>, nat),
                (Seq<char>, int, int),
            >((if v.len() == 0 { text } else { v }, 1))
            &&& expand_spec(operator_ref(name, '+', text), seq![env]) == Ok::<
                (Seq<char>, nat),
                (Seq<char>, int, int),
            >((if v.len() == 0 { Seq::empty() } else { text }, 0))
        }),
{
    lemma_operator_ref('-', name, text, env);
    lemma_operator_ref('+', name, text, env);
}

proof fn lemma_operator_ref(op: char, name: Seq<char>, text: Seq<char>, env: Seq<(Seq<char>, Seq<char>)>)
    requires
        op == '-' || op == '+',
        is_var_name(name),
        forall|k: int| 0 <= k < text.len() ==> #[trigger] text[k] != '}',
    ensures
        ({
            let s = operator_ref(name, op, text);
            let j = 2 + name.len() as int;
            let k = j + 2 + text.len() as int;
            &&& ref_at(s, 0) == Some((
                if op == '-' {
                    RefForm::Default
                } else {
                    RefForm::Alt
                },
                2int,
                j,
                j + 2,
                k,
                k + 1,
            ))
            &&& s.subrange(2, j) == name
            &&& s.subrange(j + 2, k) == text
            &&& k + 1 == s.len()
            &&& expand_spec(s, seq![env]) == Ok::<(Seq<char>, nat), (Seq<char>, int, int)>(
                (operator_value(op, text, chain_value(seq![env], name)), if op == '-' {
                    1nat
                } else {
                    0nat
                }),
            )
        }),
{
    let s = operator_ref(name, op, text);
    let j = 2 + name.len() as int;
    let k = j + 2 + text.len() as int;
    assert(s.len() == k + 1);
    assert(s[0] == '$' && s[1] == '{');
    assert forall|m: int| 2 <= m < j implies is_word_char(#[trigger] s[m]) by {
        assert(s[m] == name[m - 2]);
    }
    assert(s[j] == ':');
    assert(s[j + 1] == op);
    lemma_word_run_exact(s, 2, name.len() as int);
    assert(is_word_char(s[1]) == false);
    assert forall|m: int| j + 2 <= m < k implies #[trigger] s[m] != '}' by {
        assert(s[m] == text[m - j - 2]);
    }
    assert(s[k] == '}');
    lemma_find_close_exact(s, j + 2, k);
    assert(s.subrange(2, j) =~= name);
    assert(s.subrange(j + 2, k) =~= text);
    let r = ref_at(s, 0)->Some_0;
    assert(expand_from(s, k + 1, seq![env]) == Ok::<(Seq<char>, nat), (Seq<char>, int, int)>(
        (Seq::empty(), 0),
    ));
    let v = chain_value(seq![env], name);
    let p = if op == '-' {
        if v.len() == 0 {
            text
        } else {
            v
        }
    } else {
        if v.len() == 0 {
            Seq::empty()
        } else {
            text
        }
    };
    assert(p + Seq::<char>::empty() =~= p);
    assert(p == operator_value(op, text, v));
    assert(expand_from(s, 0, seq![env]) == prepend(p, if op == '-' { 1nat } else { 0nat }, expand_from(s, k + 1, seq![env])));
}

/// What `${NAME:-text}` (`op` is `-`) or `${NAME:+text}` gives where `NAME`
/// has value `v`.
pub open spec fn operator_value(op: char, text: Seq<char>, v: Seq<char>) -> Seq<char> {
    if op == '-' {
        if v.len() == 0 { text } else { v }
    } else {
        if v.len() == 0 { Seq::empty() } else { text }
    }
}

/// A failed expansion names a `$NAME` or `${NAME}` reference that starts with
/// `$` at the reported start, spans exactly to the reported end, and whose
/// variable is unset or empty.
pub proof fn lemma_expand_error_names_ref(
    s: Seq<char>,
    env: Seq<Seq<(Seq<char>, Seq<char>)>>,
)
    requires
        expand_spec(s, env) is Err,
    ensures
        ({
            let (name, lo, hi) = expand_spec(s, env)->Err_0;
            &&& ref_at(s, lo) matches Some(r) && (r.0 == RefForm::Plain || r.0 == RefForm::Braced)
                && r.5 == hi && name == s.subrange(r.1, r.2)
            &&& 0 <= lo < hi <= s.len()
            &&& s[lo] == '$'
            &&& chain_value(env, name).len() == 0
        }),
{
    lemma_expand_error_from(s, 0, env);
}

proof fn lemma_expand_error_from(
    s: Seq<char>,
    i: int,
    env: Seq<Seq<(Seq<char>, Seq<char>)>>,
)
    requires
        expand_from(s, i, env) is Err,
    ensures
        ({
            let (name, lo, hi) = expand_from(s, i, env)->Err_0;
            &&& ref_at(s, lo) matches Some(r) && (r.0 == RefForm::Plain || r.0 == RefForm::Braced)
                && r.5 == hi && name == s.subrange(r.1, r.2)
            &&& 0 <= lo < hi <= s.len()
            &&& s[lo] == '$'
            &&& chain_value(env, name).len() == 0
        }),
    decreases s.len() - i,
{
    if i < 0 || i >= s.len() {
    } else {
        lemma_ref_at_bounds(s, i);
        match ref_at(s, i) {
            None => {
                lemma_expand_error_from(s, i + 1, env);
            },
            Some(r) => {
                if ref_piece(s, i, r, env) is Err {
                } else {
                    lemma_expand_error_from(s, r.5, env);
                }
            },
        }
    }
}

} // verus!
