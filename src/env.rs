//! The scoped environment store: a chain of insertion-ordered maps, the last
//! one local. A child store copies the chain and adds a fresh local layer, so
//! writes to one store are never seen by another.

use crate::diag::KdlItemRef;
use crate::expand::{chain_lookup, expand_chain, expand_spec, expand_agrees, layers_view, ExpandError, ExpandValue};
use crate::strmap::{
    entries_insert, lemma_lookup_insert, str_map_clone, str_map_entries, str_map_get, str_map_get_index,
    str_map_insert, str_map_len, str_map_new,
};
use crate::text::str_eq;
use indexmap::IndexMap;
use vstd::prelude::*;

verus! {

/// A stored value: plain text or a filesystem path.
#[derive(Clone, Debug, PartialEq, Eq)]
pub enum EnvValue {
    String(String),
    Path(String),
}

impl EnvValue {
    pub open spec fn text(self) -> Seq<char> {
        match self {
            EnvValue::String(s) => s@,
            EnvValue::Path(p) => p@,
        }
    }

    pub fn as_str(&self) -> (r: &str)
        ensures
            r@ == self.text(),
    {
        match self {
            EnvValue::String(s) => s.as_str(),
            EnvValue::Path(p) => p.as_str(),
        }
    }
}

/// Where a stored value came from.
#[derive(Clone, Copy, Debug, PartialEq, Eq)]
pub struct EnvItemMeta {
    pub inherited: bool,
    pub exported: bool,
    pub span: Option<KdlItemRef>,
}

/// The store: `layers` from outermost to local, and the metadata of each
/// local insert in order.
#[derive(Debug)]
pub struct Env {
    pub layers: Vec<IndexMap<String, String>>,
    pub meta: Vec<(String, EnvItemMeta)>,
}

impl Env {
    pub open spec fn wf(&self) -> bool {
        self.layers@.len() >= 1
    }

    /// The entries of each layer, outermost first.
    pub open spec fn view_layers(&self) -> Seq<Seq<(Seq<char>, Seq<char>)>> {
        layers_view(self.layers@)
    }

    /// The value of `k`: from the innermost layer that holds it.
    pub open spec fn value(&self, k: Seq<char>) -> Option<Seq<char>> {
        chain_lookup(self.view_layers(), k)
    }

    /// A store with one empty layer.
    pub fn empty() -> (r: Env)
        ensures
            r.wf(),
            r.view_layers() == seq![Seq::<(Seq<char>, Seq<char>)>::empty()],
            r.meta@.len() == 0,
    {
        let mut layers: Vec<IndexMap<String, String>> = Vec::new();
        layers.push(str_map_new());
        let r = Env { layers, meta: Vec::new() };
        assert(r.view_layers() =~= seq![Seq::<(Seq<char>, Seq<char>)>::empty()]);
        r
    }

    /// A store that sees every value of this one, with a fresh local layer.
    pub fn child(&self) -> (r: Env)
        requires
            self.wf(),
        ensures
            r.wf(),
            r.view_layers() == self.view_layers().push(Seq::empty()),
            forall|k: Seq<char>| #[trigger] r.value(k) == self.value(k),
            r.meta@.len() == self.meta@.len(),
            forall|i: int| 0 <= i < r.meta@.len() ==> (#[trigger] r.meta@[i]).0@ == self.meta@[i].0@ && r.meta@[i].1
                == self.meta@[i].1,
    {
        let mut layers: Vec<IndexMap<String, String>> = Vec::new();
        let mut i: usize = 0;
        while i < self.layers.len()
            invariant
                i <= self.layers@.len(),
                layers_view(layers@) == self.view_layers().subrange(0, i as int),
            decreases self.layers@.len() - i,
        {
            let ghost old_l = layers@;
            let c = str_map_clone(&self.layers[i]);
            layers.push(c);
            assert(layers@ == old_l.push(c));
            assert(layers_view(layers@) =~= self.view_layers().subrange(0, i + 1)) by {
                assert(layers_view(layers@).drop_last() =~= layers_view(old_l));
            }
            i += 1;
        }
        let ghost old_l = layers@;
        let fresh = str_map_new();
        layers.push(fresh);
        assert(layers@ == old_l.push(fresh));
        assert(layers_view(old_l) =~= self.view_layers());
        let mut meta: Vec<(String, EnvItemMeta)> = Vec::new();
        let mut j: usize = 0;
        while j < self.meta.len()
            invariant
                j <= self.meta@.len(),
                meta@.len() == j,
                forall|i: int| 0 <= i < j ==> (#[trigger] meta@[i]).0@ == self.meta@[i].0@ && meta@[i].1 == self.meta@[i].1,
            decreases self.meta@.len() - j,
        {
            let ghost old_m = meta@;
            meta.push((self.meta[j].0.clone(), self.meta[j].1));
            assert forall|i: int| 0 <= i < j + 1 implies (#[trigger] meta@[i]).0@ == self.meta@[i].0@ && meta@[i].1
                == self.meta@[i].1 by {
                if i < j {
                    assert(meta@[i] == old_m[i]);
                }
            }
            j += 1;
        }
        let r = Env { layers, meta };
        assert(r.view_layers() =~= self.view_layers().push(Seq::empty())) by {
            assert(r.view_layers().drop_last() =~= layers_view(old_l));
        }
        assert forall|k: Seq<char>| #[trigger] r.value(k) == self.value(k) by {
            assert(r.view_layers().drop_last() =~= self.view_layers());
        }
        r
    }

    /// The value stored under `key`, from the innermost layer holding it.
    pub fn get_str(&self, key: &str) -> (r: Option<&String>)
        ensures
            match r {
                Some(v) => self.value(key@) == Some(v@),
                None => self.value(key@) is None,
            },
    {
        let ghost lv = self.view_layers();
        let mut k = self.layers.len();
        assert(lv.subrange(0, k as int) =~= lv);
        while k > 0
            invariant
                k <= self.layers@.len(),
                lv == self.view_layers(),
                chain_lookup(lv, key@) == chain_lookup(lv.subrange(0, k as int), key@),
            decreases k,
        {
            let ghost sub = lv.subrange(0, k as int);
            assert(sub.drop_last() =~= lv.subrange(0, k - 1));
            match str_map_get(&self.layers[k - 1], key) {
                Some(v) => {
                    return Some(v);
                },
                None => {},
            }
            k -= 1;
        }
        None
    }

    /// The metadata last recorded for `key`.
    pub open spec fn meta_of(&self, key: Seq<char>) -> Option<EnvItemMeta> {
        meta_last(self.meta@, key)
    }

    /// The value stored under `key`, with the metadata last recorded for it.
    pub fn get(&self, key: &str) -> (r: Option<(String, EnvItemMeta)>)
        ensures
            r matches Some(x) ==> self.value(key@) == Some(x.0@) && self.meta_of(key@) == Some(x.1),
            r is None ==> self.value(key@) is None || self.meta_of(key@) is None,
    {
        let v = match self.get_str(key) {
            Some(v) => v,
            None => return None,
        };
        let mut i = self.meta.len();
        assert(self.meta@.subrange(0, i as int) =~= self.meta@);
        while i > 0
            invariant
                i <= self.meta@.len(),
                meta_last(self.meta@, key@) == meta_last(self.meta@.subrange(0, i as int), key@),
                self.value(key@) == Some(v@),
            decreases i,
        {
            let ghost sub = self.meta@.subrange(0, i as int);
            assert(sub.drop_last() =~= self.meta@.subrange(0, i - 1));
            assert(sub.last() == self.meta@[i - 1]);
            if str_eq(self.meta[i - 1].0.as_str(), key) {
                return Some((v.clone(), self.meta[i - 1].1));
            }
            i -= 1;
        }
        assert(self.meta@.subrange(0, 0).len() == 0);
        None
    }

    /// Stores `value` under `key` in the local layer, recording `meta`.
    pub fn insert(&mut self, key: String, value: EnvValue, meta: EnvItemMeta)
        requires
            old(self).wf(),
        ensures
            final(self).wf(),
            final(self).view_layers() == old(self).view_layers().update(
                old(self).view_layers().len() - 1,
                entries_insert(old(self).view_layers().last(), key@, value.text()),
            ),
            forall|k: Seq<char>| #[trigger] final(self).value(k) == if k == key@ {
                Some(value.text())
            } else {
                old(self).value(k)
            },
            final(self).meta@ == old(self).meta@.push((key, meta)),
    {
        let ghost before = self.view_layers();
        let last = self.layers.len() - 1;
        let text = value.as_str().to_owned();
        let mut m = str_map_new();
        std::mem::swap(&mut m, &mut self.layers[last]);
        let ghost taken = str_map_entries(m);
        str_map_insert(&mut m, key.clone(), text);
        std::mem::swap(&mut m, &mut self.layers[last]);
        self.meta.push((key, meta));
        proof {
            assert(taken == before.last());
            assert(self.view_layers() =~= before.update(before.len() - 1, entries_insert(before.last(), key@, value.text())));
            assert forall|k: Seq<char>| #[trigger] self.value(k) == if k == key@ {
                Some(value.text())
            } else {
                old(self).value(k)
            } by {
                lemma_lookup_insert(before.last(), key@, value.text(), k);
                assert(self.view_layers().drop_last() =~= before.drop_last());
            }
        }
    }

    /// Stores a plain value that is neither inherited nor exported.
    pub fn insert_simple(&mut self, key: &str, value: &str)
        requires
            old(self).wf(),
        ensures
            final(self).wf(),
            forall|k: Seq<char>| #[trigger] final(self).value(k) == if k == key@ {
                Some(value@)
            } else {
                old(self).value(k)
            },
    {
        self.insert(
            key.to_owned(),
            EnvValue::String(value.to_owned()),
            EnvItemMeta { inherited: false, exported: false, span: None },
        );
    }

    /// Expands `source` with this store's values.
    pub fn expand(&self, source: &str) -> (r: Result<ExpandValue, ExpandError>)
        ensures
            expand_agrees(source@, expand_spec(source@, self.view_layers()), r),
    {
        expand_chain(source, &self.layers)
    }

    /// The number of stored entries, layer by layer, saturated at `usize::MAX`.
    pub fn len(&self) -> (r: usize)
        ensures
            r == crate::expand::clamp_usize(total_len(self.view_layers())),
    {
        let mut n: usize = 0;
        let mut i: usize = 0;
        while i < self.layers.len()
            invariant
                i <= self.layers@.len(),
                n == crate::expand::clamp_usize(total_len(self.view_layers().subrange(0, i as int))),
            decreases self.layers@.len() - i,
        {
            let l = str_map_len(&self.layers[i]);
            assert(self.view_layers().subrange(0, i + 1).drop_last() =~= self.view_layers().subrange(0, i as int));
            if n > usize::MAX - l {
                n = usize::MAX;
            } else {
                n = n + l;
            }
            i += 1;
        }
        assert(self.view_layers().subrange(0, i as int) =~= self.view_layers());
        n
    }

    pub fn is_empty(&self) -> (r: bool)
        ensures
            r == (total_len(self.view_layers()) == 0),
    {
        self.len() == 0
    }

    /// Every stored key once, innermost layer first.
    pub fn keys(&self) -> (r: Vec<String>)
        ensures
            forall|i: int| 0 <= i < r@.len() ==> self.value((#[trigger] r@[i])@) is Some,
            forall|i: int, j: int| 0 <= i < j < r@.len() ==> (#[trigger] r@[i])@ != (#[trigger] r@[j])@,
            forall|l: int, e: int|
                0 <= l < self.view_layers().len() && 0 <= e < self.view_layers()[l].len() ==> listed(
                    r@,
                    (#[trigger] self.view_layers()[l][e]).0,
                ),
    {
        let ghost lv = self.view_layers();
        let mut r: Vec<String> = Vec::new();
        let mut l = self.layers.len();
        while l > 0
            invariant
                l <= self.layers@.len(),
                lv == self.view_layers(),
                forall|i: int| 0 <= i < r@.len() ==> self.value((#[trigger] r@[i])@) is Some,
                forall|i: int, j: int| 0 <= i < j < r@.len() ==> (#[trigger] r@[i])@ != (#[trigger] r@[j])@,
                forall|a: int, x: int|
                    l <= a < lv.len() && 0 <= x < lv[a].len() ==> listed(r@, (#[trigger] lv[a][x]).0),
            decreases l,
        {
            let m = &self.layers[l - 1];
            assert(lv[l - 1] == str_map_entries(*m));
            let n = str_map_len(m);
            let mut e: usize = 0;
            while e < n
                invariant
                    1 <= l <= self.layers@.len(),
                    lv == self.view_layers(),
                    lv[l - 1] == str_map_entries(*m),
                    n == str_map_entries(*m).len(),
                    e <= n,
                    forall|i: int| 0 <= i < r@.len() ==> self.value((#[trigger] r@[i])@) is Some,
                    forall|i: int, j: int| 0 <= i < j < r@.len() ==> (#[trigger] r@[i])@ != (#[trigger] r@[j])@,
                    forall|a: int, x: int|
                        l <= a < lv.len() && 0 <= x < lv[a].len() ==> listed(r@, (#[trigger] lv[a][x]).0),
                    forall|x: int| 0 <= x < e ==> listed(r@, (#[trigger] lv[l - 1][x]).0),
                decreases n - e,
            {
                match str_map_get_index(m, e) {
                    Some((k, _)) => {
                        if !contains_str(&r, k.as_str()) {
                            proof {
                                lemma_key_has_value(lv, (l - 1) as int, e as int);
                            }
                            let ghost old_r = r@;
                            let kc = k.clone();
                            r.push(kc);
                            proof {
                                assert(r@ == old_r.push(kc));
                                assert forall|y: Seq<char>| listed(old_r, y) implies listed(r@, y) by {
                                    let i = choose|i: int| 0 <= i < old_r.len() && old_r[i]@ == y;
                                    assert(r@[i] == old_r[i]);
                                }
                                assert(r@[old_r.len() as int]@ == lv[l - 1][e as int].0);
                                assert forall|i: int| 0 <= i < r@.len() implies self.value((#[trigger] r@[i])@) is Some by {
                                    if i < old_r.len() {
                                        assert(r@[i] == old_r[i]);
                                    }
                                }
                                assert forall|i: int, j: int| 0 <= i < j < r@.len() implies (#[trigger] r@[i])@ != (#[trigger] r@[j])@ by {
                                    assert(r@[i] == old_r[i]);
                                    if j < old_r.len() {
                                        assert(r@[j] == old_r[j]);
                                    }
                                }
                            }
                        } else {
                            assert(listed(r@, lv[l - 1][e as int].0));
                        }
                    },
                    None => {},
                }
                e += 1;
            }
            l -= 1;
        }
        r
    }
}

/// The metadata of the last record of `m` for `k`.
pub open spec fn meta_last(m: Seq<(String, EnvItemMeta)>, k: Seq<char>) -> Option<EnvItemMeta>
    decreases m.len(),
{
    if m.len() == 0 {
        None
    } else if m.last().0@ == k {
        Some(m.last().1)
    } else {
        meta_last(m.drop_last(), k)
    }
}

/// Whether some string of `r` holds `k`.
pub open spec fn listed(r: Seq<String>, k: Seq<char>) -> bool {
    exists|i: int| 0 <= i < r.len() && r[i]@ == k
}

/// The number of entries over all layers.
pub open spec fn total_len(layers: Seq<Seq<(Seq<char>, Seq<char>)>>) -> nat
    decreases layers.len(),
{
    if layers.len() == 0 {
        0
    } else {
        total_len(layers.drop_last()) + layers.last().len()
    }
}

proof fn lemma_entry_lookup_some(s: Seq<(Seq<char>, Seq<char>)>, e: int)
    requires
        0 <= e < s.len(),
    ensures
        crate::strmap::entries_lookup(s, s[e].0) is Some,
    decreases s.len(),
{
    if s[0].0 != s[e].0 {
        lemma_entry_lookup_some(s.drop_first(), e - 1);
    }
}

proof fn lemma_key_has_value(layers: Seq<Seq<(Seq<char>, Seq<char>)>>, l: int, e: int)
    requires
        0 <= l < layers.len(),
        0 <= e < layers[l].len(),
    ensures
        chain_lookup(layers, layers[l][e].0) is Some,
    decreases layers.len(),
{
    if l == layers.len() - 1 {
        lemma_entry_lookup_some(layers[l], e);
    } else {
        if crate::strmap::entries_lookup(layers.last(), layers[l][e].0) is None {
            lemma_key_has_value(layers.drop_last(), l, e);
        }
    }
}

/// Whether `v` holds a string equal to `s`.
pub(crate) fn contains_str(v: &Vec<String>, s: &str) -> (r: bool)
    ensures
        r == exists|i: int| 0 <= i < v@.len() && (#[trigger] v@[i])@ == s@,
{
    let mut i: usize = 0;
    while i < v.len()
        invariant
            i <= v@.len(),
            forall|j: int| 0 <= j < i ==> (#[trigger] v@[j])@ != s@,
        decreases v@.len() - i,
    {
        if str_eq(v[i].as_str(), s) {
            return true;
        }
        i += 1;
    }
    false
}

} // verus!
