//! Insertion-ordered associative containers and snapshot iterators.
//!
//! The language's maps are keyed by integer or by string and hold scalar or
//! string values. Iteration order equals insertion order; storing under an
//! existing key keeps the key's place; deletion removes the entry. An
//! iterator copies the keys at creation time, so later stores and deletes
//! leave the iteration unaffected.

use vstd::prelude::*;
use crate::str_impl::Str;

verus! {

/// An insertion-ordered map from `i64` keys to `V` values.
pub struct IntMap<V> {
    entries: Vec<(i64, V)>,
}

/// An insertion-ordered map from string keys to `V` values.
pub struct StrMap<V> {
    entries: Vec<(Str, V)>,
}

/// A snapshot iterator over integer keys.
pub struct IntIter {
    items: Vec<i64>,
    pos: usize,
}

/// A snapshot iterator over string keys.
pub struct StrIter {
    items: Vec<Str>,
    pos: usize,
}

/// The keys of a pair sequence, in order.
pub open spec fn int_keys_of<V>(ps: Seq<(i64, V)>) -> Seq<i64> {
    ps.map_values(|e: (i64, V)| e.0)
}

/// No key appears twice.
pub open spec fn int_pairs_wf<V>(ps: Seq<(i64, V)>) -> bool {
    forall|i: int, j: int|
        #![trigger ps[i], ps[j]]
        0 <= i < j < ps.len() ==> ps[i].0 != ps[j].0
}

/// Under unique keys, the position of a key's pair is the key's index.
proof fn lemma_unique_index<V>(ps: Seq<(i64, V)>, i: int, k: i64)
    requires
        int_pairs_wf(ps),
        0 <= i < ps.len(),
        ps[i].0 == k,
    ensures
        int_keys_of(ps).contains(k),
        int_keys_of(ps).index_of(k) == i,
{
    let keys = int_keys_of(ps);
    assert(keys[i] == k);
    assert(keys.contains(k));
    let w = keys.index_of(k);
    assert(0 <= w < keys.len() && keys[w] == k) by {
        assert(keys[i] == k);
    }
    assert(ps[w].0 == k);
    if w < i {
        assert(ps[w].0 != ps[i].0);
        assert(false);
    } else if w > i {
        assert(ps[i].0 != ps[w].0);
        assert(false);
    }
}

/// The pair sequence after a store: an existing key keeps its place and
/// takes the new value, a new key goes to the end.
pub open spec fn int_pairs_store<V>(ps: Seq<(i64, V)>, k: i64, v: V) -> Seq<(i64, V)> {
    if int_keys_of(ps).contains(k) {
        let i = int_keys_of(ps).index_of(k);
        ps.update(i, (k, v))
    } else {
        ps.push((k, v))
    }
}

/// The pair sequence after a delete: the entry removed, the rest in order.
pub open spec fn int_pairs_delete<V>(ps: Seq<(i64, V)>, k: i64) -> Seq<(i64, V)> {
    if int_keys_of(ps).contains(k) {
        ps.remove(int_keys_of(ps).index_of(k))
    } else {
        ps
    }
}

impl<V> IntMap<V> {
    /// The entries, in insertion order.
    pub closed spec fn pairs(&self) -> Seq<(i64, V)> {
        self.entries@
    }

    /// The keys, in insertion order.
    pub open spec fn keys(&self) -> Seq<i64> {
        int_keys_of(self.pairs())
    }

    /// No key appears twice; every map satisfies this at all times.
    #[verifier::type_invariant]
    spec fn wf(&self) -> bool {
        int_pairs_wf(self.pairs())
    }

    /// The value under `k`, when present.
    pub open spec fn spec_get(&self, k: i64) -> Option<V> {
        if self.keys().contains(k) {
            Some(self.pairs()[self.keys().index_of(k)].1)
        } else {
            None
        }
    }

    /// A fresh empty map.
    pub fn new() -> (r: IntMap<V>)
        ensures
            r.pairs() == Seq::<(i64, V)>::empty(),
    {
        IntMap { entries: Vec::new() }
    }

    /// Current cardinality.
    pub fn len(&self) -> (r: usize)
        ensures
            r == self.pairs().len(),
    {
        self.entries.len()
    }

    /// The position of `k`, when present.
    fn find_idx(&self, k: i64) -> (r: Option<usize>)
        ensures
            match r {
                Some(i) => i < self.pairs().len() && self.pairs()[i as int].0 == k
                    && self.keys().index_of(k) == i && self.keys().contains(k),
                None => !self.keys().contains(k),
            },
    {
        proof {
            use_type_invariant(&*self);
        }
        let n: usize = self.entries.len();
        let mut i: usize = 0;
        while i < n
            invariant
                self.wf(),
                i <= n == self.pairs().len(),
                forall|j: int| 0 <= j < i ==> self.pairs()[j].0 != k,
            decreases n - i,
        {
            if self.entries[i].0 == k {
                proof {
                    lemma_unique_index(self.pairs(), i as int, k);
                }
                return Some(i);
            }
            i = i + 1;
        }
        proof {
            if self.keys().contains(k) {
                let w = choose|w: int| 0 <= w < self.keys().len() && self.keys()[w] == k;
                assert(self.pairs()[w].0 == k);
            }
        }
        None
    }

    /// Whether `k` is present.
    pub fn contains(&self, k: i64) -> (r: bool)
        ensures
            r <==> self.keys().contains(k),
    {
        self.find_idx(k).is_some()
    }

    /// The value under `k`, when present.
    pub fn get_ref(&self, k: i64) -> (r: Option<&V>)
        ensures
            match r {
                Some(v) => self.spec_get(k) == Some(*v),
                None => self.spec_get(k) is None,
            },
    {
        match self.find_idx(k) {
            Some(i) => Some(&self.entries[i].1),
            None => None,
        }
    }

    /// Store `v` under `k`: an existing key keeps its place, a new key goes
    /// to the end.
    pub fn insert(&mut self, k: i64, v: V)
        ensures
            final(self).pairs() == int_pairs_store(old(self).pairs(), k, v),
    {
        proof {
            use_type_invariant(&*self);
        }
        let ghost ps0 = self.pairs();
        let idx = self.find_idx(k);
        let mut es: Vec<(i64, V)> = Vec::new();
        std::mem::swap(&mut es, &mut self.entries);
        match idx {
            Some(i) => {
                es[i] = (k, v);
                proof {
                    assert(es@ =~= int_pairs_store(ps0, k, v));
                    assert forall|a: int, b: int|
                        0 <= a < b < es@.len() implies #[trigger] es@[a].0
                        != #[trigger] es@[b].0 by {
                        assert(ps0[a].0 == if a == i as int {
                            k
                        } else {
                            es@[a].0
                        });
                    }
                }
            },
            None => {
                es.push((k, v));
                proof {
                    assert(es@ =~= int_pairs_store(ps0, k, v));
                    assert forall|a: int, b: int|
                        0 <= a < b < es@.len() implies #[trigger] es@[a].0
                        != #[trigger] es@[b].0 by {
                        if b == ps0.len() {
                            assert(int_keys_of(ps0)[a] == ps0[a].0);
                        }
                    }
                }
            },
        }
        std::mem::swap(&mut es, &mut self.entries);
    }

    /// Remove the entry under `k`, if any, keeping the rest in order.
    pub fn delete(&mut self, k: i64)
        ensures
            final(self).pairs() == int_pairs_delete(old(self).pairs(), k),
    {
        proof {
            use_type_invariant(&*self);
        }
        let ghost ps0 = self.pairs();
        let idx = self.find_idx(k);
        match idx {
            Some(i) => {
                let mut es: Vec<(i64, V)> = Vec::new();
                std::mem::swap(&mut es, &mut self.entries);
                es.remove(i);
                proof {
                    assert(es@ =~= int_pairs_delete(ps0, k));
                    assert forall|i2: int, j2: int|
                        0 <= i2 < j2 < es@.len() implies #[trigger] es@[i2].0
                        != #[trigger] es@[j2].0 by {
                        let f = i as int;
                        let a = if i2 < f { i2 } else { i2 + 1 };
                        let b = if j2 < f { j2 } else { j2 + 1 };
                        assert(es@[i2] == ps0[a]);
                        assert(es@[j2] == ps0[b]);
                    }
                }
                std::mem::swap(&mut es, &mut self.entries);
            },
            None => {},
        }
    }

    /// Drop every entry.
    pub fn clear(&mut self)
        ensures
            final(self).pairs() == Seq::<(i64, V)>::empty(),
    {
        let mut es: Vec<(i64, V)> = Vec::new();
        std::mem::swap(&mut es, &mut self.entries);
    }

    /// Snapshot the keys, in insertion order.
    pub fn to_iter(&self) -> (r: IntIter)
        ensures
            r.remaining() == self.keys(),
    {
        let n: usize = self.entries.len();
        let mut items: Vec<i64> = Vec::new();
        let mut i: usize = 0;
        while i < n
            invariant
                i <= n == self.pairs().len(),
                items@ == int_keys_of(self.pairs()).subrange(0, i as int),
            decreases n - i,
        {
            items.push(self.entries[i].0);
            assert(items@ =~= int_keys_of(self.pairs()).subrange(0, i + 1));
            i = i + 1;
        }
        assert(items@ =~= self.keys());
        let r = IntIter { items, pos: 0 };
        assert(r.remaining() =~= self.keys());
        r
    }
}

impl IntIter {
    /// The keys not yet yielded, in order.
    pub closed spec fn remaining(&self) -> Seq<i64> {
        if self.pos <= self.items@.len() {
            self.items@.subrange(self.pos as int, self.items@.len() as int)
        } else {
            Seq::empty()
        }
    }

    /// A fresh exhausted iterator.
    pub fn empty() -> (r: IntIter)
        ensures
            r.remaining() == Seq::<i64>::empty(),
    {
        let r = IntIter { items: Vec::new(), pos: 0 };
        assert(r.remaining() =~= Seq::<i64>::empty());
        r
    }

    /// Whether a key remains.
    pub fn has_next(&self) -> (r: bool)
        ensures
            r <==> self.remaining().len() > 0,
    {
        self.pos < self.items.len()
    }

    /// Yield the next key.
    pub fn get_next(&mut self) -> (r: i64)
        requires
            old(self).remaining().len() > 0,
        ensures
            r == old(self).remaining()[0],
            final(self).remaining() == old(self).remaining().subrange(
                1,
                old(self).remaining().len() as int,
            ),
    {
        proof {
            assert(self.pos < self.items@.len()) by {
                if self.pos >= self.items@.len() {
                    assert(old(self).remaining().len() == 0);
                }
            }
        }
        let n: usize = self.items.len();
        assert(self.pos < n);
        let r = self.items[self.pos];
        self.pos = self.pos + 1;
        proof {
            assert(final(self).remaining() =~= old(self).remaining().subrange(
                1,
                old(self).remaining().len() as int,
            ));
        }
        r
    }
}

impl Default for IntIter {
    /// The default iterator is exhausted.
    fn default() -> (r: IntIter)
        ensures
            r.remaining() == Seq::<i64>::empty(),
    {
        IntIter::empty()
    }
}

/// The keys of a viewed pair sequence, in order.
pub open spec fn str_keys_of<V>(ps: Seq<(Seq<u8>, V)>) -> Seq<Seq<u8>> {
    ps.map_values(|e: (Seq<u8>, V)| e.0)
}

/// No key appears twice.
pub open spec fn str_pairs_wf<V>(ps: Seq<(Seq<u8>, V)>) -> bool {
    forall|i: int, j: int|
        #![trigger ps[i], ps[j]]
        0 <= i < j < ps.len() ==> ps[i].0 != ps[j].0
}

/// The viewed pair sequence after a store.
pub open spec fn str_pairs_store<V>(ps: Seq<(Seq<u8>, V)>, k: Seq<u8>, v: V) -> Seq<
    (Seq<u8>, V),
> {
    if str_keys_of(ps).contains(k) {
        let i = str_keys_of(ps).index_of(k);
        ps.update(i, (k, v))
    } else {
        ps.push((k, v))
    }
}

/// The viewed pair sequence after a delete.
pub open spec fn str_pairs_delete<V>(ps: Seq<(Seq<u8>, V)>, k: Seq<u8>) -> Seq<(Seq<u8>, V)> {
    if str_keys_of(ps).contains(k) {
        ps.remove(str_keys_of(ps).index_of(k))
    } else {
        ps
    }
}

/// Under unique keys, the position of a key's pair is the key's index.
proof fn lemma_unique_index_str<V>(ps: Seq<(Seq<u8>, V)>, i: int, k: Seq<u8>)
    requires
        str_pairs_wf(ps),
        0 <= i < ps.len(),
        ps[i].0 == k,
    ensures
        str_keys_of(ps).contains(k),
        str_keys_of(ps).index_of(k) == i,
{
    let keys = str_keys_of(ps);
    assert(keys[i] == k);
    assert(keys.contains(k));
    let w = keys.index_of(k);
    assert(0 <= w < keys.len() && keys[w] == k) by {
        assert(keys[i] == k);
    }
    assert(ps[w].0 == k);
    if w < i {
        assert(ps[w].0 != ps[i].0);
        assert(false);
    } else if w > i {
        assert(ps[i].0 != ps[w].0);
        assert(false);
    }
}

impl<V> StrMap<V> {
    /// The entries with viewed keys, in insertion order.
    pub closed spec fn pairs_view(&self) -> Seq<(Seq<u8>, V)> {
        self.entries@.map_values(|e: (Str, V)| (e.0@, e.1))
    }

    /// The viewed keys, in insertion order.
    pub open spec fn keys(&self) -> Seq<Seq<u8>> {
        str_keys_of(self.pairs_view())
    }

    /// No key appears twice; every map satisfies this at all times.
    #[verifier::type_invariant]
    spec fn wf(&self) -> bool {
        str_pairs_wf(self.pairs_view())
    }

    /// The value under `k`, when present.
    pub open spec fn spec_get(&self, k: Seq<u8>) -> Option<V> {
        if self.keys().contains(k) {
            Some(self.pairs_view()[self.keys().index_of(k)].1)
        } else {
            None
        }
    }

    /// A fresh empty map.
    pub fn new() -> (r: StrMap<V>)
        ensures
            r.pairs_view() == Seq::<(Seq<u8>, V)>::empty(),
    {
        let r = StrMap { entries: Vec::new() };
        assert(r.pairs_view() =~= Seq::<(Seq<u8>, V)>::empty());
        r
    }

    /// Current cardinality.
    pub fn len(&self) -> (r: usize)
        ensures
            r == self.pairs_view().len(),
    {
        self.entries.len()
    }

    /// The position of `k`, when present.
    fn find_idx(&self, k: &Str) -> (r: Option<usize>)
        ensures
            match r {
                Some(i) => i < self.pairs_view().len() && self.pairs_view()[i as int].0
                    == k@ && self.keys().index_of(k@) == i && self.keys().contains(k@),
                None => !self.keys().contains(k@),
            },
    {
        proof {
            use_type_invariant(&*self);
        }
        let n: usize = self.entries.len();
        let mut i: usize = 0;
        while i < n
            invariant
                self.wf(),
                i <= n == self.pairs_view().len(),
                forall|j: int| 0 <= j < i ==> self.pairs_view()[j].0 != k@,
            decreases n - i,
        {
            if self.entries[i].0.eq_str(k) {
                proof {
                    lemma_unique_index_str(self.pairs_view(), i as int, k@);
                }
                return Some(i);
            }
            i = i + 1;
        }
        proof {
            if self.keys().contains(k@) {
                let w = choose|w: int|
                    0 <= w < self.keys().len() && self.keys()[w] == k@;
                assert(self.pairs_view()[w].0 == k@);
            }
        }
        None
    }

    /// Whether `k` is present.
    pub fn contains(&self, k: &Str) -> (r: bool)
        ensures
            r <==> self.keys().contains(k@),
    {
        self.find_idx(k).is_some()
    }

    /// The value under `k`, when present.
    pub fn get_ref(&self, k: &Str) -> (r: Option<&V>)
        ensures
            match r {
                Some(v) => self.spec_get(k@) == Some(*v),
                None => self.spec_get(k@) is None,
            },
    {
        match self.find_idx(k) {
            Some(i) => Some(&self.entries[i].1),
            None => None,
        }
    }

    /// Store `v` under `k`: an existing key keeps its place, a new key goes
    /// to the end.
    pub fn insert(&mut self, k: Str, v: V)
        ensures
            final(self).pairs_view() == str_pairs_store(old(self).pairs_view(), k@, v),
    {
        proof {
            use_type_invariant(&*self);
        }
        let ghost ps0 = self.pairs_view();
        let idx = self.find_idx(&k);
        let mut es: Vec<(Str, V)> = Vec::new();
        std::mem::swap(&mut es, &mut self.entries);
        let ghost pv = |e: (Str, V)| (e.0@, e.1);
        match idx {
            Some(i) => {
                es[i] = (k, v);
                proof {
                    assert(es@.map_values(pv) =~= str_pairs_store(ps0, k@, v));
                    assert forall|a: int, b: int|
                        0 <= a < b < es@.len() implies #[trigger] es@.map_values(pv)[a].0
                        != #[trigger] es@.map_values(pv)[b].0 by {
                        assert(ps0[a].0 == if a == i as int {
                            k@
                        } else {
                            es@.map_values(pv)[a].0
                        });
                    }
                }
            },
            None => {
                es.push((k, v));
                proof {
                    assert(es@.map_values(pv) =~= str_pairs_store(ps0, k@, v));
                    assert forall|a: int, b: int|
                        0 <= a < b < es@.len() implies #[trigger] es@.map_values(pv)[a].0
                        != #[trigger] es@.map_values(pv)[b].0 by {
                        if b == ps0.len() {
                            assert(str_keys_of(ps0)[a] == ps0[a].0);
                        }
                    }
                }
            },
        }
        std::mem::swap(&mut es, &mut self.entries);
    }

    /// Remove the entry under `k`, if any, keeping the rest in order.
    pub fn delete(&mut self, k: &Str)
        ensures
            final(self).pairs_view() == str_pairs_delete(old(self).pairs_view(), k@),
    {
        proof {
            use_type_invariant(&*self);
        }
        let ghost ps0 = self.pairs_view();
        let idx = self.find_idx(k);
        let ghost pv = |e: (Str, V)| (e.0@, e.1);
        match idx {
            Some(i) => {
                let mut es: Vec<(Str, V)> = Vec::new();
                std::mem::swap(&mut es, &mut self.entries);
                es.remove(i);
                proof {
                    assert(es@.map_values(pv) =~= str_pairs_delete(ps0, k@));
                    assert forall|i2: int, j2: int|
                        0 <= i2 < j2 < es@.len() implies #[trigger] es@.map_values(pv)[i2].0
                        != #[trigger] es@.map_values(pv)[j2].0 by {
                        let f = i as int;
                        let a = if i2 < f { i2 } else { i2 + 1 };
                        let b = if j2 < f { j2 } else { j2 + 1 };
                        assert(es@.map_values(pv)[i2] == ps0[a]);
                        assert(es@.map_values(pv)[j2] == ps0[b]);
                    }
                }
                std::mem::swap(&mut es, &mut self.entries);
            },
            None => {},
        }
    }

    /// Drop every entry.
    pub fn clear(&mut self)
        ensures
            final(self).pairs_view() == Seq::<(Seq<u8>, V)>::empty(),
    {
        let mut es: Vec<(Str, V)> = Vec::new();
        std::mem::swap(&mut es, &mut self.entries);
        assert(self.pairs_view() =~= Seq::<(Seq<u8>, V)>::empty());
    }

    /// Snapshot the keys, in insertion order.
    pub fn to_iter(&self) -> (r: StrIter)
        ensures
            r.remaining() == self.keys(),
    {
        let n: usize = self.entries.len();
        let mut items: Vec<Str> = Vec::new();
        let mut i: usize = 0;
        while i < n
            invariant
                i <= n == self.pairs_view().len(),
                items@.len() == i,
                forall|j: int|
                    0 <= j < i ==> (#[trigger] items@[j])@ == str_keys_of(
                        self.pairs_view(),
                    )[j],
            decreases n - i,
        {
            let ks = self.entries[i].0.dup();
            items.push(ks);
            proof {
                assert(self.pairs_view()[i as int] == (
                    self.entries@[i as int].0@,
                    self.entries@[i as int].1,
                ));
                assert(str_keys_of(self.pairs_view())[i as int] == self.pairs_view()[
                    i as int].0);
            }
            i = i + 1;
        }
        let r = StrIter { items, pos: 0 };
        proof {
            let views = r.items@.map_values(|s: Str| s@);
            assert forall|j: int| 0 <= j < n implies #[trigger] views[j] == self.keys()[j] by {
                assert(views[j] == r.items@[j]@);
            }
            assert(r.remaining() =~= self.keys());
        }
        r
    }
}

impl StrIter {
    /// The viewed keys not yet yielded, in order.
    pub closed spec fn remaining(&self) -> Seq<Seq<u8>> {
        let views = self.items@.map_values(|s: Str| s@);
        if self.pos <= views.len() {
            views.subrange(self.pos as int, views.len() as int)
        } else {
            Seq::empty()
        }
    }

    /// A fresh exhausted iterator.
    pub fn empty() -> (r: StrIter)
        ensures
            r.remaining() == Seq::<Seq<u8>>::empty(),
    {
        let r = StrIter { items: Vec::new(), pos: 0 };
        assert(r.remaining() =~= Seq::<Seq<u8>>::empty());
        r
    }

    /// Whether a key remains.
    pub fn has_next(&self) -> (r: bool)
        ensures
            r <==> self.remaining().len() > 0,
    {
        self.pos < self.items.len()
    }

    /// Yield the next key.
    pub fn get_next(&mut self) -> (r: Str)
        requires
            old(self).remaining().len() > 0,
        ensures
            r@ == old(self).remaining()[0],
            final(self).remaining() == old(self).remaining().subrange(
                1,
                old(self).remaining().len() as int,
            ),
    {
        proof {
            assert(self.pos < self.items@.len()) by {
                if self.pos >= self.items@.len() {
                    assert(old(self).remaining().len() == 0);
                }
            }
        }
        let n: usize = self.items.len();
        assert(self.pos < n);
        let r = self.items[self.pos].dup();
        self.pos = self.pos + 1;
        proof {
            assert(final(self).remaining() =~= old(self).remaining().subrange(
                1,
                old(self).remaining().len() as int,
            ));
        }
        r
    }
}

impl Default for StrIter {
    /// The default iterator is exhausted.
    fn default() -> (r: StrIter)
        ensures
            r.remaining() == Seq::<Seq<u8>>::empty(),
    {
        StrIter::empty()
    }
}

/// The order laws behind snapshot iteration: a store under a present key
/// keeps every key in its place, a store under a fresh key appends it, and
/// a delete removes exactly that key while the rest keep their order. An
/// iterator snapshots `int_keys_of(ps)` at creation (see
/// [`IntMap::to_iter`]) and owns that copy, so the keys it yields are the
/// keys present at snapshot time in their original insertion order,
/// whatever stores and deletes follow.
pub proof fn lemma_map_order_laws<V>(ps: Seq<(i64, V)>, k: i64, v: V)
    requires
        int_pairs_wf(ps),
    ensures
        int_keys_of(ps).contains(k) ==> int_keys_of(int_pairs_store(ps, k, v))
            == int_keys_of(ps),
        !int_keys_of(ps).contains(k) ==> int_keys_of(int_pairs_store(ps, k, v))
            == int_keys_of(ps).push(k),
        int_keys_of(int_pairs_delete(ps, k)) == int_keys_of(ps).remove_value(k),
{
    let keys = int_keys_of(ps);
    keys.index_of_first_ensures(k);
    if keys.contains(k) {
        let i = keys.index_of(k);
        assert(0 <= i < keys.len() && keys[i] == k) by {
            let w = choose|w: int| 0 <= w < keys.len() && keys[w] == k;
            assert(keys[w] == k);
        }
        assert(int_keys_of(ps.update(i, (k, v))) =~= keys);
        assert(int_keys_of(ps.remove(i)) =~= keys.remove(i));
        let f = keys.index_of_first(k).unwrap();
        assert(f == i) by {
            if f != i {
                assert(ps[f].0 == k && ps[i].0 == k);
            }
        }
    } else {
        assert(int_keys_of(ps.push((k, v))) =~= keys.push(k));
    }
}

} // verus!
