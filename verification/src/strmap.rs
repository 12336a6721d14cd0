//! An insertion-ordered string-to-string map with unique keys, viewed in
//! specifications as a `Map<Seq<char>, Seq<char>>`. The configuration's alias,
//! variable and environment tables, the app-name index, and resolved
//! environments are all values of this type.

use vstd::prelude::*;
use crate::text::seq_views;

verus! {

/// The map that a sequence of key/value pairs denotes; a later pair with the
/// same key overrides an earlier one.
pub open spec fn pairs_to_map(ks: Seq<Seq<char>>, vs: Seq<Seq<char>>) -> Map<
    Seq<char>,
    Seq<char>,
>
    decreases ks.len(),
{
    if ks.len() == 0 || ks.len() != vs.len() {
        Map::empty()
    } else {
        pairs_to_map(ks.drop_last(), vs.drop_last()).insert(ks.last(), vs.last())
    }
}

/// The position of key `k` in `ks` (meaningful when `ks` contains `k`).
pub open spec fn key_index(ks: Seq<Seq<char>>, k: Seq<char>) -> int {
    choose|i: int| 0 <= i < ks.len() && ks[i] == k
}

/// A key is in the denoted map exactly when it is one of the listed keys.
pub proof fn lemma_pairs_dom(ks: Seq<Seq<char>>, vs: Seq<Seq<char>>, k: Seq<char>)
    requires
        ks.len() == vs.len(),
    ensures
        pairs_to_map(ks, vs).contains_key(k) <==> ks.contains(k),
    decreases ks.len(),
{
    if ks.len() > 0 {
        lemma_pairs_dom(ks.drop_last(), vs.drop_last(), k);
        if ks.last() != k {
            assert(ks.contains(k) <==> ks.drop_last().contains(k)) by {
                if ks.contains(k) {
                    let i = choose|i: int| 0 <= i < ks.len() && ks[i] == k;
                    assert(ks.drop_last()[i] == k);
                }
                if ks.drop_last().contains(k) {
                    let i = choose|i: int| 0 <= i < ks.len() - 1 && ks.drop_last()[i] == k;
                    assert(ks[i] == k);
                }
            }
        } else {
            assert(ks[ks.len() - 1] == k);
        }
    }
}

/// The denoted map is finite, with at most one entry per listed key.
pub proof fn lemma_pairs_dom_finite(ks: Seq<Seq<char>>, vs: Seq<Seq<char>>)
    ensures
        pairs_to_map(ks, vs).dom().finite(),
        pairs_to_map(ks, vs).dom().len() <= ks.len(),
    decreases ks.len(),
{
    if ks.len() == 0 || ks.len() != vs.len() {
        assert(pairs_to_map(ks, vs).dom() =~= Set::<Seq<char>>::empty());
    } else {
        lemma_pairs_dom_finite(ks.drop_last(), vs.drop_last());
        let prev = pairs_to_map(ks.drop_last(), vs.drop_last()).dom();
        assert(pairs_to_map(ks, vs).dom() =~= prev.insert(ks.last()));
        vstd::set::axiom_set_insert_len(prev, ks.last());
    }
}

/// With distinct keys, the denoted map sends the key at position `i` to the
/// value at position `i`.
pub proof fn lemma_pairs_index(ks: Seq<Seq<char>>, vs: Seq<Seq<char>>, i: int)
    requires
        ks.len() == vs.len(),
        forall|p: int, q: int| 0 <= p < q < ks.len() ==> ks[p] != ks[q],
        0 <= i < ks.len(),
    ensures
        pairs_to_map(ks, vs).contains_key(ks[i]),
        pairs_to_map(ks, vs)[ks[i]] == vs[i],
    decreases ks.len(),
{
    if i < ks.len() - 1 {
        lemma_pairs_index(ks.drop_last(), vs.drop_last(), i);
    }
}

/// Overwriting the value at position `i` denotes inserting at the key there.
pub proof fn lemma_pairs_update(ks: Seq<Seq<char>>, vs: Seq<Seq<char>>, i: int, v: Seq<char>)
    requires
        ks.len() == vs.len(),
        forall|p: int, q: int| 0 <= p < q < ks.len() ==> ks[p] != ks[q],
        0 <= i < ks.len(),
    ensures
        pairs_to_map(ks, vs.update(i, v)) == pairs_to_map(ks, vs).insert(ks[i], v),
    decreases ks.len(),
{
    let n = ks.len() - 1;
    if i == n {
        assert(vs.update(i, v).drop_last() =~= vs.drop_last());
        assert(vs.update(i, v).last() == v);
        assert(pairs_to_map(ks.drop_last(), vs.drop_last()).insert(ks.last(), v) =~= pairs_to_map(
            ks.drop_last(),
            vs.drop_last(),
        ).insert(ks.last(), vs.last()).insert(ks[i], v));
    } else {
        assert(vs.update(i, v).drop_last() =~= vs.drop_last().update(i, v));
        assert(vs.update(i, v).last() == vs.last());
        lemma_pairs_update(ks.drop_last(), vs.drop_last(), i, v);
        assert(ks.drop_last()[i] == ks[i]);
        assert(ks[i] != ks.last());
        assert(pairs_to_map(ks.drop_last(), vs.drop_last()).insert(ks[i], v).insert(
            ks.last(),
            vs.last(),
        ) =~= pairs_to_map(ks.drop_last(), vs.drop_last()).insert(ks.last(), vs.last()).insert(
            ks[i],
            v,
        ));
    }
}

/// A string-to-string map: distinct keys in insertion order, each with its
/// value.
pub struct StrMap {
    keys: Vec<String>,
    vals: Vec<String>,
}

impl View for StrMap {
    type V = Map<Seq<char>, Seq<char>>;

    open spec fn view(&self) -> Map<Seq<char>, Seq<char>> {
        pairs_to_map(self.key_seq(), self.val_seq())
    }
}

impl StrMap {
    /// The keys, in insertion order.
    pub closed spec fn key_seq(&self) -> Seq<Seq<char>> {
        seq_views(self.keys@)
    }

    /// The values, in the order of their keys.
    pub closed spec fn val_seq(&self) -> Seq<Seq<char>> {
        seq_views(self.vals@)
    }

    /// Well-formedness: one value per key, and the keys are distinct.
    pub open spec fn wf(&self) -> bool {
        &&& self.key_seq().len() == self.val_seq().len()
        &&& forall|p: int, q: int|
            0 <= p < q < self.key_seq().len() ==> self.key_seq()[p] != self.key_seq()[q]
    }

    /// The empty map.
    pub fn new() -> (r: StrMap)
        ensures
            r.wf(),
            r@ == Map::<Seq<char>, Seq<char>>::empty(),
            r.key_seq() == Seq::<Seq<char>>::empty(),
            r.val_seq() == Seq::<Seq<char>>::empty(),
    {
        let r = StrMap { keys: Vec::new(), vals: Vec::new() };
        proof {
            assert(r.key_seq() =~= Seq::<Seq<char>>::empty());
            assert(r.val_seq() =~= Seq::<Seq<char>>::empty());
        }
        r
    }

    /// How many keys the map holds.
    pub fn len(&self) -> (r: usize)
        ensures
            r == self.key_seq().len(),
    {
        self.keys.len()
    }

    /// Whether the map holds no keys.
    pub fn is_empty(&self) -> (r: bool)
        ensures
            r == (self.key_seq().len() == 0),
    {
        self.keys.len() == 0
    }

    /// The key at position `i` in insertion order.
    pub fn key_at(&self, i: usize) -> (r: &String)
        requires
            i < self.key_seq().len(),
        ensures
            r@ == self.key_seq()[i as int],
    {
        &self.keys[i]
    }

    /// The value at position `i`, belonging to the key there.
    pub fn val_at(&self, i: usize) -> (r: &String)
        requires
            self.wf(),
            i < self.key_seq().len(),
        ensures
            r@ == self.val_seq()[i as int],
            self@.contains_key(self.key_seq()[i as int]),
            r@ == self@[self.key_seq()[i as int]],
    {
        proof {
            lemma_pairs_index(self.key_seq(), self.val_seq(), i as int);
        }
        &self.vals[i]
    }

    /// The position of key `k`, when the map holds it.
    fn find_index(&self, k: &str) -> (r: Option<usize>)
        requires
            self.wf(),
        ensures
            match r {
                Some(i) => i < self.key_seq().len() && self.key_seq()[i as int] == k@,
                None => !self.key_seq().contains(k@),
            },
    {
        let n = self.keys.len();
        let mut i: usize = 0;
        while i < n
            invariant
                n == self.key_seq().len(),
                i <= n,
                forall|j: int| 0 <= j < i ==> self.key_seq()[j] != k@,
            decreases n - i,
        {
            if crate::text::str_eq(self.keys[i].as_str(), k) {
                return Some(i);
            }
            i += 1;
        }
        None
    }

    /// Whether the map holds key `k`.
    pub fn has_key(&self, k: &str) -> (r: bool)
        requires
            self.wf(),
        ensures
            r == self@.contains_key(k@),
    {
        proof {
            lemma_pairs_dom(self.key_seq(), self.val_seq(), k@);
        }
        match self.find_index(k) {
            Some(_) => true,
            None => false,
        }
    }

    /// The value stored under `k`, when the map holds that key.
    pub fn get(&self, k: &str) -> (r: Option<&String>)
        requires
            self.wf(),
        ensures
            match r {
                Some(v) => self@.contains_key(k@) && v@ == self@[k@],
                None => !self@.contains_key(k@),
            },
    {
        proof {
            lemma_pairs_dom(self.key_seq(), self.val_seq(), k@);
        }
        match self.find_index(k) {
            Some(i) => {
                proof {
                    lemma_pairs_index(self.key_seq(), self.val_seq(), i as int);
                }
                Some(&self.vals[i])
            },
            None => None,
        }
    }

    /// Stores `v` under `k`: a fresh key goes to the end, an existing key
    /// keeps its position and takes the new value.
    pub fn insert(&mut self, k: String, v: String)
        requires
            old(self).wf(),
        ensures
            final(self).wf(),
            final(self)@ == old(self)@.insert(k@, v@),
            old(self)@.contains_key(k@) ==> final(self).key_seq() == old(self).key_seq()
                && final(self).val_seq() == old(self).val_seq().update(
                key_index(old(self).key_seq(), k@),
                v@,
            ),
            !old(self)@.contains_key(k@) ==> final(self).key_seq() == old(self).key_seq().push(k@)
                && final(self).val_seq() == old(self).val_seq().push(v@),
    {
        proof {
            lemma_pairs_dom(old(self).key_seq(), old(self).val_seq(), k@);
        }
        match self.find_index(k.as_str()) {
            Some(i) => {
                let ghost ks = self.key_seq();
                let ghost vs = self.val_seq();
                self.vals[i] = v;
                proof {
                    assert(self.key_seq() =~= ks);
                    assert(self.val_seq() =~= vs.update(i as int, v@));
                    assert(key_index(ks, k@) == i) by {
                        let j = key_index(ks, k@);
                        assert(0 <= j < ks.len() && ks[j] == k@);
                        if j < i {
                            assert(ks[j] != ks[i as int]);
                        }
                        if j > i {
                            assert(ks[i as int] != ks[j]);
                        }
                    }
                    lemma_pairs_update(ks, vs, i as int, v@);
                }
            },
            None => {
                let ghost ks = self.key_seq();
                let ghost vs = self.val_seq();
                self.keys.push(k);
                self.vals.push(v);
                proof {
                    assert(self.key_seq() =~= ks.push(k@));
                    assert(self.val_seq() =~= vs.push(v@));
                    assert(self.key_seq().drop_last() =~= ks);
                    assert(self.val_seq().drop_last() =~= vs);
                    assert(forall|p: int, q: int|
                        0 <= p < q < self.key_seq().len() ==> self.key_seq()[p]
                            != self.key_seq()[q]) by {
                        assert(forall|p: int|
                            0 <= p < ks.len() ==> self.key_seq()[p] == ks[p] && ks[p] != k@);
                    }
                }
            },
        }
    }

    /// Lays every pair of `other` over this map: a key present in both takes
    /// the value from `other`.
    pub fn extend_from(&mut self, other: &StrMap)
        requires
            old(self).wf(),
            other.wf(),
        ensures
            final(self).wf(),
            final(self)@ == old(self)@.union_prefer_right(other@),
    {
        let n = other.len();
        let mut i: usize = 0;
        proof {
            assert(other.key_seq().take(0) =~= Seq::<Seq<char>>::empty());
            assert(other.val_seq().take(0) =~= Seq::<Seq<char>>::empty());
            assert(old(self)@.union_prefer_right(Map::empty()) =~= old(self)@);
        }
        while i < n
            invariant
                n == other.key_seq().len(),
                other.wf(),
                i <= n,
                self.wf(),
                self@ == old(self)@.union_prefer_right(
                    pairs_to_map(other.key_seq().take(i as int), other.val_seq().take(i as int)),
                ),
            decreases n - i,
        {
            let k = other.key_at(i);
            let v = other.val_at(i);
            let ghost before = self@;
            self.insert(k.clone(), v.clone());
            proof {
                let ks = other.key_seq();
                let vs = other.val_seq();
                assert(ks.take(i + 1).drop_last() =~= ks.take(i as int));
                assert(vs.take(i + 1).drop_last() =~= vs.take(i as int));
                assert(pairs_to_map(ks.take(i + 1), vs.take(i + 1)) == pairs_to_map(
                    ks.take(i as int),
                    vs.take(i as int),
                ).insert(ks[i as int], vs[i as int]));
                vstd::map_lib::lemma_union_insert_right(
                    old(self)@,
                    pairs_to_map(ks.take(i as int), vs.take(i as int)),
                    ks[i as int],
                    vs[i as int],
                );
            }
            i += 1;
        }
        proof {
            assert(other.key_seq().take(n as int) =~= other.key_seq());
            assert(other.val_seq().take(n as int) =~= other.val_seq());
        }
    }
}

} // verus!
