//! A small map keyed by strings, kept as a list of distinct keys in insertion
//! order.

use vstd::prelude::*;
use crate::text::str_equal;

verus! {

/// A map from strings to values; each key occurs once.
pub struct StrMap<V> {
    pairs: Vec<(String, V)>,
}

pub open spec fn key_views<V>(pairs: Seq<(String, V)>) -> Seq<Seq<char>> {
    pairs.map_values(|p: (String, V)| p.0@)
}

impl<V> StrMap<V> {
    #[verifier::type_invariant]
    closed spec fn keys_distinct(&self) -> bool {
        key_views(self.pairs@).no_duplicates()
    }

    /// The keys, in insertion order.
    pub closed spec fn keys(&self) -> Seq<Seq<char>> {
        key_views(self.pairs@)
    }
}

impl<V: View> View for StrMap<V> {
    type V = Map<Seq<char>, V::V>;

    closed spec fn view(&self) -> Map<Seq<char>, V::V> {
        Map::new(
            |k: Seq<char>| key_views(self.pairs@).contains(k),
            |k: Seq<char>| self.pairs@[key_views(self.pairs@).index_of(k)].1@,
        )
    }
}

impl<V: View> StrMap<V> {
    /// The empty map.
    pub fn new() -> (m: Self)
        ensures
            m@ == Map::<Seq<char>, V::V>::empty(),
    {
        let m = StrMap { pairs: Vec::new() };
        assert(m@ =~= Map::<Seq<char>, V::V>::empty());
        m
    }

    /// The position of key `k`, if present.
    fn position_in(pairs: &Vec<(String, V)>, k: &str) -> (r: Option<usize>)
        ensures
            match r {
                Some(i) => i < pairs@.len() && key_views(pairs@)[i as int] == k@,
                None => !key_views(pairs@).contains(k@),
            },
    {
        let mut i: usize = 0;
        while i < pairs.len()
            invariant
                i <= pairs@.len(),
                forall|j: int| 0 <= j < i ==> key_views(pairs@)[j] != k@,
            decreases pairs@.len() - i,
        {
            if str_equal(pairs[i].0.as_str(), k) {
                return Some(i);
            }
            i = i + 1;
        }
        None
    }

    /// The value stored under `k`.
    pub fn get(&self, k: &str) -> (r: Option<&V>)
        ensures
            match r {
                Some(v) => self@.contains_key(k@) && v@ == self@[k@],
                None => !self@.contains_key(k@),
            },
    {
        proof {
            use_type_invariant(self);
        }
        match Self::position_in(&self.pairs, k) {
            Some(i) => {
                let ghost ks = key_views(self.pairs@);
                proof {
                    let j = ks.index_of(k@);
                    assert(ks.contains(k@));
                    assert(ks[j] == k@);
                    assert(j == i);
                }
                Some(&self.pairs[i].1)
            },
            None => None,
        }
    }

    /// Stores `v` under `k`, replacing what was there.
    pub fn insert(&mut self, k: String, v: V)
        ensures
            final(self)@ == old(self)@.insert(k@, v@),
    {
        proof {
            use_type_invariant(&*self);
        }
        let ghost old_pairs = self.pairs@;
        let ghost ks = key_views(old_pairs);
        let ghost kv = k@;
        let mut pairs: Vec<(String, V)> = Vec::new();
        std::mem::swap(&mut pairs, &mut self.pairs);
        match Self::position_in(&pairs, k.as_str()) {
            Some(i) => {
                pairs.set(i, (k, v));
                assert(key_views(pairs@) =~= ks);
            },
            None => {
                pairs.push((k, v));
                proof {
                    let nks = key_views(pairs@);
                    assert(nks =~= ks.push(kv));
                    assert forall|a: int, b: int|
                        0 <= a < nks.len() && 0 <= b < nks.len() && a != b implies nks[a]
                        != nks[b] by {
                        if a == ks.len() {
                            assert(ks[b] == nks[b]);
                        } else if b == ks.len() {
                            assert(ks[a] == nks[a]);
                        } else {
                            assert(ks[a] == nks[a] && ks[b] == nks[b]);
                        }
                    }
                }
            },
        }
        proof {
            let nks = key_views(pairs@);
            assert forall|key: Seq<char>| nks.contains(key) <==> (ks.contains(key) || key == kv) by {
                if nks.contains(key) {
                    let j = choose|j: int| 0 <= j < nks.len() && nks[j] == key;
                    if key != kv {
                        assert(ks[j] == key);
                    }
                }
                if ks.contains(key) {
                    let j = choose|j: int| 0 <= j < ks.len() && ks[j] == key;
                    if key != kv {
                        assert(nks[j] == key);
                    }
                }
                if key == kv {
                    if ks.contains(kv) {
                        let j = choose|j: int| 0 <= j < ks.len() && ks[j] == key;
                        assert(nks[j] == key);
                    } else {
                        assert(nks[ks.len() as int] == kv);
                    }
                }
            }
            assert forall|key: Seq<char>| nks.contains(key) implies pairs@[nks.index_of(
                key,
            )].1@ == old(self)@.insert(kv, v@)[key] by {
                let j = nks.index_of(key);
                assert(nks[j] == key);
                if key == kv {
                    assert(pairs@[j].0@ == kv);
                } else {
                    assert(ks[j] == key);
                    let j2 = ks.index_of(key);
                    assert(ks[j2] == key);
                    assert(j2 == j);
                    assert(pairs@[j] == old_pairs[j]);
                }
            }
        }
        self.pairs = pairs;
        assert(self@ =~= old(self)@.insert(kv, v@));
    }
}

} // verus!
