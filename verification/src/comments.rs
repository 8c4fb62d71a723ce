//! Vorbis-style comments: a map from field names to values, with no name
//! twice.

use vstd::prelude::*;
use crate::keyed::{keyed_map, lemma_keyed_absent, lemma_keyed_at, lemma_keyed_push, lemma_keyed_remove, lemma_keyed_update};

verus! {

/// The value of `key` in `m`, if it has one.
pub open spec fn field(m: Map<Seq<char>, Seq<char>>, key: Seq<char>) -> Option<Seq<char>> {
    if m.contains_key(key) {
        Some(m[key])
    } else {
        None
    }
}

/// The views of a sequence of strings.
pub open spec fn texts(s: Seq<String>) -> Seq<Seq<char>> {
    s.map_values(|x: String| x@)
}

/// The map that the pairs in `pairs` make when each is inserted in turn, a
/// later pair replacing an earlier one with the same name.
pub open spec fn pairs_map(pairs: Seq<(Seq<char>, Seq<char>)>) -> Map<Seq<char>, Seq<char>>
    decreases pairs.len(),
{
    if pairs.len() == 0 {
        Map::empty()
    } else {
        pairs_map(pairs.drop_last()).insert(pairs.last().0, pairs.last().1)
    }
}

/// When no name occurs twice among `pairs`, their order does not matter: each
/// name maps to the value paired with it, and no other name is present.
pub proof fn lemma_pairs_map_distinct(pairs: Seq<(Seq<char>, Seq<char>)>)
    requires
        forall|i: int, j: int| 0 <= i < j < pairs.len() ==> pairs[i].0 != pairs[j].0,
    ensures
        forall|i: int|
            0 <= i < pairs.len() ==> #[trigger] pairs_map(pairs).contains_key(pairs[i].0)
                && pairs_map(pairs)[pairs[i].0] == pairs[i].1,
        forall|k: Seq<char>| #[trigger]
            pairs_map(pairs).contains_key(k) ==> exists|i: int|
                0 <= i < pairs.len() && pairs[i].0 == k,
    decreases pairs.len(),
{
    if pairs.len() > 0 {
        let init = pairs.drop_last();
        lemma_pairs_map_distinct(init);
        let m = pairs_map(pairs);
        assert(m == pairs_map(init).insert(pairs.last().0, pairs.last().1));
        assert forall|i: int| 0 <= i < pairs.len() implies #[trigger] m.contains_key(pairs[i].0)
            && m[pairs[i].0] == pairs[i].1 by {
            if i < pairs.len() - 1 {
                assert(init[i] == pairs[i]);
                assert(pairs_map(init).contains_key(init[i].0));
                assert(pairs[i].0 != pairs[pairs.len() - 1].0);
            }
        }
        assert forall|k: Seq<char>| #[trigger] m.contains_key(k) implies exists|i: int|
            0 <= i < pairs.len() && pairs[i].0 == k by {
            if k == pairs.last().0 {
                assert(pairs[pairs.len() - 1].0 == k);
            } else {
                assert(pairs_map(init).contains_key(k));
                let i = choose|i: int| 0 <= i < init.len() && init[i].0 == k;
                assert(pairs[i] == init[i]);
            }
        }
    }
}

/// The views of a sequence of pairs of strings.
pub open spec fn pair_texts(s: Seq<(String, String)>) -> Seq<(Seq<char>, Seq<char>)> {
    s.map_values(|p: (String, String)| (p.0@, p.1@))
}

/// Names and values at the same positions.
struct Pairs {
    names: Vec<String>,
    values: Vec<String>,
}

impl Pairs {
    spec fn map(&self) -> Map<Seq<char>, Seq<char>> {
        keyed_map(texts(self.names@), texts(self.values@))
    }

    /// The map's internal consistency: one value per name, no name twice.
    spec fn wf(&self) -> bool {
        &&& self.names@.len() == self.values@.len()
        &&& texts(self.names@).no_duplicates()
    }

    /// An empty map.
    fn new() -> (r: Pairs)
        ensures
            r.wf(),
            r.map() == Map::<Seq<char>, Seq<char>>::empty(),
    {
        let r = Pairs { names: Vec::new(), values: Vec::new() };
        assert(texts(r.names@) =~= Seq::empty());
        assert(r.map() =~= Map::<Seq<char>, Seq<char>>::empty());
        r
    }

    fn find(&self, name: &String) -> (r: Option<usize>)
        ensures
            match r {
                Some(i) => i < self.names@.len() && self.names@[i as int]@ == name@,
                None => forall|i: int|
                    0 <= i < self.names@.len() ==> texts(self.names@)[i] != name@,
            },
    {
        let n = self.names.len();
        let mut i: usize = 0;
        while i < n
            invariant
                i <= n,
                n == self.names@.len(),
                forall|j: int| 0 <= j < i ==> texts(self.names@)[j] != name@,
            decreases n - i,
        {
            if self.names[i] == *name {
                return Some(i);
            }
            i += 1;
        }
        None
    }

    /// Sets the value of `name` to `value`, replacing the one it had.
    fn insert(&mut self, name: String, value: String)
        requires
            old(self).wf(),
        ensures
            final(self).wf(),
            final(self).map() == old(self).map().insert(name@, value@),
    {
        let ghost (nv, vv) = (name@, value@);
        match self.find(&name) {
            Some(i) => {
                self.values.set(i, value);
                proof {
                    assert(texts(self.values@) =~= texts(old(self).values@).update(i as int, vv));
                    lemma_keyed_update(texts(self.names@), texts(old(self).values@), i as int, vv);
                }
            },
            None => {
                self.names.push(name);
                self.values.push(value);
                proof {
                    assert(texts(self.names@) =~= texts(old(self).names@).push(nv));
                    assert(texts(self.values@) =~= texts(old(self).values@).push(vv));
                    lemma_keyed_push(texts(old(self).names@), texts(old(self).values@), nv, vv);
                }
            },
        }
    }

    /// The value of `name`, if it has one.
    fn get(&self, name: &str) -> (r: Option<&String>)
        requires
            self.wf(),
        ensures
            r.deep_view() == field(self.map(), name@),
    {
        let key = String::from_str(name);
        match self.find(&key) {
            Some(i) => {
                proof {
                    lemma_keyed_at(texts(self.names@), texts(self.values@), i as int);
                }
                Some(&self.values[i])
            },
            None => {
                proof {
                    lemma_keyed_absent(texts(self.names@), texts(self.values@), name@);
                }
                None
            },
        }
    }

    /// Takes the value of `name` out of the map, if it has one.
    fn remove(&mut self, name: &str) -> (r: Option<String>)
        requires
            old(self).wf(),
        ensures
            final(self).wf(),
            final(self).map() == old(self).map().remove(name@),
            r.deep_view() == field(old(self).map(), name@),
    {
        let key = String::from_str(name);
        match self.find(&key) {
            Some(i) => {
                proof {
                    lemma_keyed_at(texts(self.names@), texts(self.values@), i as int);
                    lemma_keyed_remove(texts(self.names@), texts(self.values@), i as int);
                }
                self.names.remove(i);
                let v = self.values.remove(i);
                proof {
                    assert(texts(self.names@) =~= texts(old(self).names@).remove(i as int));
                    assert(texts(self.values@) =~= texts(old(self).values@).remove(i as int));
                }
                Some(v)
            },
            None => {
                proof {
                    lemma_keyed_absent(texts(self.names@), texts(self.values@), name@);
                    assert(self.map().remove(name@) =~= self.map());
                }
                None
            },
        }
    }
}

/// A map from comment field names to values.
pub struct CommentMap {
    pairs: Pairs,
}

impl View for CommentMap {
    type V = Map<Seq<char>, Seq<char>>;

    closed spec fn view(&self) -> Map<Seq<char>, Seq<char>> {
        self.pairs.map()
    }
}

impl CommentMap {
    /// One value per name, no name twice.
    #[verifier::type_invariant]
    spec fn inv(self) -> bool {
        self.pairs.wf()
    }

    /// An empty map.
    pub fn new() -> (r: CommentMap)
        ensures
            r@ == Map::<Seq<char>, Seq<char>>::empty(),
    {
        CommentMap { pairs: Pairs::new() }
    }

    /// Sets the value of `name` to `value`, replacing the one it had.
    pub fn insert(&mut self, name: String, value: String)
        ensures
            final(self)@ == old(self)@.insert(name@, value@),
    {
        proof {
            use_type_invariant(&*self);
        }
        let mut pairs = Pairs::new();
        std::mem::swap(&mut self.pairs, &mut pairs);
        pairs.insert(name, value);
        self.pairs = pairs;
    }

    /// The value of `name`, if it has one.
    pub fn get(&self, name: &str) -> (r: Option<&String>)
        ensures
            r.deep_view() == field(self@, name@),
    {
        proof {
            use_type_invariant(self);
        }
        self.pairs.get(name)
    }

    /// Takes the value of `name` out of the map, if it has one.
    pub fn remove(&mut self, name: &str) -> (r: Option<String>)
        ensures
            final(self)@ == old(self)@.remove(name@),
            r.deep_view() == field(old(self)@, name@),
    {
        proof {
            use_type_invariant(&*self);
        }
        let mut pairs = Pairs::new();
        std::mem::swap(&mut self.pairs, &mut pairs);
        let r = pairs.remove(name);
        self.pairs = pairs;
        r
    }

    /// The map that `pairs` make, a later pair replacing an earlier one with
    /// the same name (as collecting them into a `HashMap` does).
    pub fn from_pairs(pairs: Vec<(String, String)>) -> (r: CommentMap)
        ensures
            r@ == pairs_map(pair_texts(pairs@)),
    {
        let ghost ps = pair_texts(pairs@);
        let mut m = CommentMap::new();
        let n = pairs.len();
        let mut i: usize = 0;
        while i < n
            invariant
                i <= n,
                n == pairs@.len(),
                ps == pair_texts(pairs@),
                m@ == pairs_map(ps.take(i as int)),
            decreases n - i,
        {
            let name = pairs[i].0.clone();
            let value = pairs[i].1.clone();
            m.insert(name, value);
            proof {
                assert(ps.take(i + 1).drop_last() =~= ps.take(i as int));
            }
            i += 1;
        }
        assert(ps.take(n as int) =~= ps);
        m
    }
}

} // verus!
