//! A string-keyed map of string values, backed by a vector of pairs with
//! pairwise-distinct keys. Both the evaluation context and an action's
//! parameter table are values of this type; contracts speak of its view,
//! a `Map<Seq<char>, Seq<char>>`.

use vstd::prelude::*;

verus! {

/// The map denoted by a sequence of key/value pairs: later pairs win,
/// though the well-formedness invariant keeps keys distinct anyway.
pub open spec fn map_of(s: Seq<(Seq<char>, Seq<char>)>) -> Map<Seq<char>, Seq<char>>
    decreases s.len(),
{
    if s.len() == 0 {
        Map::empty()
    } else {
        map_of(s.drop_last()).insert(s.last().0, s.last().1)
    }
}

/// No two pairs share a key.
pub open spec fn unique_keys(s: Seq<(Seq<char>, Seq<char>)>) -> bool {
    forall|i: int, j: int| 0 <= i < j < s.len() ==> s[i].0 != s[j].0
}

/// Looks a key up in a context map, falling back to the empty string:
/// a missing context field is treated as the empty value, never an error.
pub open spec fn lookup_or_empty(ctx: Map<Seq<char>, Seq<char>>, key: Seq<char>) -> Seq<char> {
    if ctx.contains_key(key) {
        ctx[key]
    } else {
        Seq::empty()
    }
}

proof fn lemma_map_of_absent(s: Seq<(Seq<char>, Seq<char>)>, k: Seq<char>)
    requires
        forall|i: int| 0 <= i < s.len() ==> s[i].0 != k,
    ensures
        !map_of(s).contains_key(k),
    decreases s.len(),
{
    if s.len() > 0 {
        assert(forall|i: int| 0 <= i < s.drop_last().len() ==> s.drop_last()[i].0 != k);
        lemma_map_of_absent(s.drop_last(), k);
    }
}

proof fn lemma_map_of_found(s: Seq<(Seq<char>, Seq<char>)>, i: int)
    requires
        0 <= i < s.len(),
        forall|j: int| i < j < s.len() ==> s[j].0 != s[i].0,
    ensures
        map_of(s).contains_key(s[i].0),
        map_of(s)[s[i].0] == s[i].1,
    decreases s.len(),
{
    if i < s.len() - 1 {
        assert(forall|j: int| i < j < s.drop_last().len() ==> s.drop_last()[j].0 != s.drop_last()[i].0);
        lemma_map_of_found(s.drop_last(), i);
    }
}

proof fn lemma_map_of_update(s: Seq<(Seq<char>, Seq<char>)>, i: int, v: Seq<char>)
    requires
        0 <= i < s.len(),
        unique_keys(s),
    ensures
        map_of(s.update(i, (s[i].0, v))) == map_of(s).insert(s[i].0, v),
    decreases s.len(),
{
    let t = s.update(i, (s[i].0, v));
    if i == s.len() - 1 {
        assert(t.drop_last() =~= s.drop_last());
        assert(map_of(s.drop_last()).insert(s[i].0, s[i].1).insert(s[i].0, v)
            =~= map_of(s.drop_last()).insert(s[i].0, v));
    } else {
        assert(forall|a: int, b: int|
            0 <= a < b < s.drop_last().len() ==> s.drop_last()[a].0 != s.drop_last()[b].0);
        lemma_map_of_update(s.drop_last(), i, v);
        assert(t.drop_last() =~= s.drop_last().update(i, (s[i].0, v)));
        assert(t.last() == s.last());
        assert(s.last().0 != s[i].0);
        assert(map_of(s.drop_last()).insert(s[i].0, v).insert(s.last().0, s.last().1)
            =~= map_of(s.drop_last()).insert(s.last().0, s.last().1).insert(s[i].0, v));
    }
}

/// A mutable table of string keys and string values; keys are unique.
pub struct StringMap {
    pairs: Vec<(String, String)>,
}

impl View for StringMap {
    type V = Map<Seq<char>, Seq<char>>;

    closed spec fn view(&self) -> Map<Seq<char>, Seq<char>> {
        map_of(self.kv())
    }
}

impl StringMap {
    /// The pairs held, as a sequence of views.
    pub closed spec fn kv(&self) -> Seq<(Seq<char>, Seq<char>)> {
        self.pairs@.map_values(|p: (String, String)| (p.0@, p.1@))
    }

    #[verifier::type_invariant]
    spec fn inv(&self) -> bool {
        unique_keys(self.kv())
    }

    /// An empty map.
    pub fn new() -> (r: StringMap)
        ensures
            r@ == Map::<Seq<char>, Seq<char>>::empty(),
    {
        let pairs: Vec<(String, String)> = Vec::new();
        StringMap { pairs }
    }

    /// Sets or overwrites the value for a key; every other key keeps its value.
    pub fn set(&mut self, key: String, value: String)
        ensures
            final(self)@ == old(self)@.insert(key@, value@),
    {
        proof {
            use_type_invariant(&*self);
        }
        let ghost s0 = self.kv();
        let mut pairs: Vec<(String, String)> = Vec::new();
        std::mem::swap(&mut pairs, &mut self.pairs);
        let n = pairs.len();
        let mut i: usize = 0;
        while i < n && !(pairs[i].0 == key)
            invariant
                i <= n,
                n == pairs.len(),
                s0 == pairs@.map_values(|p: (String, String)| (p.0@, p.1@)),
                forall|j: int| 0 <= j < i ==> s0[j].0 != key@,
            decreases n - i,
        {
            i += 1;
        }
        if i < n {
            pairs.set(i, (key, value));
            proof {
                lemma_map_of_update(s0, i as int, value@);
                assert(pairs@.map_values(|p: (String, String)| (p.0@, p.1@))
                    =~= s0.update(i as int, (s0[i as int].0, value@)));
            }
        } else {
            pairs.push((key, value));
            proof {
                assert(pairs@.map_values(|p: (String, String)| (p.0@, p.1@))
                    =~= s0.push((key@, value@)));
                assert(s0.push((key@, value@)).drop_last() =~= s0);
            }
        }
        self.pairs = pairs;
    }

    /// The value stored for a key, or the empty string where the key is absent.
    pub fn get_or_empty(&self, key: &String) -> (r: String)
        ensures
            r@ == lookup_or_empty(self@, key@),
    {
        proof {
            use_type_invariant(&*self);
        }
        let n = self.pairs.len();
        let mut i: usize = 0;
        while i < n && !(self.pairs[i].0 == *key)
            invariant
                i <= n,
                n == self.pairs.len(),
                forall|j: int| 0 <= j < i ==> self.kv()[j].0 != key@,
            decreases n - i,
        {
            i += 1;
        }
        if i < n {
            proof {
                lemma_map_of_found(self.kv(), i as int);
            }
            self.pairs[i].1.clone()
        } else {
            proof {
                lemma_map_of_absent(self.kv(), key@);
            }
            String::new()
        }
    }

    /// The pairs held, each of which the map contains.
    pub fn entries(&self) -> (r: &Vec<(String, String)>)
        ensures
            forall|i: int|
                0 <= i < r@.len()
                    ==> self@.contains_key(#[trigger] r@[i].0@) && self@[r@[i].0@] == r@[i].1@,
    {
        proof {
            use_type_invariant(&*self);
            assert forall|i: int|
                0 <= i < self.pairs@.len()
                    implies self@.contains_key(#[trigger] self.pairs@[i].0@)
                        && self@[self.pairs@[i].0@] == self.pairs@[i].1@ by {
                lemma_map_of_found(self.kv(), i);
            }
        }
        &self.pairs
    }
}

impl Clone for StringMap {
    /// The clone holds exactly the pairs of the original.
    fn clone(&self) -> (r: Self)
        ensures
            r@ == self@,
    {
        proof {
            use_type_invariant(&*self);
        }
        let mut pairs: Vec<(String, String)> = Vec::new();
        let n = self.pairs.len();
        let mut i: usize = 0;
        while i < n
            invariant
                i <= n,
                n == self.pairs.len(),
                pairs@.len() == i,
                forall|j: int|
                    0 <= j < i
                        ==> (#[trigger] pairs@[j]).0@ == self.pairs@[j].0@
                            && pairs@[j].1@ == self.pairs@[j].1@,
            decreases n - i,
        {
            let p = (self.pairs[i].0.clone(), self.pairs[i].1.clone());
            pairs.push(p);
            i += 1;
        }
        proof {
            assert(pairs@.map_values(|p: (String, String)| (p.0@, p.1@)) =~= self.kv());
        }
        StringMap { pairs }
    }
}

} // verus!
