//! The decoded parameter map: unique string keys, insertion overwrites.
//!
//! Body decoding and route capture both produce a mapping from decoded key
//! to decoded value.  The map is stored as a vector of pairs with no
//! repeated key; its mathematical view is a `Map<Seq<char>, Seq<char>>`,
//! and inserting an existing key replaces the previous value.

use vstd::map::*;
use vstd::prelude::*;

verus! {

/// The mapping a sequence of entries denotes, later entries overwriting
/// earlier ones.
pub open spec fn map_of(s: Seq<(String, String)>) -> Map<Seq<char>, Seq<char>>
    decreases s.len(),
{
    if s.len() == 0 {
        Map::empty()
    } else {
        map_of(s.drop_last()).insert(s.last().0@, s.last().1@)
    }
}

/// No two entries share a key.
pub open spec fn dup_free(s: Seq<(String, String)>) -> bool {
    forall|i: int, j: int| 0 <= i < j < s.len() ==> s[i].0@ != s[j].0@
}

/// How a key sequence relates to the mapping it denotes: membership is
/// existence of an entry, and under uniqueness the value is that entry's.
proof fn lemma_map_of(s: Seq<(String, String)>, k: Seq<char>)
    ensures
        map_of(s).dom().finite(),
        map_of(s).contains_key(k) <==> exists|i: int| 0 <= i < s.len() && s[i].0@ == k,
        dup_free(s) ==> forall|i: int|
            0 <= i < s.len() && s[i].0@ == k ==> map_of(s)[k] == s[i].1@,
    decreases s.len(),
{
    if s.len() == 0 {
    } else {
        let head = s.drop_last();
        lemma_map_of(head, k);
        assert(forall|i: int| 0 <= i < head.len() ==> head[i] == s[i]);
        if s.last().0@ == k {
            assert(s[s.len() - 1].0@ == k);
        } else {
            if map_of(s).contains_key(k) {
                assert(map_of(head).contains_key(k));
            }
            if exists|i: int| 0 <= i < s.len() && s[i].0@ == k {
                let i = choose|i: int| 0 <= i < s.len() && s[i].0@ == k;
                assert(i < s.len() - 1);
                assert(head[i].0@ == k);
            }
        }
    }
}

/// Under uniqueness the mapping has exactly one key per entry.
proof fn lemma_map_of_len(s: Seq<(String, String)>)
    requires
        dup_free(s),
    ensures
        map_of(s).dom().finite(),
        map_of(s).dom().len() == s.len(),
    decreases s.len(),
{
    if s.len() == 0 {
        assert(map_of(s).dom() =~= Set::<Seq<char>>::empty());
    } else {
        let head = s.drop_last();
        assert(forall|i: int| 0 <= i < head.len() ==> head[i] == s[i]);
        lemma_map_of_len(head);
        lemma_map_of(head, s.last().0@);
        assert(!map_of(head).contains_key(s.last().0@));
        assert(map_of(s).dom() =~= map_of(head).dom().insert(s.last().0@));
    }
}

/// A mapping from decoded keys to decoded values.  A key occurs at most
/// once; inserting a key that is already present replaces its value.
pub struct ParamMap {
    entries: Vec<(String, String)>,
}

impl View for ParamMap {
    type V = Map<Seq<char>, Seq<char>>;

    closed spec fn view(&self) -> Map<Seq<char>, Seq<char>> {
        map_of(self.entries@)
    }
}

impl ParamMap {
    /// The stored entries hold each key once.
    pub closed spec fn wf(&self) -> bool {
        dup_free(self.entries@)
    }

    /// How many keys the map holds.
    pub closed spec fn spec_len(&self) -> nat {
        self.entries@.len()
    }

    /// An empty map.
    pub fn new() -> (r: ParamMap)
        ensures
            r.wf(),
            r@ == Map::<Seq<char>, Seq<char>>::empty(),
            r.spec_len() == 0,
    {
        ParamMap { entries: Vec::new() }
    }

    /// Bind `key` to `value`, replacing any previous binding of `key`.
    pub fn insert(&mut self, key: String, value: String)
        requires
            old(self).wf(),
        ensures
            final(self).wf(),
            final(self)@ == old(self)@.insert(key@, value@),
            old(self)@.contains_key(key@) ==> final(self).spec_len() == old(self).spec_len(),
            !old(self)@.contains_key(key@) ==> final(self).spec_len() == old(self).spec_len()
                + 1,
    {
        let ghost s0 = self.entries@;
        let n = self.entries.len();
        let mut i: usize = 0;
        while i < n
            invariant
                i <= n,
                n == self.entries@.len(),
                self.entries@ == s0,
                s0 == old(self).entries@,
                dup_free(s0),
                forall|j: int| 0 <= j < i ==> s0[j].0@ != key@,
            decreases n - i,
        {
            if crate::text::str_eq(self.entries[i].0.as_str(), key.as_str()) {
                let ghost iv = i as int;
                let kept = self.entries[i].0.clone();
                self.entries.set(i, (kept, value));
                proof {
                    let s1 = self.entries@;
                    assert(s1 =~= s0.update(iv, (s1[iv].0, value)));
                    assert(s1[iv].0@ == key@);
                    assert(dup_free(s1));
                    lemma_map_of(s0, key@);
                    lemma_map_of(s1, key@);
                    assert_maps_equal!(map_of(s1), map_of(s0).insert(key@, value@), k => {
                        lemma_map_of(s0, k);
                        lemma_map_of(s1, k);
                        if k == key@ {
                        } else {
                            if map_of(s0).contains_key(k) {
                                let j = choose|j: int| 0 <= j < s0.len() && s0[j].0@ == k;
                                assert(s1[j].0@ == k);
                            }
                            if map_of(s1).contains_key(k) {
                                let j = choose|j: int| 0 <= j < s1.len() && s1[j].0@ == k;
                                assert(s0[j].0@ == k);
                            }
                        }
                    });
                }
                return;
            }
            i = i + 1;
        }
        proof {
            lemma_map_of(s0, key@);
            assert(!map_of(s0).contains_key(key@));
        }
        self.entries.push((key, value));
        proof {
            let s1 = self.entries@;
            assert(s1.drop_last() =~= s0);
            assert(dup_free(s1));
        }
    }

    /// The value bound to `key`, when one is.
    pub fn get(&self, key: &str) -> (r: Option<&String>)
        requires
            self.wf(),
        ensures
            match r {
                Some(v) => self@.contains_key(key@) && v@ == self@[key@],
                None => !self@.contains_key(key@),
            },
    {
        let ghost s0 = self.entries@;
        let n = self.entries.len();
        let mut i: usize = 0;
        while i < n
            invariant
                i <= n,
                n == self.entries@.len(),
                self.entries@ == s0,
                dup_free(s0),
                forall|j: int| 0 <= j < i ==> s0[j].0@ != key@,
            decreases n - i,
        {
            if crate::text::str_eq(self.entries[i].0.as_str(), key) {
                proof {
                    lemma_map_of(s0, key@);
                }
                return Some(&self.entries[i].1);
            }
            i = i + 1;
        }
        proof {
            lemma_map_of(s0, key@);
        }
        None
    }

    /// Whether `key` is bound.
    pub fn contains_key(&self, key: &str) -> (r: bool)
        requires
            self.wf(),
        ensures
            r == self@.contains_key(key@),
    {
        self.get(key).is_some()
    }

    /// How many keys are bound.
    pub fn len(&self) -> (r: usize)
        requires
            self.wf(),
        ensures
            r == self.spec_len(),
            r == self@.dom().len(),
    {
        proof {
            lemma_map_of_len(self.entries@);
        }
        self.entries.len()
    }
}

} // verus!
