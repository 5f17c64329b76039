//! String-keyed maps and sets backed by plain vectors.
//!
//! The session tables (`transition_map`, `visited_transitions`) hold at most
//! a few thousand short ids, so linear scans are ample.  Entries are viewed
//! as a mathematical `Map` / `Set`; a later `insert` of an existing key
//! overrides the earlier one.

use vstd::prelude::*;

verus! {

/// The map denoted by an entry sequence: every entry inserted in order, so a
/// later entry with the same key wins.
pub open spec fn entries_map(s: Seq<(String, String)>) -> Map<Seq<char>, Seq<char>>
    decreases s.len(),
{
    if s.len() == 0 {
        Map::empty()
    } else {
        entries_map(s.drop_last()).insert(s.last().0@, s.last().1@)
    }
}

/// The last value paired with `k` in `s`, if any: the backward-scan reading
/// of `entries_map`.
pub open spec fn assoc_get(s: Seq<(String, String)>, k: Seq<char>) -> Option<Seq<char>>
    decreases s.len(),
{
    if s.len() == 0 {
        None
    } else if s.last().0@ == k {
        Some(s.last().1@)
    } else {
        assoc_get(s.drop_last(), k)
    }
}

pub proof fn lemma_assoc_get_is_map_get(s: Seq<(String, String)>, k: Seq<char>)
    ensures
        assoc_get(s, k) == if entries_map(s).contains_key(k) {
            Some(entries_map(s)[k])
        } else {
            None::<Seq<char>>
        },
    decreases s.len(),
{
    if s.len() == 0 {
        assert(!entries_map(s).contains_key(k));
    } else {
        lemma_assoc_get_is_map_get(s.drop_last(), k);
    }
}

/// A string-to-string mapping.
pub struct StrMap {
    pub entries: Vec<(String, String)>,
}

impl StrMap {
    pub open spec fn view(self) -> Map<Seq<char>, Seq<char>> {
        entries_map(self.entries@)
    }

    pub fn new() -> (m: StrMap)
        ensures
            m@ == Map::<Seq<char>, Seq<char>>::empty(),
    {
        StrMap { entries: Vec::new() }
    }

    /// Binds `k` to `v`, overriding any earlier binding of `k`.
    pub fn insert(&mut self, k: String, v: String)
        ensures
            final(self)@ == old(self)@.insert(k@, v@),
    {
        let ghost s0 = self.entries@;
        self.entries.push((k, v));
        proof {
            assert(self.entries@.drop_last() =~= s0);
        }
    }

    /// Looks `k` up.
    pub fn get<'a>(&'a self, k: &String) -> (r: Option<&'a String>)
        ensures
            match r {
                Some(v) => self@.contains_key(k@) && v@ == self@[k@],
                None => !self@.contains_key(k@),
            },
    {
        let n = self.entries.len();
        let mut i: usize = n;
        proof {
            assert(self.entries@.subrange(0, n as int) =~= self.entries@);
        }
        while i > 0
            invariant
                0 <= i <= n,
                n == self.entries@.len(),
                assoc_get(self.entries@, k@) == assoc_get(self.entries@.subrange(0, i as int), k@),
            decreases i,
        {
            let ghost pre = self.entries@.subrange(0, i as int);
            proof {
                lemma_assoc_get_is_map_get(self.entries@, k@);
                assert(pre.drop_last() =~= self.entries@.subrange(0, i - 1));
                assert(pre.last() == self.entries@[i - 1]);
            }
            if self.entries[i - 1].0.eq(k) {
                return Some(&self.entries[i - 1].1);
            }
            i = i - 1;
        }
        proof {
            lemma_assoc_get_is_map_get(self.entries@, k@);
            assert(self.entries@.subrange(0, 0) =~= Seq::<(String, String)>::empty());
        }
        None
    }
}

/// The set denoted by an element sequence.
pub open spec fn strs_set(s: Seq<String>) -> Set<Seq<char>>
    decreases s.len(),
{
    if s.len() == 0 {
        Set::empty()
    } else {
        strs_set(s.drop_last()).insert(s.last()@)
    }
}

pub proof fn lemma_strs_set_contains(s: Seq<String>, k: Seq<char>)
    ensures
        strs_set(s).contains(k) <==> exists|i: int| 0 <= i < s.len() && s[i]@ == k,
    decreases s.len(),
{
    if s.len() == 0 {
    } else {
        lemma_strs_set_contains(s.drop_last(), k);
        if strs_set(s).contains(k) {
            if s.last()@ != k {
                let i = choose|i: int| 0 <= i < s.len() - 1 && s.drop_last()[i]@ == k;
                assert(s[i]@ == k);
            }
        }
        if exists|i: int| 0 <= i < s.len() && s[i]@ == k {
            let i = choose|i: int| 0 <= i < s.len() && s[i]@ == k;
            if i < s.len() - 1 {
                assert(s.drop_last()[i]@ == k);
            }
        }
    }
}

/// A set of strings.
pub struct StrSet {
    pub items: Vec<String>,
}

impl StrSet {
    pub open spec fn view(self) -> Set<Seq<char>> {
        strs_set(self.items@)
    }

    pub fn new() -> (m: StrSet)
        ensures
            m@ == Set::<Seq<char>>::empty(),
    {
        StrSet { items: Vec::new() }
    }

    pub fn contains(&self, k: &String) -> (b: bool)
        ensures
            b == self@.contains(k@),
    {
        let n = self.items.len();
        let mut i: usize = 0;
        while i < n
            invariant
                0 <= i <= n,
                n == self.items@.len(),
                forall|j: int| 0 <= j < i ==> self.items@[j]@ != k@,
            decreases n - i,
        {
            if self.items[i].eq(k) {
                proof {
                    lemma_strs_set_contains(self.items@, k@);
                }
                return true;
            }
            i = i + 1;
        }
        proof {
            lemma_strs_set_contains(self.items@, k@);
        }
        false
    }

    /// Adds `k`; a second insertion of an element already present is a no-op.
    pub fn insert(&mut self, k: String)
        ensures
            final(self)@ == old(self)@.insert(k@),
    {
        if self.contains(&k) {
            proof {
                assert(self@.insert(k@) =~= self@);
            }
        } else {
            let ghost s0 = self.items@;
            self.items.push(k);
            proof {
                assert(self.items@.drop_last() =~= s0);
            }
        }
    }
}

} // verus!
