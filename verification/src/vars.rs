//! Bindings of variable names to the text that was matched for them.
use vstd::prelude::*;
use vstd::string::*;
use crate::text::str_eq;

verus! {

broadcast use vstd::string::group_string_axioms;

/// A finite map from variable names to their values, in the order in which
/// they were bound.
#[derive(PartialEq, Eq, Debug)]
pub struct Vars {
    entries: Vec<(String, String)>,
}

pub closed spec fn entries_map(s: Seq<(String, String)>) -> Map<Seq<char>, Seq<char>>
    decreases s.len(),
{
    if s.len() == 0 {
        Map::empty()
    } else {
        entries_map(s.drop_last()).insert(s.last().0@, s.last().1@)
    }
}

closed spec fn keys_unique(s: Seq<(String, String)>) -> bool {
    forall|i: int, j: int| 0 <= i < j < s.len() ==> s[i].0@ != s[j].0@
}

proof fn lemma_entries_map(s: Seq<(String, String)>)
    requires
        keys_unique(s),
    ensures
        forall|k: Seq<char>| #[trigger] entries_map(s).contains_key(k)
            <==> exists|i: int| 0 <= i < s.len() && s[i].0@ == k,
        forall|i: int| 0 <= i < s.len() ==> #[trigger] entries_map(s)[s[i].0@] == s[i].1@,
    decreases s.len(),
{
    if s.len() > 0 {
        let t = s.drop_last();
        assert(keys_unique(t));
        lemma_entries_map(t);
        assert forall|k: Seq<char>| #[trigger] entries_map(s).contains_key(k)
            <==> exists|i: int| 0 <= i < s.len() && s[i].0@ == k by {
            if entries_map(s).contains_key(k) {
                if k != s.last().0@ {
                    assert(entries_map(t).contains_key(k));
                    let i = choose|i: int| 0 <= i < t.len() && t[i].0@ == k;
                    assert(s[i] == t[i]);
                } else {
                    assert(s[s.len() - 1].0@ == k);
                }
            }
            if exists|i: int| 0 <= i < s.len() && s[i].0@ == k {
                let i = choose|i: int| 0 <= i < s.len() && s[i].0@ == k;
                if i < s.len() - 1 {
                    assert(s[i] == t[i]);
                    assert(entries_map(t).contains_key(k));
                }
            }
        }
        assert forall|i: int| 0 <= i < s.len() implies #[trigger] entries_map(s)[s[i].0@] == s[i].1@ by {
            if i < s.len() - 1 {
                assert(s[i] == t[i]);
                assert(s[i].0@ != s[s.len() - 1].0@);
                assert(entries_map(t)[t[i].0@] == t[i].1@);
            }
        }
    }
}

impl View for Vars {
    type V = Map<Seq<char>, Seq<char>>;

    closed spec fn view(&self) -> Map<Seq<char>, Seq<char>> {
        entries_map(self.entries@)
    }
}

impl Vars {
    #[verifier::type_invariant]
    closed spec fn inv(self) -> bool {
        keys_unique(self.entries@)
    }

    pub fn new() -> (r: Vars)
        ensures
            r@ == Map::<Seq<char>, Seq<char>>::empty(),
    {
        Vars { entries: Vec::new() }
    }

    fn position(&self, k: &str) -> (r: Option<usize>)
        ensures
            match r {
                Some(i) => i < self.entries@.len() && self.entries@[i as int].0@ == k@,
                None => forall|i: int| 0 <= i < self.entries@.len() ==> self.entries@[i].0@ != k@,
            },
    {
        let mut i: usize = 0;
        while i < self.entries.len()
            invariant
                i <= self.entries@.len(),
                forall|j: int| 0 <= j < i ==> self.entries@[j].0@ != k@,
            decreases self.entries@.len() - i,
        {
            if str_eq(self.entries[i].0.as_str(), k) {
                return Some(i);
            }
            i = i + 1;
        }
        None
    }

    pub fn contains_key(&self, k: &str) -> (r: bool)
        ensures
            r == self@.contains_key(k@),
    {
        proof {
            use_type_invariant(self);
            lemma_entries_map(self.entries@);
        }
        self.position(k).is_some()
    }

    pub fn get(&self, k: &str) -> (r: Option<&String>)
        ensures
            match r {
                Some(v) => self@.contains_key(k@) && v@ == self@[k@],
                None => !self@.contains_key(k@),
            },
    {
        proof {
            use_type_invariant(self);
            lemma_entries_map(self.entries@);
        }
        match self.position(k) {
            Some(i) => Some(&self.entries[i].1),
            None => None,
        }
    }

    /// Binds `k` to `v`, replacing an earlier binding of `k`.
    pub fn insert(&mut self, k: String, v: String)
        ensures
            final(self)@ == old(self)@.insert(k@, v@),
    {
        proof {
            use_type_invariant(&*self);
            lemma_entries_map(self.entries@);
        }
        match self.position(k.as_str()) {
            Some(i) => {
                let ghost old_entries = self.entries@;
                let mut entries = Vec::new();
                std::mem::swap(&mut entries, &mut self.entries);
                entries.set(i, (k, v));
                proof {
                    assert(keys_unique(entries@));
                    lemma_entries_map(entries@);
                    assert(entries_map(entries@) =~= entries_map(old_entries).insert(
                        entries@[i as int].0@,
                        entries@[i as int].1@,
                    )) by {
                        assert forall|key: Seq<char>| #[trigger] entries_map(entries@).contains_key(key)
                            implies entries_map(old_entries).insert(entries@[i as int].0@, entries@[i as int].1@).contains_key(key) by {
                            let j = choose|j: int| 0 <= j < entries@.len() && entries@[j].0@ == key;
                            if j != i {
                                assert(entries@[j] == old_entries[j]);
                            }
                        }
                        assert forall|key: Seq<char>| #[trigger] entries_map(old_entries).insert(entries@[i as int].0@, entries@[i as int].1@).contains_key(key)
                            implies entries_map(entries@).contains_key(key) by {
                            if key != entries@[i as int].0@ {
                                let j = choose|j: int| 0 <= j < old_entries.len() && old_entries[j].0@ == key;
                                assert(entries@[j] == old_entries[j]);
                            }
                        }
                        assert forall|key: Seq<char>| #[trigger] entries_map(entries@).contains_key(key)
                            implies entries_map(entries@)[key] == entries_map(old_entries).insert(entries@[i as int].0@, entries@[i as int].1@)[key] by {
                            let j = choose|j: int| 0 <= j < entries@.len() && entries@[j].0@ == key;
                            if j != i {
                                assert(entries@[j] == old_entries[j]);
                            }
                        }
                    }
                }
                self.entries = entries;
            },
            None => {
                let ghost old_entries = self.entries@;
                let ghost kk = k@;
                let ghost vv = v@;
                let mut entries = Vec::new();
                std::mem::swap(&mut entries, &mut self.entries);
                entries.push((k, v));
                proof {
                    assert(entries@.drop_last() =~= old_entries);
                    assert(keys_unique(entries@)) by {
                        assert forall|a: int, b: int| 0 <= a < b < entries@.len()
                            implies entries@[a].0@ != entries@[b].0@ by {
                            if b < entries@.len() - 1 {
                                assert(entries@[a] == old_entries[a]);
                                assert(entries@[b] == old_entries[b]);
                            } else {
                                assert(entries@[a] == old_entries[a]);
                            }
                        }
                    }
                }
                self.entries = entries;
            },
        }
    }

    /// A copy of these bindings.
    pub fn duplicate(&self) -> (r: Vars)
        ensures
            r@ == self@,
    {
        proof {
            use_type_invariant(self);
        }
        let mut entries: Vec<(String, String)> = Vec::new();
        let mut i: usize = 0;
        while i < self.entries.len()
            invariant
                i <= self.entries@.len(),
                entries@.len() == i,
                keys_unique(self.entries@),
                forall|j: int| 0 <= j < i ==> (#[trigger] entries@[j]).0@ == self.entries@[j].0@
                    && entries@[j].1@ == self.entries@[j].1@,
            decreases self.entries@.len() - i,
        {
            let k = self.entries[i].0.clone();
            let v = self.entries[i].1.clone();
            entries.push((k, v));
            i = i + 1;
        }
        proof {
            assert(keys_unique(entries@));
            lemma_entries_map(entries@);
            lemma_entries_map(self.entries@);
            assert(entries_map(entries@) =~= entries_map(self.entries@)) by {
                assert forall|key: Seq<char>| #[trigger] entries_map(entries@).contains_key(key)
                    implies entries_map(self.entries@).contains_key(key) by {
                    let j = choose|j: int| 0 <= j < entries@.len() && entries@[j].0@ == key;
                    assert(self.entries@[j].0@ == key);
                }
                assert forall|key: Seq<char>| #[trigger] entries_map(self.entries@).contains_key(key)
                    implies entries_map(entries@).contains_key(key) by {
                    let j = choose|j: int| 0 <= j < self.entries@.len() && self.entries@[j].0@ == key;
                    assert(entries@[j].0@ == key);
                }
                assert forall|key: Seq<char>| #[trigger] entries_map(entries@).contains_key(key)
                    implies entries_map(entries@)[key] == entries_map(self.entries@)[key] by {
                    let j = choose|j: int| 0 <= j < entries@.len() && entries@[j].0@ == key;
                    assert(self.entries@[j].0@ == key);
                }
            }
        }
        Vars { entries }
    }
}

} // verus!
