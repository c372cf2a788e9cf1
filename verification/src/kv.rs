//! A small string-keyed map over byte values, backed by an association list
//! with unique keys, viewed as a `Map<Seq<char>, Seq<u8>>`.

use vstd::prelude::*;

verus! {

use crate::primitives::wipe;

/// The abstract map denoted by an association list: later entries win, though
/// under `keys_unique` every key occurs at most once.
pub open spec fn kv_view_of(s: Seq<(String, Vec<u8>)>) -> Map<Seq<char>, Seq<u8>>
    decreases s.len(),
{
    if s.len() == 0 {
        Map::empty()
    } else {
        kv_view_of(s.drop_last()).insert(s.last().0@, s.last().1@)
    }
}

/// No two entries share a key.
pub open spec fn keys_unique(s: Seq<(String, Vec<u8>)>) -> bool {
    forall|i: int, j: int| 0 <= i < j < s.len() ==> s[i].0@ != s[j].0@
}

proof fn lemma_view_contains(s: Seq<(String, Vec<u8>)>, k: Seq<char>)
    ensures
        kv_view_of(s).contains_key(k) <==> exists|i: int| 0 <= i < s.len() && s[i].0@ == k,
    decreases s.len(),
{
    if s.len() > 0 {
        lemma_view_contains(s.drop_last(), k);
        if s.last().0@ == k {
            assert(s[s.len() - 1].0@ == k);
        } else {
            if kv_view_of(s).contains_key(k) {
                let i = choose|i: int| 0 <= i < s.drop_last().len() && s.drop_last()[i].0@ == k;
                assert(s[i].0@ == k);
            }
            if exists|i: int| 0 <= i < s.len() && s[i].0@ == k {
                let i = choose|i: int| 0 <= i < s.len() && s[i].0@ == k;
                assert(s.drop_last()[i].0@ == k);
            }
        }
    }
}

proof fn lemma_view_value(s: Seq<(String, Vec<u8>)>, i: int)
    requires
        keys_unique(s),
        0 <= i < s.len(),
    ensures
        kv_view_of(s).contains_key(s[i].0@),
        kv_view_of(s)[s[i].0@] == s[i].1@,
    decreases s.len(),
{
    if i == s.len() - 1 {
        lemma_view_contains(s, s[i].0@);
    } else {
        assert(s.drop_last()[i] == s[i]);
        lemma_view_value(s.drop_last(), i);
        assert(s.last().0@ != s[i].0@);
    }
}

proof fn lemma_view_remove(s: Seq<(String, Vec<u8>)>, i: int)
    requires
        keys_unique(s),
        0 <= i < s.len(),
    ensures
        kv_view_of(s.remove(i)) == kv_view_of(s).remove(s[i].0@),
    decreases s.len(),
{
    lemma_view_contains(s, s[i].0@);
    if i == s.len() - 1 {
        assert(s.remove(i) =~= s.drop_last());
        lemma_view_contains(s.drop_last(), s[i].0@);
        if kv_view_of(s.drop_last()).contains_key(s[i].0@) {
            let j = choose|j: int|
                0 <= j < s.drop_last().len() && s.drop_last()[j].0@ == s[i].0@;
            assert(s[j].0@ == s[i].0@);
            assert(false);
        }
        assert(kv_view_of(s.drop_last()) =~= kv_view_of(s).remove(s[i].0@));
    } else {
        assert(s.remove(i).drop_last() =~= s.drop_last().remove(i));
        assert(s.remove(i).last() == s.last());
        lemma_view_remove(s.drop_last(), i);
        assert(kv_view_of(s.remove(i)) == kv_view_of(s.drop_last().remove(i)).insert(
            s.last().0@,
            s.last().1@,
        ));
        assert(s.last().0@ != s[i].0@);
        assert(kv_view_of(s.drop_last()).remove(s[i].0@).insert(s.last().0@, s.last().1@)
            =~= kv_view_of(s.drop_last()).insert(s.last().0@, s.last().1@).remove(s[i].0@));
    }
}

/// A map from short string identifiers to byte blobs.
pub struct KvMap {
    entries: Vec<(String, Vec<u8>)>,
}

impl KvMap {
    /// Internal consistency: keys occur at most once.
    pub closed spec fn wf(self) -> bool {
        keys_unique(self.entries@)
    }

    /// The abstract contents.
    pub closed spec fn view(self) -> Map<Seq<char>, Seq<u8>> {
        kv_view_of(self.entries@)
    }

    pub fn new() -> (r: KvMap)
        ensures
            r.wf(),
            r@ == Map::<Seq<char>, Seq<u8>>::empty(),
    {
        KvMap { entries: Vec::new() }
    }

    fn position(&self, id: &str) -> (r: Option<usize>)
        requires
            self.wf(),
        ensures
            match r {
                Some(i) => i < self.entries@.len() && self.entries@[i as int].0@ == id@,
                None => forall|i: int|
                    0 <= i < self.entries@.len() ==> self.entries@[i].0@ != id@,
            },
    {
        let key: String = id.to_owned();
        let n = self.entries.len();
        for i in 0..n
            invariant
                n == self.entries@.len(),
                key@ == id@,
                forall|j: int| 0 <= j < i ==> self.entries@[j].0@ != id@,
        {
            if self.entries[i].0 == key {
                return Some(i);
            }
        }
        None
    }

    pub fn contains(&self, id: &str) -> (r: bool)
        requires
            self.wf(),
        ensures
            r == self@.contains_key(id@),
    {
        proof {
            lemma_view_contains(self.entries@, id@);
        }
        self.position(id).is_some()
    }

    pub fn get(&self, id: &str) -> (r: Option<&Vec<u8>>)
        requires
            self.wf(),
        ensures
            match r {
                Some(v) => self@.contains_key(id@) && v@ == self@[id@],
                None => !self@.contains_key(id@),
            },
    {
        proof {
            lemma_view_contains(self.entries@, id@);
        }
        match self.position(id) {
            Some(i) => {
                proof {
                    lemma_view_value(self.entries@, i as int);
                }
                Some(&self.entries[i].1)
            },
            None => None,
        }
    }

    pub fn insert(&mut self, id: &str, value: Vec<u8>)
        requires
            old(self).wf(),
        ensures
            final(self).wf(),
            final(self)@ == old(self)@.insert(id@, value@),
    {
        match self.position(id) {
            Some(i) => {
                proof {
                    lemma_view_remove(self.entries@, i as int);
                }
                let ghost before = self.entries@;
                self.entries.remove(i);
                let key: String = id.to_owned();
                self.entries.push((key, value));
                proof {
                    assert(self.entries@.drop_last() =~= before.remove(i as int));
                    lemma_view_contains(before, id@);
                    assert(kv_view_of(before).remove(id@).insert(id@, value@)
                        =~= kv_view_of(before).insert(id@, value@));
                    assert(forall|a: int, b: int|
                        0 <= a < b < self.entries@.len() ==> self.entries@[a].0@
                            != self.entries@[b].0@) by {
                        assert(forall|a: int|
                            0 <= a < before.remove(i as int).len()
                                ==> #[trigger] before.remove(i as int)[a].0@ != id@);
                    }
                }
            },
            None => {
                let key: String = id.to_owned();
                self.entries.push((key, value));
                proof {
                    assert(self.entries@.drop_last() =~= old(self).entries@);
                }
            },
        }
    }

    /// Removes the entry, handing back the value so the caller can dispose of
    /// secret bytes.
    pub fn remove(&mut self, id: &str) -> (r: Option<Vec<u8>>)
        requires
            old(self).wf(),
        ensures
            final(self).wf(),
            final(self)@ == old(self)@.remove(id@),
            match r {
                Some(v) => old(self)@.contains_key(id@) && v@ == old(self)@[id@],
                None => !old(self)@.contains_key(id@),
            },
    {
        proof {
            lemma_view_contains(self.entries@, id@);
        }
        match self.position(id) {
            Some(i) => {
                proof {
                    lemma_view_value(self.entries@, i as int);
                    lemma_view_remove(self.entries@, i as int);
                }
                let (_, v) = self.entries.remove(i);
                Some(v)
            },
            None => {
                proof {
                    assert(old(self)@.remove(id@) =~= old(self)@);
                }
                None
            },
        }
    }

    /// Empties the map, overwriting every held byte value first.
    pub fn clear_wipe(&mut self)
        requires
            old(self).wf(),
        ensures
            final(self).wf(),
            final(self)@ == Map::<Seq<char>, Seq<u8>>::empty(),
    {
        while self.entries.len() > 0
            invariant
                keys_unique(self.entries@),
            decreases self.entries@.len(),
        {
            let n = self.entries.len();
            let (_, mut v) = self.entries.remove(n - 1);
            wipe(&mut v);
        }
        proof {
            assert(self.entries@.len() == 0);
        }
    }
}

} // verus!
