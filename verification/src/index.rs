//! A map from a name to a list of strings, kept as the list of its entries
//! in the order in which they were added.

use vstd::prelude::*;
use crate::text::str_eq;

verus! {

/// Maps a key (an update's alias, a source package) to the strings that
/// were added for it (the update's installed builds, the package's binary
/// packages), in the order in which they were added.
#[derive(Debug)]
pub struct BuildIndex {
    entries: Vec<(String, String)>,
}

/// The values that `pairs` holds for `key`, in order.
pub open spec fn values_for(pairs: Seq<(Seq<char>, Seq<char>)>, key: Seq<char>) -> Seq<Seq<char>>
    decreases pairs.len(),
{
    if pairs.len() == 0 {
        Seq::empty()
    } else if pairs.last().0 == key {
        values_for(pairs.drop_last(), key).push(pairs.last().1)
    } else {
        values_for(pairs.drop_last(), key)
    }
}

/// The values for a key in two lists of entries, one after the other, are
/// those in the first followed by those in the second.
pub proof fn lemma_values_for_add(
    a: Seq<(Seq<char>, Seq<char>)>,
    b: Seq<(Seq<char>, Seq<char>)>,
    key: Seq<char>,
)
    ensures
        values_for(a + b, key) == values_for(a, key) + values_for(b, key),
    decreases b.len(),
{
    if b.len() == 0 {
        assert(a + b =~= a);
        assert(values_for(a, key) + values_for(b, key) =~= values_for(a, key));
    } else {
        assert((a + b).drop_last() =~= a + b.drop_last());
        lemma_values_for_add(a, b.drop_last(), key);
        if b.last().0 == key {
            assert(values_for(a + b, key) =~= values_for(a, key) + values_for(b, key));
        }
    }
}

impl View for BuildIndex {
    type V = Seq<(Seq<char>, Seq<char>)>;

    closed spec fn view(&self) -> Seq<(Seq<char>, Seq<char>)> {
        self.entries@.map_values(|e: (String, String)| (e.0@, e.1@))
    }
}

impl BuildIndex {
    /// The values that were added for `key`, in the order in which they
    /// were added; empty where none was.
    pub open spec fn spec_get(&self, key: Seq<char>) -> Seq<Seq<char>> {
        values_for(self@, key)
    }

    /// An index without entries.
    pub fn new() -> (index: BuildIndex)
        ensures
            index@ == Seq::<(Seq<char>, Seq<char>)>::empty(),
    {
        let index = BuildIndex { entries: Vec::new() };
        assert(index@ =~= Seq::<(Seq<char>, Seq<char>)>::empty());
        index
    }

    /// Adds `value` as the last of the values for `key`.
    pub fn insert(&mut self, key: String, value: String)
        ensures
            final(self)@ == old(self)@.push((key@, value@)),
    {
        self.entries.push((key, value));
        assert(self@ =~= old(self)@.push((key@, value@)));
    }

    /// Whether a value was added for `key`.
    pub fn contains_key(&self, key: &str) -> (res: bool)
        ensures
            res == (self.spec_get(key@).len() > 0),
    {
        let mut i: usize = 0;
        while i < self.entries.len()
            invariant
                i <= self.entries.len(),
                values_for(self@.take(i as int), key@).len() == 0,
            decreases self.entries.len() - i,
        {
            proof {
                assert(self@.take(i + 1).drop_last() =~= self@.take(i as int));
            }
            if str_eq(self.entries[i].0.as_str(), key) {
                proof {
                    lemma_values_for_add(self@.take(i + 1), self@.skip(i + 1), key@);
                    assert(self@.take(i + 1) + self@.skip(i + 1) =~= self@);
                }
                return true;
            }
            i += 1;
        }
        proof {
            assert(self@.take(i as int) =~= self@);
        }
        false
    }

    /// The value that was added last for `key`.
    pub fn last(&self, key: &str) -> (res: Option<&str>)
        ensures
            match res {
                Some(value) => self.spec_get(key@).len() > 0 && value@ == self.spec_get(
                    key@,
                ).last(),
                None => self.spec_get(key@).len() == 0,
            },
    {
        let mut res: Option<&str> = None;
        let mut i: usize = 0;
        while i < self.entries.len()
            invariant
                i <= self.entries.len(),
                match res {
                    Some(value) => values_for(self@.take(i as int), key@).len() > 0 && value@
                        == values_for(self@.take(i as int), key@).last(),
                    None => values_for(self@.take(i as int), key@).len() == 0,
                },
            decreases self.entries.len() - i,
        {
            proof {
                assert(self@.take(i + 1).drop_last() =~= self@.take(i as int));
            }
            if str_eq(self.entries[i].0.as_str(), key) {
                res = Some(self.entries[i].1.as_str());
            }
            i += 1;
        }
        proof {
            assert(self@.take(i as int) =~= self@);
        }
        res
    }

    /// The values that were added for `key`, in the order in which they
    /// were added.
    pub fn get(&self, key: &str) -> (res: Vec<&str>)
        ensures
            res@.map_values(|s: &str| s@) == self.spec_get(key@),
    {
        let mut res: Vec<&str> = Vec::new();
        let mut i: usize = 0;
        while i < self.entries.len()
            invariant
                i <= self.entries.len(),
                res@.map_values(|s: &str| s@) == values_for(self@.take(i as int), key@),
            decreases self.entries.len() - i,
        {
            proof {
                assert(self@.take(i + 1).drop_last() =~= self@.take(i as int));
            }
            let ghost before = res@.map_values(|s: &str| s@);
            if str_eq(self.entries[i].0.as_str(), key) {
                res.push(self.entries[i].1.as_str());
                proof {
                    assert(res@.map_values(|s: &str| s@) =~= before.push(self.entries[i as int].1@));
                }
            }
            i += 1;
        }
        proof {
            assert(self@.take(i as int) =~= self@);
        }
        res
    }
}

} // verus!
