//! String-keyed settings read from `key = value` files, with the
//! semantics of a hash map filled in file order: a later value for a key
//! replaces an earlier one.

use vstd::prelude::*;
use crate::text::{chars_eq, chars_of};

verus! {

/// Settings as the sequence of assignments that made them; lookups see the
/// last assignment of a key.
#[derive(Debug, Clone)]
pub struct KvMap {
    entries: Vec<(String, String)>,
}

/// The map that a sequence of assignments leaves.
pub open spec fn map_of(entries: Seq<(String, String)>) -> Map<Seq<char>, Seq<char>>
    decreases entries.len(),
{
    if entries.len() == 0 {
        Map::empty()
    } else {
        map_of(entries.drop_last()).insert(entries.last().0@, entries.last().1@)
    }
}

impl View for KvMap {
    type V = Map<Seq<char>, Seq<char>>;

    closed spec fn view(&self) -> Map<Seq<char>, Seq<char>> {
        map_of(self.entries@)
    }
}

impl KvMap {
    /// No settings.
    pub fn new() -> (m: KvMap)
        ensures
            m@ == Map::<Seq<char>, Seq<char>>::empty(),
    {
        KvMap { entries: Vec::new() }
    }

    /// Sets `key` to `value`, replacing any earlier value.
    pub fn insert(&mut self, key: String, value: String)
        ensures
            final(self)@ == old(self)@.insert(key@, value@),
    {
        let ghost before = self.entries@;
        self.entries.push((key, value));
        assert(self.entries@.drop_last() =~= before);
    }

    /// The value of `key`, if it is set.
    pub fn get(&self, key: &str) -> (r: Option<String>)
        ensures
            match r {
                Some(v) => self@.contains_key(key@) && self@[key@] == v@,
                None => !self@.contains_key(key@),
            },
    {
        let k = chars_of(key);
        let mut i = self.entries.len();
        assert(self.entries@.take(i as int) =~= self.entries@);
        while i > 0
            invariant
                i <= self.entries.len(),
                k@ == key@,
                map_of(self.entries@).contains_key(key@) ==> map_of(self.entries@.take(i as int)).contains_key(key@)
                    && map_of(self.entries@.take(i as int))[key@] == map_of(self.entries@)[key@],
                !map_of(self.entries@).contains_key(key@) ==> !map_of(self.entries@.take(i as int)).contains_key(key@),
            decreases i,
        {
            let ghost pre = self.entries@.take(i as int);
            assert(pre.drop_last() =~= self.entries@.take(i - 1));
            if chars_eq(&chars_of(self.entries[i - 1].0.as_str()), &k) {
                assert(pre.last() == self.entries@[i - 1]);
                return Some(self.entries[i - 1].1.clone());
            }
            i -= 1;
        }
        assert(self.entries@.take(0) =~= Seq::<(String, String)>::empty());
        None
    }

    /// Whether `key` is set.
    pub fn contains_key(&self, key: &str) -> (r: bool)
        ensures
            r == self@.contains_key(key@),
    {
        self.get(key).is_some()
    }
}

} // verus!
