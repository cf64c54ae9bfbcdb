//! A small string-keyed map, used where the report pipeline needs a
//! column-name to cell-value mapping.  It is an association list whose
//! newest binding stands in front, so an insertion shadows any older
//! binding of the same key.

use vstd::prelude::*;
use crate::text::str_eq;

verus! {

/// First binding of `key` in the pair list, front to back.
pub open spec fn sm_lookup(pairs: Seq<(String, String)>, key: Seq<char>) -> Option<Seq<char>>
    decreases pairs.len(),
{
    if pairs.len() == 0 {
        None
    } else if pairs[0].0@ == key {
        Some(pairs[0].1@)
    } else {
        sm_lookup(pairs.skip(1), key)
    }
}

/// A mapping from string keys to string values.
pub struct StringMap {
    /// The bindings, newest first.
    pub pairs: Vec<(String, String)>,
}

impl StringMap {
    /// The value bound to `key`, if any.
    pub open spec fn spec_get(&self, key: Seq<char>) -> Option<Seq<char>> {
        sm_lookup(self.pairs@, key)
    }

    /// An empty map.
    pub fn new() -> (m: StringMap)
        ensures
            m.pairs@.len() == 0,
    {
        StringMap { pairs: Vec::new() }
    }

    /// Binds `key` to `value`, shadowing any earlier binding of `key`.
    pub fn insert(&mut self, key: String, value: String)
        ensures
            final(self).pairs@ == seq![(key, value)] + old(self).pairs@,
    {
        proof {
            assert(old(self).pairs@.insert(0, (key, value)) =~= seq![(key, value)]
                + old(self).pairs@);
        }
        self.pairs.insert(0, (key, value));
    }

    /// Looks `key` up.
    pub fn get<'a>(&'a self, key: &str) -> (r: Option<&'a String>)
        ensures
            match r {
                Some(v) => self.spec_get(key@) == Some(v@),
                None => self.spec_get(key@) is None,
            },
    {
        let n = self.pairs.len();
        proof {
            assert(self.pairs@.skip(0) =~= self.pairs@);
        }
        let mut i: usize = 0;
        while i < n
            invariant
                n == self.pairs@.len(),
                i <= n,
                sm_lookup(self.pairs@, key@) == sm_lookup(self.pairs@.skip(i as int), key@),
            decreases n - i,
        {
            proof {
                assert(self.pairs@.skip(i as int)[0] == self.pairs@[i as int]);
                assert(self.pairs@.skip(i as int).skip(1) =~= self.pairs@.skip(i + 1));
            }
            if str_eq(self.pairs[i].0.as_str(), key) {
                return Some(&self.pairs[i].1);
            }
            i += 1;
        }
        proof {
            assert(self.pairs@.skip(n as int).len() == 0);
        }
        None
    }
}

} // verus!
