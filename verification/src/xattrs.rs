//! Extended attributes of one entry: a small key/value store with
//! unique keys, viewed as a map from key to byte string.

use vstd::prelude::*;

verus! {

/// The byte-string value of one extended attribute.
pub type XattrValue = Vec<u8>;

/// The extended-attribute set of one entry.
#[derive(Clone)]
pub struct XAttrs {
    pairs: Vec<(String, XattrValue)>,
}

/// The map that a sequence of key/value pairs denotes, later pairs
/// overriding earlier ones with the same key.
pub open spec fn pairs_map(s: Seq<(String, XattrValue)>) -> Map<Seq<char>, Seq<u8>>
    decreases s.len(),
{
    if s.len() == 0 {
        Map::empty()
    } else {
        pairs_map(s.drop_last()).insert(s.last().0@, s.last().1@)
    }
}

impl View for XAttrs {
    type V = Map<Seq<char>, Seq<u8>>;

    closed spec fn view(&self) -> Map<Seq<char>, Seq<u8>> {
        pairs_map(self.pairs@)
    }
}

impl XAttrs {
    /// An empty attribute set.
    pub fn new() -> (r: XAttrs)
        ensures
            r@ == Map::<Seq<char>, Seq<u8>>::empty(),
    {
        XAttrs { pairs: Vec::new() }
    }

    /// Look an attribute up by its key.
    pub fn get(&self, key: &String) -> (r: Option<&XattrValue>)
        ensures
            match r {
                Some(v) => self@.contains_key(key@) && self@[key@] == v@,
                None => !self@.contains_key(key@),
            },
    {
        let n = self.pairs.len();
        let mut i = n;
        proof {
            assert(self.pairs@.subrange(0, n as int) =~= self.pairs@);
        }
        while i > 0
            invariant
                i <= n,
                n == self.pairs.len(),
                self@.contains_key(key@) == pairs_map(
                    self.pairs@.subrange(0, i as int),
                ).contains_key(key@),
                self@.contains_key(key@) ==> self@[key@] == pairs_map(
                    self.pairs@.subrange(0, i as int),
                )[key@],
            decreases i,
        {
            i = i - 1;
            proof {
                assert(self.pairs@.subrange(0, i + 1).drop_last() =~= self.pairs@.subrange(
                    0,
                    i as int,
                ));
                assert(self.pairs@.subrange(0, i + 1).last() == self.pairs@[i as int]);
            }
            if self.pairs[i].0 == *key {
                return Some(&self.pairs[i].1);
            }
        }
        proof {
            assert(self.pairs@.subrange(0, 0) =~= Seq::<(String, XattrValue)>::empty());
        }
        None
    }

    /// Add an attribute; a later addition under the same key wins.
    pub fn add(&mut self, key: String, value: XattrValue)
        ensures
            final(self)@ == old(self)@.insert(key@, value@),
    {
        self.pairs.push((key, value));
        proof {
            assert(self.pairs@.drop_last() =~= old(self).pairs@);
        }
    }
}

} // verus!
