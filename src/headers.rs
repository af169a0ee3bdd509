//! Header fields: an ordered list of name/value pairs whose lookups ignore
//! the case of names and take the most recent entry.

use vstd::prelude::*;
use crate::bytes::{eq_ignore_case, equals_ignore_case};

verus! {

/// One header field, name and value as bytes.
pub struct Header {
    pub name: Vec<u8>,
    pub value: Vec<u8>,
}

/// Header fields in the order they were added.
pub struct Headers {
    pub entries: Vec<Header>,
}

/// The value of the last field in `hs` whose name equals `name` without case.
pub open spec fn lookup(hs: Seq<(Seq<u8>, Seq<u8>)>, name: Seq<u8>) -> Option<Seq<u8>>
    decreases hs.len(),
{
    if hs.len() == 0 {
        None
    } else if eq_ignore_case(hs.last().0, name) {
        Some(hs.last().1)
    } else {
        lookup(hs.drop_last(), name)
    }
}

impl Headers {
    /// The fields as name/value byte sequences.
    pub open spec fn model(&self) -> Seq<(Seq<u8>, Seq<u8>)> {
        Seq::new(self.entries@.len(), |i: int| (self.entries@[i].name@, self.entries@[i].value@))
    }

    /// No fields.
    pub fn new() -> (r: Headers)
        ensures
            r.model() == Seq::<(Seq<u8>, Seq<u8>)>::empty(),
    {
        let r = Headers { entries: Vec::new() };
        assert(r.model() =~= Seq::<(Seq<u8>, Seq<u8>)>::empty());
        r
    }

    /// Adds a field after the others; it hides earlier fields of the same name.
    pub fn insert(&mut self, name: Vec<u8>, value: Vec<u8>)
        ensures
            final(self).model() == old(self).model().push((name@, value@)),
    {
        self.entries.push(Header { name, value });
        assert(self.model() =~= old(self).model().push((name@, value@)));
    }

    /// Number of fields.
    pub fn len(&self) -> (r: usize)
        ensures
            r == self.model().len(),
    {
        self.entries.len()
    }

    /// The value of the most recent field named `name`, ignoring case.
    pub fn get(&self, name: &[u8]) -> (r: Option<&Vec<u8>>)
        ensures
            match r {
                Some(v) => lookup(self.model(), name@) == Some(v@),
                None => lookup(self.model(), name@) is None,
            },
    {
        let mut i: usize = self.entries.len();
        assert(self.model().subrange(0, i as int) =~= self.model());
        while i > 0
            invariant
                i <= self.entries@.len(),
                lookup(self.model(), name@) == lookup(self.model().subrange(0, i as int), name@),
            decreases i,
        {
            let ghost sub = self.model().subrange(0, i as int);
            assert(sub.last() == self.model()[i - 1]);
            if equals_ignore_case(&self.entries[i - 1].name, name) {
                return Some(&self.entries[i - 1].value);
            }
            assert(sub.drop_last() =~= self.model().subrange(0, i - 1));
            i = i - 1;
        }
        None
    }
}

} // verus!
