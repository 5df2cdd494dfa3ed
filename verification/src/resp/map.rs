//! Building and reading maps.

use vstd::prelude::*;
use crate::resp::frame::{Frame, IntoBytes, MapEntry, RespFrame, RespMap};
use crate::resp::order::{bytes_lt, lookup, put, slot, slot_from};
use crate::resp::text::bytes_eq;

verus! {

impl RespMap {
    /// The empty map.
    pub fn new() -> (m: Self)
        ensures
            m@ == Seq::<(Seq<u8>, Frame)>::empty(),
    {
        let m = RespMap(Vec::new());
        assert(m@ =~= Seq::<(Seq<u8>, Frame)>::empty());
        m
    }

    /// The number of entries.
    pub fn len(&self) -> (n: usize)
        ensures
            n == self@.len(),
    {
        self.0.len()
    }

    /// The index at which `key` stands or would stand.
    fn find(&self, key: &[u8]) -> (i: usize)
        ensures
            i == slot(self@, key@),
            i <= self.0.len(),
    {
        let mut i: usize = 0;
        while i < self.0.len() && bytes_lt(self.0[i].key.as_slice(), key)
            invariant
                i <= self.0.len(),
                slot_from(self@, key@, 0) == slot_from(self@, key@, i as int),
            decreases self.0.len() - i,
        {
            i += 1;
        }
        i
    }

    /// Stores `value` under `key` and hands back the frame that was stored
    /// there before, if there was one.
    pub fn insert<K: IntoBytes>(&mut self, key: K, value: RespFrame) -> (previous: Option<
        RespFrame,
    >)
        ensures
            final(self)@ == put(old(self)@, key.bytes(), value@),
            match previous {
                Some(f) => lookup(old(self)@, key.bytes()) == Some(f@),
                None => lookup(old(self)@, key.bytes()) is None,
            },
    {
        let key: Vec<u8> = key.into_byte_vec();
        let i: usize = self.find(key.as_slice());
        if i < self.0.len() && bytes_eq(self.0[i].key.as_slice(), key.as_slice()) {
            let stored = self.0.remove(i);
            self.0.insert(i, MapEntry { key, value });
            assert(self@ =~= put(old(self)@, key@, value@));
            Some(stored.value)
        } else {
            self.0.insert(i, MapEntry { key, value });
            assert(self@ =~= put(old(self)@, key@, value@));
            None
        }
    }

    /// The frame stored under `key`.
    pub fn get(&self, key: &[u8]) -> (found: Option<&RespFrame>)
        ensures
            match found {
                Some(f) => lookup(self@, key@) == Some(f@),
                None => lookup(self@, key@) is None,
            },
    {
        let i: usize = self.find(key);
        if i < self.0.len() && bytes_eq(self.0[i].key.as_slice(), key) {
            Some(&self.0[i].value)
        } else {
            None
        }
    }
}

} // verus!
