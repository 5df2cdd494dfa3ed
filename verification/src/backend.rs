//! The key-value store that commands read and change.
//!
//! A key holds either one frame or a hash of fields. The store is a plain
//! value: whoever shares it between connections guards it with a lock and
//! hands each command exclusive access for the length of one call.

use vstd::prelude::*;
use crate::resp::frame::{Frame, RespFrame, RespMap};
use crate::resp::order::{
    bytes_lt, has_key, keys_ascending, lemma_ascending_unique, lemma_lookup_put,
    lemma_put_ascending, lemma_put_commutes, lookup, put, slot, slot_from,
};
use crate::resp::text::bytes_eq;

verus! {

/// What a key holds.
#[derive(Debug, Clone, PartialEq, Eq)]
pub enum Value {
    /// One frame, as `SET` stores it.
    Scalar(RespFrame),
    /// Frames under field names, as `HSET` stores them.
    Hash(RespMap),
}

/// The model of a stored value.
pub enum ValueModel {
    Scalar(Frame),
    Hash(Seq<(Seq<u8>, Frame)>),
}

impl View for Value {
    type V = ValueModel;

    open spec fn view(&self) -> ValueModel {
        match self {
            Value::Scalar(f) => ValueModel::Scalar(f@),
            Value::Hash(h) => ValueModel::Hash(h@),
        }
    }
}

/// A command was given a key that holds the other kind of value.
#[derive(Debug, Clone, Copy, PartialEq, Eq, Structural)]
pub struct WrongType;

#[derive(Debug)]
struct Slot {
    key: Vec<u8>,
    value: Value,
}

/// The store: values under keys, kept in ascending key order.
#[derive(Debug)]
pub struct Backend {
    slots: Vec<Slot>,
}

impl View for Backend {
    type V = Seq<(Seq<u8>, ValueModel)>;

    closed spec fn view(&self) -> Seq<(Seq<u8>, ValueModel)> {
        Seq::new(self.slots.len() as nat, |i: int| (self.slots[i].key@, self.slots[i].value@))
    }
}

/// The frame under `key`, where the key holds one.
pub open spec fn scalar_at(es: Seq<(Seq<u8>, ValueModel)>, key: Seq<u8>) -> Result<
    Option<Frame>,
    WrongType,
> {
    match lookup(es, key) {
        Some(ValueModel::Scalar(f)) => Ok(Some(f)),
        Some(ValueModel::Hash(_)) => Err(WrongType),
        None => Ok(None),
    }
}

/// The hash under `key`, where the key holds one.
pub open spec fn hash_at(es: Seq<(Seq<u8>, ValueModel)>, key: Seq<u8>) -> Result<
    Option<Seq<(Seq<u8>, Frame)>>,
    WrongType,
> {
    match lookup(es, key) {
        Some(ValueModel::Hash(h)) => Ok(Some(h)),
        Some(ValueModel::Scalar(_)) => Err(WrongType),
        None => Ok(None),
    }
}

/// The frame under `field` of the hash under `key`.
pub open spec fn field_at(es: Seq<(Seq<u8>, ValueModel)>, key: Seq<u8>, field: Seq<u8>) -> Result<
    Option<Frame>,
    WrongType,
> {
    match hash_at(es, key) {
        Ok(Some(h)) => Ok(lookup(h, field)),
        Ok(None) => Ok(None),
        Err(e) => Err(e),
    }
}

/// The store after `value` was put under `field` of the hash under `key`:
/// a key that holds nothing gets a new hash, a key that holds one frame
/// is left as it is.
pub open spec fn with_field(
    es: Seq<(Seq<u8>, ValueModel)>,
    key: Seq<u8>,
    field: Seq<u8>,
    value: Frame,
) -> Seq<(Seq<u8>, ValueModel)> {
    match hash_at(es, key) {
        Ok(Some(h)) => put(es, key, ValueModel::Hash(put(h, field, value))),
        Ok(None) => put(es, key, ValueModel::Hash(put(Seq::empty(), field, value))),
        Err(_) => es,
    }
}

impl Backend {
    /// The empty store.
    pub fn new() -> (store: Self)
        ensures
            store@ == Seq::<(Seq<u8>, ValueModel)>::empty(),
            keys_ascending(store@),
    {
        let store = Backend { slots: Vec::new() };
        assert(store@ =~= Seq::<(Seq<u8>, ValueModel)>::empty());
        store
    }

    /// The index at which `key` stands or would stand.
    fn find(&self, key: &[u8]) -> (i: usize)
        ensures
            i == slot(self@, key@),
            i <= self.slots.len(),
            has_key(self@, key@) ==> i < self.slots.len(),
    {
        let mut i: usize = 0;
        while i < self.slots.len() && bytes_lt(self.slots[i].key.as_slice(), key)
            invariant
                i <= self.slots.len(),
                slot_from(self@, key@, 0) == slot_from(self@, key@, i as int),
            decreases self.slots.len() - i,
        {
            i += 1;
        }
        i
    }

    /// Whether `key` stands at index `i`.
    fn holds(&self, i: usize, key: &[u8]) -> (r: bool)
        requires
            i == slot(self@, key@),
            i <= self.slots.len(),
        ensures
            r == has_key(self@, key@),
    {
        i < self.slots.len() && bytes_eq(self.slots[i].key.as_slice(), key)
    }

    /// Puts `value` under `key`, in place of what the key held.
    fn store(&mut self, key: Vec<u8>, value: Value)
        ensures
            final(self)@ == put(old(self)@, key@, value@),
            keys_ascending(old(self)@) ==> keys_ascending(final(self)@),
    {
        let i: usize = self.find(key.as_slice());
        proof {
            if keys_ascending(self@) {
                lemma_put_ascending(self@, key@, value@);
            }
        }
        if self.holds(i, key.as_slice()) {
            self.slots.remove(i);
        }
        self.slots.insert(i, Slot { key, value });
        assert(self@ =~= put(old(self)@, key@, value@));
    }

    /// The frame that `key` holds.
    pub fn get(&self, key: &[u8]) -> (r: Result<Option<RespFrame>, WrongType>)
        ensures
            match scalar_at(self@, key@) {
                Ok(Some(f)) => r matches Ok(Some(g)) && g@ == f,
                Ok(None) => r matches Ok(None),
                Err(_) => r is Err,
            },
    {
        let i: usize = self.find(key);
        if !self.holds(i, key) {
            return Ok(None);
        }
        match &self.slots[i].value {
            Value::Scalar(f) => Ok(Some(f.clone())),
            Value::Hash(_) => Err(WrongType),
        }
    }

    /// Puts the frame `value` under `key`, whatever the key held.
    pub fn set(&mut self, key: Vec<u8>, value: RespFrame)
        ensures
            final(self)@ == put(old(self)@, key@, ValueModel::Scalar(value@)),
            keys_ascending(old(self)@) ==> keys_ascending(final(self)@),
    {
        self.store(key, Value::Scalar(value));
    }

    /// The frame under `field` of the hash that `key` holds.
    pub fn hget(&self, key: &[u8], field: &[u8]) -> (r: Result<Option<RespFrame>, WrongType>)
        ensures
            match field_at(self@, key@, field@) {
                Ok(Some(f)) => r matches Ok(Some(g)) && g@ == f,
                Ok(None) => r matches Ok(None),
                Err(_) => r is Err,
            },
    {
        let i: usize = self.find(key);
        if !self.holds(i, key) {
            return Ok(None);
        }
        match &self.slots[i].value {
            Value::Hash(h) => match h.get(field) {
                Some(f) => Ok(Some(f.clone())),
                None => Ok(None),
            },
            Value::Scalar(_) => Err(WrongType),
        }
    }

    /// Puts `value` under `field` of the hash that `key` holds, and makes
    /// that hash where the key holds nothing. A key that holds one frame
    /// is left as it is.
    pub fn hset(&mut self, key: Vec<u8>, field: Vec<u8>, value: RespFrame) -> (r: Result<
        (),
        WrongType,
    >)
        ensures
            final(self)@ == with_field(old(self)@, key@, field@, value@),
            r is Err <==> hash_at(old(self)@, key@) is Err,
            keys_ascending(old(self)@) ==> keys_ascending(final(self)@),
    {
        let i: usize = self.find(key.as_slice());
        let mut hash: RespMap = if self.holds(i, key.as_slice()) {
            match &self.slots[i].value {
                Value::Hash(h) => h.clone(),
                Value::Scalar(_) => {
                    return Err(WrongType);
                },
            }
        } else {
            RespMap::new()
        };
        hash.insert(field, value);
        self.store(key, Value::Hash(hash));
        Ok(())
    }

    /// The hash that `key` holds.
    pub fn hgetall(&self, key: &[u8]) -> (r: Result<Option<RespMap>, WrongType>)
        ensures
            match hash_at(self@, key@) {
                Ok(Some(h)) => r matches Ok(Some(g)) && g@ == h,
                Ok(None) => r matches Ok(None),
                Err(_) => r is Err,
            },
    {
        let i: usize = self.find(key);
        if !self.holds(i, key) {
            return Ok(None);
        }
        match &self.slots[i].value {
            Value::Hash(h) => Ok(Some(h.clone())),
            Value::Scalar(_) => Err(WrongType),
        }
    }

    /// The number of keys.
    pub fn len(&self) -> (n: usize)
        ensures
            n == self@.len(),
    {
        self.slots.len()
    }
}

/// A frame that was set is the frame that `get` finds, and what the other
/// keys hold stays as it was.
pub proof fn lemma_set_then_get(
    es: Seq<(Seq<u8>, ValueModel)>,
    key: Seq<u8>,
    value: Frame,
    other: Seq<u8>,
)
    requires
        keys_ascending(es),
    ensures
        scalar_at(put(es, key, ValueModel::Scalar(value)), key) == Ok::<Option<Frame>, WrongType>(
            Some(value),
        ),
        other != key ==> lookup(put(es, key, ValueModel::Scalar(value)), other) == lookup(
            es,
            other,
        ),
{
    lemma_lookup_put(es, key, ValueModel::Scalar(value), other);
}

/// Of two writes to one key the later one stays.
pub proof fn lemma_last_write_stays(
    es: Seq<(Seq<u8>, ValueModel)>,
    key: Seq<u8>,
    first: ValueModel,
    second: ValueModel,
)
    requires
        keys_ascending(es),
    ensures
        put(put(es, key, first), key, second) == put(es, key, second),
{
    let once = put(es, key, first);
    lemma_put_ascending(es, key, first);
    lemma_put_ascending(es, key, second);
    lemma_put_ascending(once, key, second);
    assert forall|k: Seq<u8>| lookup(put(once, key, second), k) == lookup(
        put(es, key, second),
        k,
    ) by {
        lemma_lookup_put(es, key, first, k);
        lemma_lookup_put(es, key, second, k);
        lemma_lookup_put(once, key, second, k);
    }
    lemma_ascending_unique(put(once, key, second), put(es, key, second));
}

/// Writes to different keys can run in either order: the store ends up
/// the same, with both values in it.
pub proof fn lemma_writes_to_distinct_keys(
    es: Seq<(Seq<u8>, ValueModel)>,
    key1: Seq<u8>,
    value1: ValueModel,
    key2: Seq<u8>,
    value2: ValueModel,
)
    requires
        keys_ascending(es),
        key1 != key2,
    ensures
        put(put(es, key1, value1), key2, value2) == put(put(es, key2, value2), key1, value1),
        lookup(put(put(es, key1, value1), key2, value2), key1) == Some(value1),
        lookup(put(put(es, key1, value1), key2, value2), key2) == Some(value2),
{
    lemma_put_commutes(es, key1, value1, key2, value2);
    lemma_put_ascending(es, key1, value1);
    lemma_lookup_put(es, key1, value1, key1);
    lemma_lookup_put(put(es, key1, value1), key2, value2, key1);
}

} // verus!
