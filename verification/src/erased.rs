//! Type-erased value slots.
//!
//! An [`ErasedValue`] is an owning cell holding one value of some concrete
//! type behind a uniform representation: the value's byte payload together
//! with the [`TypeKey`] of the type it was stored as. The payload can be
//! recovered only by asking for the originally-stored type's key
//! ([`ErasedValue::downcast`]); asking with any other key fails safely.
//!
//! Callers pick one injective byte encoding per concrete type, so that two
//! values of that type are equal exactly when their payloads are equal.

use vstd::prelude::*;

use crate::key::TypeKey;

verus! {

/// One owned, type-erased value slot: a byte payload tagged with the key of
/// the concrete type it was stored as.
#[derive(Debug)]
pub struct ErasedValue {
    /// The key of the concrete type this value was stored as.
    pub key: TypeKey,
    /// The value's byte payload, under the caller's per-type encoding.
    pub bytes: Vec<u8>,
}

impl ErasedValue {
    /// Erases a value: wraps its byte payload under the given type key.
    pub fn new(key: TypeKey, bytes: Vec<u8>) -> (r: ErasedValue)
        ensures
            r.key == key,
            r.bytes@ == bytes@,
    {
        ErasedValue { key, bytes }
    }

    /// The key of the concrete type this value was stored as.
    pub fn type_key(&self) -> (r: TypeKey)
        ensures
            r == self.key,
    {
        self.key
    }

    /// Recovers the payload, but only under the originally-stored type's
    /// key: returns the bytes when `key` matches, and nothing otherwise.
    pub fn downcast(&self, key: TypeKey) -> (r: Option<&Vec<u8>>)
        ensures
            self.key == key ==> (match r {
                Some(b) => b@ == self.bytes@,
                None => false,
            }),
            self.key != key ==> r is None,
    {
        if self.key == key {
            Some(&self.bytes)
        } else {
            None
        }
    }
}

} // verus!
