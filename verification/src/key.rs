//! Runtime type identity.
//!
//! A [`TypeKey`] is an identifier that stands for one concrete value type for
//! the lifetime of the process. Two values belong to the same type exactly
//! when they carry the same key. Keys are totally ordered and hashable, and
//! are meant to be treated as opaque tokens by callers: a [`TypeRegistry`]
//! issues them one by one, and every key it hands out is distinct from every
//! key it handed out before.

use vstd::prelude::*;

verus! {

/// An identifier for one concrete value type.
///
/// Callers obtain keys from a [`TypeRegistry`] (or maintain their own closed
/// set of tags) and must use one fixed key per concrete type.
#[derive(Clone, Copy, PartialEq, Eq, Structural, Hash, PartialOrd, Ord, Debug)]
pub struct TypeKey {
    /// The raw identity. Distinct types carry distinct values.
    pub id: u64,
}

/// Issues fresh, pairwise-distinct [`TypeKey`] values.
///
/// Every key returned by [`TypeRegistry::fresh`] has an `id` strictly below
/// `issued()`, and `issued()` only grows, so no key is ever handed out twice.
pub struct TypeRegistry {
    /// The id the next issued key will carry; treat as internal.
    pub next: u64,
}

impl TypeRegistry {
    /// The number of keys issued so far; every issued key has `id` below it.
    pub open spec fn issued(&self) -> u64 {
        self.next
    }

    /// Creates a registry that has issued no keys yet.
    pub fn new() -> (r: TypeRegistry)
        ensures
            r.issued() == 0,
    {
        TypeRegistry { next: 0 }
    }

    /// Issues a key distinct from every key issued before: its `id` equals
    /// the old `issued()`, which earlier keys are strictly below.
    pub fn fresh(&mut self) -> (r: TypeKey)
        requires
            old(self).issued() < u64::MAX,
        ensures
            r.id == old(self).issued(),
            final(self).issued() == old(self).issued() + 1,
    {
        let id = self.next;
        self.next = self.next + 1;
        TypeKey { id }
    }
}

} // verus!
