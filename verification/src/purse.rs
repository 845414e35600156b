//! The bag itself.
//!
//! A [`Purse`] maps each runtime type key to a bucket: an insertion-ordered
//! sequence of type-erased values of that type, paired with a running count
//! that is kept strictly in sync with the bucket's population. The whole
//! container is modelled by three spec functions:
//!
//! - [`Purse::keys`]: the type keys with a present bucket, in the order
//!   their first value arrived;
//! - [`Purse::bucket`]: the byte payloads stored under one key, in
//!   insertion order (empty for a key with no bucket);
//! - [`Purse::count_spec`]: the number of values stored under one key.
//!
//! Every public operation's contract is stated over these three functions.

use vstd::prelude::*;

use crate::erased::ErasedValue;
use crate::key::TypeKey;

verus! {

/// Compares two byte payloads for equality, element by element.
fn bytes_eq(a: &Vec<u8>, b: &Vec<u8>) -> (r: bool)
    ensures
        r <==> a@ == b@,
{
    if a.len() != b.len() {
        return false;
    }
    let n = a.len();
    let mut i: usize = 0;
    while i < n
        invariant
            n == a@.len(),
            n == b@.len(),
            i <= n,
            forall|j: int| 0 <= j < i ==> a@[j] == b@[j],
        decreases n - i,
    {
        if a[i] != b[i] {
            return false;
        }
        i = i + 1;
    }
    proof {
        assert(a@ =~= b@);
    }
    true
}

/// The slots of a sequence of buckets, flattened in bucket order.
pub open spec fn flat_slots(bs: Seq<TypeBucket>) -> Seq<ErasedValue>
    decreases bs.len(),
{
    if bs.len() == 0 {
        Seq::empty()
    } else {
        flat_slots(bs.drop_last()) + bs.last().elems@
    }
}

/// What one insert of payload `bytes` under `key` does to the purse's
/// model: `key` joins the key order at the end if it was absent, the
/// payload is appended to `key`'s bucket, and no other bucket changes.
pub open spec fn insert_step(pre: Purse, key: TypeKey, bytes: Seq<u8>, post: Purse) -> bool {
    &&& post.keys() == (if pre.has_type(key) {
        pre.keys()
    } else {
        pre.keys().push(key)
    })
    &&& post.bucket(key) == pre.bucket(key).push(bytes)
    &&& forall|k2: TypeKey| k2 != key ==> #[trigger] post.bucket(k2) == pre.bucket(k2)
}

/// What one removal of payload `bytes` under `key` does to the purse's
/// model: a removal occurs exactly when an equal payload is present; the
/// first equal payload leaves `key`'s bucket, the key order and every other
/// bucket stay as they were, and a miss leaves the purse unchanged.
pub open spec fn remove_step(
    pre: Purse,
    key: TypeKey,
    bytes: Seq<u8>,
    post: Purse,
    removed: bool,
) -> bool {
    &&& (removed <==> pre.bucket(key).contains(bytes))
    &&& post.keys() == pre.keys()
    &&& post.bucket(key) == pre.bucket(key).remove_value(bytes)
    &&& forall|k2: TypeKey| k2 != key ==> #[trigger] post.bucket(k2) == pre.bucket(k2)
    &&& !removed ==> post == pre
}

/// What [`Purse::most_common_type`] answers: nothing exactly when no type
/// was ever seen; otherwise a present key that every other present key
/// loses to, by count first and by key order among equal counts.
pub open spec fn most_common_post(p: Purse, r: Option<TypeKey>) -> bool {
    &&& (r is Some <==> p.keys().len() > 0)
    &&& match r {
        Some(k) => {
            &&& p.has_type(k)
            &&& forall|k2: TypeKey|
                #![trigger p.count_spec(k2)]
                p.has_type(k2) && k2 != k ==> (p.count_spec(k2) < p.count_spec(k) || (
                p.count_spec(k2) == p.count_spec(k) && k2.id < k.id))
        },
        None => true,
    }
}

/// One per-type bucket: the values stored under `key`, in insertion order,
/// and the running count the sequential design keeps beside them.
pub struct TypeBucket {
    /// The type key every slot in this bucket is stored under.
    pub key: TypeKey,
    /// The slots, in insertion order.
    pub elems: Vec<ErasedValue>,
    /// Running count of slots; always equal to `elems.len()`.
    pub count: u64,
}

impl TypeBucket {
    /// The bucket's discipline invariant: the count index is in sync with
    /// the bucket's population, and every slot is keyed by the bucket's key.
    pub open spec fn wf(&self) -> bool {
        &&& self.count == self.elems@.len()
        &&& forall|i: int|
            0 <= i < self.elems@.len() ==> (#[trigger] self.elems@[i]).key == self.key
    }

    /// The byte payloads stored in this bucket, in insertion order.
    pub open spec fn model(&self) -> Seq<Seq<u8>> {
        self.elems@.map_values(|e: ErasedValue| e.bytes@)
    }
}

/// A heterogeneous bag: values of arbitrarily many distinct types, with
/// duplicates, stored type-erased and grouped by their [`TypeKey`].
pub struct Purse {
    /// The per-type buckets; keys are pairwise distinct.
    pub buckets: Vec<TypeBucket>,
}

impl Purse {
    /// The type keys with a present bucket, in the order their first value
    /// arrived. A bucket persists (possibly empty) until [`Purse::clear`].
    pub open spec fn keys(&self) -> Seq<TypeKey> {
        self.buckets@.map_values(|b: TypeBucket| b.key)
    }

    /// Whether a bucket for `k` is present.
    pub open spec fn has_type(&self, k: TypeKey) -> bool {
        self.keys().contains(k)
    }

    /// The index of `k`'s bucket; meaningful only when `has_type(k)`.
    pub open spec fn bucket_index(&self, k: TypeKey) -> int {
        self.keys().index_of(k)
    }

    /// The byte payloads stored under `k`, in insertion order; empty when
    /// no bucket for `k` is present.
    pub open spec fn bucket(&self, k: TypeKey) -> Seq<Seq<u8>> {
        if self.has_type(k) {
            self.buckets@[self.bucket_index(k)].model()
        } else {
            Seq::empty()
        }
    }

    /// The number of values stored under `k`.
    pub open spec fn count_spec(&self, k: TypeKey) -> nat {
        self.bucket(k).len()
    }

    /// The container's invariant: every bucket is well formed and no two
    /// buckets share a key.
    pub open spec fn wf(&self) -> bool {
        &&& forall|i: int| 0 <= i < self.buckets@.len() ==> (#[trigger] self.buckets@[i]).wf()
        &&& forall|i: int, j: int|
            #![trigger self.buckets@[i].key, self.buckets@[j].key]
            0 <= i < j < self.buckets@.len() ==> self.buckets@[i].key != self.buckets@[j].key
    }

    /// In a well-formed purse the bucket at index `i` is the one and only
    /// bucket for its key, so `bucket_index` resolves to `i`.
    proof fn lemma_bucket_index_of(&self, i: int)
        requires
            self.wf(),
            0 <= i < self.buckets@.len(),
        ensures
            self.has_type(self.buckets@[i].key),
            self.bucket_index(self.buckets@[i].key) == i,
            self.bucket(self.buckets@[i].key) == self.buckets@[i].model(),
    {
        let k = self.buckets@[i].key;
        assert(self.keys()[i] == k);
        assert(self.has_type(k));
        let j = self.bucket_index(k);
        assert(0 <= j < self.keys().len() && self.keys()[j] == k);
        if i < j {
            assert(self.buckets@[i].key != self.buckets@[j].key);
        }
        if j < i {
            assert(self.buckets@[j].key != self.buckets@[i].key);
        }
    }

    /// Locates the bucket for `k`, if one is present.
    fn find_bucket(&self, k: TypeKey) -> (r: Option<usize>)
        requires
            self.wf(),
        ensures
            match r {
                Some(i) => {
                    &&& i < self.buckets@.len()
                    &&& self.buckets@[i as int].key == k
                    &&& self.has_type(k)
                    &&& self.bucket_index(k) == i
                },
                None => !self.has_type(k),
            },
    {
        let n = self.buckets.len();
        let mut i: usize = 0;
        while i < n
            invariant
                self.wf(),
                n == self.buckets@.len(),
                i <= n,
                forall|j: int| 0 <= j < i ==> self.buckets@[j].key != k,
            decreases n - i,
        {
            if self.buckets[i].key == k {
                proof {
                    self.lemma_bucket_index_of(i as int);
                }
                return Some(i);
            }
            i = i + 1;
        }
        proof {
            assert(forall|j: int| 0 <= j < self.keys().len() ==> self.keys()[j] != k);
        }
        None
    }

    /// Creates an empty purse: no buckets, no counts.
    pub fn new() -> (r: Purse)
        ensures
            r.wf(),
            r.keys() == Seq::<TypeKey>::empty(),
    {
        Purse { buckets: Vec::new() }
    }

    /// Whether the purse holds no bucket at all.
    ///
    /// A bucket emptied by removals still counts as present, so this asks
    /// only the container-wide question: has any type been seen since the
    /// purse was created or last cleared?
    pub fn is_empty(&self) -> (r: bool)
        requires
            self.wf(),
        ensures
            r <==> self.keys().len() == 0,
    {
        self.buckets.is_empty()
    }

    /// The number of values stored under `key`: answered in one index
    /// lookup from the bucket's running count, zero for a type never seen.
    pub fn count(&self, key: TypeKey) -> (r: u64)
        requires
            self.wf(),
        ensures
            r == self.count_spec(key),
    {
        match self.find_bucket(key) {
            Some(i) => self.buckets[i].count,
            None => 0,
        }
    }

    /// Appends a value to the bucket of its type key, creating the bucket
    /// if absent, and keeps the count index in sync. Always succeeds; no
    /// other bucket is touched.
    pub fn insert(&mut self, v: ErasedValue)
        requires
            old(self).wf(),
        ensures
            final(self).wf(),
            insert_step(*old(self), v.key, v.bytes@, *final(self)),
    {
        let ghost pre = *self;
        let key = v.type_key();
        let ghost bytes = v.bytes@;
        match self.find_bucket(key) {
            Some(i) => {
                let b = &mut self.buckets[i];
                b.elems.push(v);
                let n = b.elems.len();
                b.count = n as u64;
                proof {
                    self.lemma_insert_existing(pre, i as int, key, bytes);
                }
            },
            None => {
                let mut elems: Vec<ErasedValue> = Vec::new();
                elems.push(v);
                self.buckets.push(TypeBucket { key, elems, count: 1 });
                proof {
                    self.lemma_insert_new(pre, key, bytes);
                }
            },
        }
    }

    /// Whether the purse holds a value equal to `v`: one of `v`'s type
    /// whose payload equals `v`'s payload. The scan is linear in the
    /// bucket's length; a type never seen answers `false` at once.
    pub fn contains(&self, v: &ErasedValue) -> (r: bool)
        requires
            self.wf(),
        ensures
            r <==> self.bucket(v.key).contains(v.bytes@),
    {
        let key = v.type_key();
        let bi = match self.find_bucket(key) {
            Some(bi) => bi,
            None => {
                return false;
            },
        };
        let n = self.buckets[bi].elems.len();
        let mut i: usize = 0;
        while i < n
            invariant
                self.wf(),
                key == v.key,
                bi < self.buckets@.len(),
                self.buckets@[bi as int].key == key,
                self.bucket_index(key) == bi,
                self.has_type(key),
                n == self.buckets@[bi as int].elems@.len(),
                i <= n,
                forall|j: int|
                    0 <= j < i ==> self.buckets@[bi as int].model()[j] != v.bytes@,
            decreases n - i,
        {
            if bytes_eq(&self.buckets[bi].elems[i].bytes, &v.bytes) {
                proof {
                    assert(self.bucket(v.key)[i as int] == v.bytes@);
                }
                return true;
            }
            i = i + 1;
        }
        false
    }

    /// The keys of all present buckets, in the order their first value
    /// arrived; a bucket emptied by removals is still listed.
    pub fn types(&self) -> (r: Vec<TypeKey>)
        requires
            self.wf(),
        ensures
            r@ == self.keys(),
    {
        let mut r: Vec<TypeKey> = Vec::new();
        let n = self.buckets.len();
        let mut i: usize = 0;
        while i < n
            invariant
                n == self.buckets@.len(),
                i <= n,
                r@.len() == i,
                forall|j: int| 0 <= j < i ==> r@[j] == self.buckets@[j].key,
            decreases n - i,
        {
            r.push(self.buckets[i].key);
            i = i + 1;
        }
        proof {
            assert(r@ =~= self.keys());
        }
        r
    }

    /// Every payload stored under `key`, recovered through
    /// [`ErasedValue::downcast`], in insertion order; empty (not an error)
    /// for a type never seen.
    pub fn get_all_of_type(&self, key: TypeKey) -> (r: Vec<&Vec<u8>>)
        requires
            self.wf(),
        ensures
            r@.len() == self.bucket(key).len(),
            forall|i: int| 0 <= i < r@.len() ==> r@[i]@ == self.bucket(key)[i],
    {
        let mut r: Vec<&Vec<u8>> = Vec::new();
        let bi = match self.find_bucket(key) {
            Some(bi) => bi,
            None => {
                return r;
            },
        };
        let n = self.buckets[bi].elems.len();
        let mut i: usize = 0;
        while i < n
            invariant
                self.wf(),
                bi < self.buckets@.len(),
                self.buckets@[bi as int].key == key,
                self.bucket_index(key) == bi,
                self.has_type(key),
                n == self.buckets@[bi as int].elems@.len(),
                i <= n,
                r@.len() == i,
                forall|j: int|
                    0 <= j < i ==> r@[j]@ == self.buckets@[bi as int].model()[j],
            decreases n - i,
        {
            match self.buckets[bi].elems[i].downcast(key) {
                Some(b) => {
                    r.push(b);
                },
                None => {
                    proof {
                        assert(self.buckets@[bi as int].elems@[i as int].key == key);
                    }
                },
            }
            i = i + 1;
        }
        r
    }

    /// Every stored slot, flattened in bucket order; within one bucket, in
    /// insertion order.
    pub open spec fn all_slots(&self) -> Seq<ErasedValue> {
        flat_slots(self.buckets@)
    }

    /// The type key with the greatest recorded count, read off the count
    /// index; a tie goes to the greater key, and an empty purse (no bucket
    /// at all) answers nothing. A type with the strictly greatest count is
    /// therefore always the winner.
    pub fn most_common_type(&self) -> (r: Option<TypeKey>)
        requires
            self.wf(),
        ensures
            most_common_post(*self, r),
    {
        let n = self.buckets.len();
        if n == 0 {
            return None;
        }
        let mut best: usize = 0;
        let mut i: usize = 1;
        while i < n
            invariant
                self.wf(),
                n == self.buckets@.len(),
                1 <= i <= n,
                best < i,
                forall|j: int|
                    #![trigger self.buckets@[j]]
                    0 <= j < i && j != best ==> (self.buckets@[j].count
                        < self.buckets@[best as int].count || (self.buckets@[j].count
                        == self.buckets@[best as int].count && self.buckets@[j].key.id
                        < self.buckets@[best as int].key.id)),
            decreases n - i,
        {
            let ci = self.buckets[i].count;
            let cb = self.buckets[best].count;
            if ci > cb || (ci == cb && self.buckets[i].key.id > self.buckets[best].key.id) {
                best = i;
            }
            i = i + 1;
        }
        let k = self.buckets[best].key;
        proof {
            self.lemma_bucket_index_of(best as int);
            assert forall|k2: TypeKey|
                self.has_type(k2) && k2 != k implies #[trigger] self.count_spec(k2)
                < self.count_spec(k) || (self.count_spec(k2) == self.count_spec(k) && k2.id
                < k.id) by {
                let j = self.bucket_index(k2);
                self.lemma_bucket_index_of(j);
                assert(self.buckets@[j].key == k2);
                assert(j != best);
                assert(self.count_spec(k2) == self.buckets@[j].count);
                assert(self.count_spec(k) == self.buckets@[best as int].count);
            }
        }
        Some(k)
    }

    /// Borrows every stored slot, flattened in bucket order; within one
    /// bucket, in insertion order. The borrows are valid only while the
    /// purse is not mutated.
    pub fn iter(&self) -> (r: Vec<&ErasedValue>)
        requires
            self.wf(),
        ensures
            r@.len() == self.all_slots().len(),
            forall|t: int| 0 <= t < r@.len() ==> *r@[t] == self.all_slots()[t],
    {
        let mut r: Vec<&ErasedValue> = Vec::new();
        let n = self.buckets.len();
        let mut bi: usize = 0;
        while bi < n
            invariant
                n == self.buckets@.len(),
                bi <= n,
                r@.len() == flat_slots(self.buckets@.subrange(0, bi as int)).len(),
                forall|t: int|
                    0 <= t < r@.len() ==> *r@[t] == flat_slots(
                        self.buckets@.subrange(0, bi as int),
                    )[t],
            decreases n - bi,
        {
            let ghost done = flat_slots(self.buckets@.subrange(0, bi as int));
            let m = self.buckets[bi].elems.len();
            let mut j: usize = 0;
            while j < m
                invariant
                    n == self.buckets@.len(),
                    bi < n,
                    done == flat_slots(self.buckets@.subrange(0, bi as int)),
                    m == self.buckets@[bi as int].elems@.len(),
                    j <= m,
                    r@.len() == done.len() + j,
                    forall|t: int| 0 <= t < done.len() ==> *r@[t] == done[t],
                    forall|t: int|
                        0 <= t < j ==> *r@[done.len() + t] == self.buckets@[bi as int].elems@[t],
                decreases m - j,
            {
                r.push(&self.buckets[bi].elems[j]);
                j = j + 1;
            }
            proof {
                let s1 = self.buckets@.subrange(0, bi as int + 1);
                assert(s1.drop_last() =~= self.buckets@.subrange(0, bi as int));
                assert(s1.last() == self.buckets@[bi as int]);
                assert(flat_slots(s1) == done + self.buckets@[bi as int].elems@);
            }
            bi = bi + 1;
        }
        proof {
            assert(self.buckets@.subrange(0, n as int) =~= self.buckets@);
        }
        r
    }

    /// Removes the first stored value equal to `v` — one of `v`'s type
    /// whose payload equals `v`'s payload — and returns whether a removal
    /// occurred. The count index is decremented in the same step. Removing
    /// an absent value returns `false` and leaves the purse unchanged; the
    /// emptied bucket, if any, stays present.
    pub fn remove(&mut self, v: &ErasedValue) -> (r: bool)
        requires
            old(self).wf(),
        ensures
            final(self).wf(),
            remove_step(*old(self), v.key, v.bytes@, *final(self), r),
            final(self).count_spec(v.key) + (if r {
                1nat
            } else {
                0nat
            }) == old(self).count_spec(v.key),
    {
        let ghost pre = *self;
        let key = v.type_key();
        let bi = match self.find_bucket(key) {
            Some(bi) => bi,
            None => {
                proof {
                    pre.bucket(v.key).index_of_first_ensures(v.bytes@);
                }
                return false;
            },
        };
        let n = self.buckets[bi].elems.len();
        let mut i: usize = 0;
        while i < n
            invariant
                pre == *old(self),
                *self == pre,
                self.wf(),
                key == v.key,
                bi < self.buckets@.len(),
                self.buckets@[bi as int].key == key,
                self.bucket_index(key) == bi,
                self.has_type(key),
                n == self.buckets@[bi as int].elems@.len(),
                i <= n,
                forall|j: int|
                    0 <= j < i ==> self.buckets@[bi as int].model()[j] != v.bytes@,
            decreases n - i,
        {
            if bytes_eq(&self.buckets[bi].elems[i].bytes, &v.bytes) {
                let b = &mut self.buckets[bi];
                b.elems.remove(i);
                let m = b.elems.len();
                b.count = m as u64;
                proof {
                    self.lemma_remove_at(pre, bi as int, i as int, key, v.bytes@);
                }
                return true;
            }
            i = i + 1;
        }
        proof {
            assert(!pre.bucket(v.key).contains(v.bytes@));
            pre.bucket(v.key).index_of_first_ensures(v.bytes@);
        }
        false
    }

    /// Proof for the removing branch of [`Purse::remove`]: dropping the
    /// slot at index `i` — the first whose payload matches — turns bucket
    /// `bi`'s model into `remove_value` of the old model and leaves every
    /// other bucket, and the key order, alone.
    proof fn lemma_remove_at(&self, pre: Purse, bi: int, i: int, key: TypeKey, bytes: Seq<u8>)
        requires
            pre.wf(),
            0 <= bi < pre.buckets@.len(),
            pre.buckets@[bi].key == key,
            pre.bucket_index(key) == bi,
            0 <= i < pre.buckets@[bi].elems@.len(),
            pre.buckets@[bi].model()[i] == bytes,
            forall|j: int| 0 <= j < i ==> pre.buckets@[bi].model()[j] != bytes,
            self.buckets@.len() == pre.buckets@.len(),
            forall|j: int|
                0 <= j < pre.buckets@.len() && j != bi ==> self.buckets@[j] == pre.buckets@[j],
            self.buckets@[bi].key == key,
            self.buckets@[bi].elems@ == pre.buckets@[bi].elems@.remove(i),
            self.buckets@[bi].count == self.buckets@[bi].elems@.len(),
        ensures
            self.wf(),
            self.keys() == pre.keys(),
            pre.bucket(key).contains(bytes),
            self.bucket(key) == pre.bucket(key).remove_value(bytes),
            self.count_spec(key) + 1 == pre.count_spec(key),
            forall|k2: TypeKey| k2 != key ==> #[trigger] self.bucket(k2) == pre.bucket(k2),
    {
        let old_elems = pre.buckets@[bi].elems@;
        let old_model = pre.buckets@[bi].model();
        pre.lemma_bucket_index_of(bi);
        assert(pre.bucket(key) == old_model);
        assert(old_model.contains(bytes)) by {
            assert(old_model[i] == bytes);
        }
        // The match at `i` is the first: `index_of_first` resolves to it.
        old_model.index_of_first_ensures(bytes);
        let idx = old_model.index_of_first(bytes)->Some_0;
        assert(idx == i) by {
            if idx < i {
                assert(old_model[idx] != bytes);
            }
            if i < idx {
                assert(old_model[i] != bytes);
            }
        }
        assert(pre.bucket(key).remove_value(bytes) == old_model.remove(i));
        // The slot drop is pointwise a drop of the model's entry at `i`.
        old_elems.remove_ensures(i);
        old_model.remove_ensures(i);
        assert(self.keys() =~= pre.keys());
        assert(self.buckets@[bi].wf());
        assert(self.wf());
        self.lemma_bucket_index_of(bi);
        assert(self.buckets@[bi].model() =~= old_model.remove(i));
        assert forall|k2: TypeKey| k2 != key implies #[trigger] self.bucket(k2) == pre.bucket(
            k2,
        ) by {
            if self.has_type(k2) {
                let j = self.bucket_index(k2);
                self.lemma_bucket_index_of(j);
                pre.lemma_bucket_index_of(j);
                assert(j != bi);
                assert(self.bucket(k2) == pre.bucket(k2));
            }
        }
    }

    /// Empties the purse in one step: every bucket and every count is gone,
    /// as on a freshly constructed container.
    pub fn clear(&mut self)
        ensures
            final(self).wf(),
            final(self).keys() == Seq::<TypeKey>::empty(),
    {
        self.buckets.clear();
        proof {
            assert(self.keys() =~= Seq::<TypeKey>::empty());
        }
    }

    /// Proof for the in-place branch of [`Purse::insert`]: updating bucket
    /// `i` by one appended slot changes that bucket's model by one pushed
    /// payload and nothing else.
    proof fn lemma_insert_existing(&self, pre: Purse, i: int, key: TypeKey, bytes: Seq<u8>)
        requires
            pre.wf(),
            0 <= i < pre.buckets@.len(),
            pre.buckets@[i].key == key,
            self.buckets@.len() == pre.buckets@.len(),
            self.buckets@[i].key == key,
            self.buckets@[i].wf(),
            self.buckets@[i].elems@.len() == pre.buckets@[i].elems@.len() + 1,
            self.buckets@[i].elems@ == pre.buckets@[i].elems@.push(
                self.buckets@[i].elems@.last(),
            ),
            self.buckets@[i].elems@.last().bytes@ == bytes,
            forall|j: int|
                0 <= j < pre.buckets@.len() && j != i ==> self.buckets@[j] == pre.buckets@[j],
        ensures
            self.wf(),
            self.keys() == pre.keys(),
            self.bucket(key) == pre.bucket(key).push(bytes),
            forall|k2: TypeKey| k2 != key ==> #[trigger] self.bucket(k2) == pre.bucket(k2),
    {
        assert(self.keys() =~= pre.keys());
        assert(self.wf());
        pre.lemma_bucket_index_of(i);
        self.lemma_bucket_index_of(i);
        assert(self.buckets@[i].model() =~= pre.buckets@[i].model().push(bytes));
        assert forall|k2: TypeKey| k2 != key implies #[trigger] self.bucket(k2) == pre.bucket(
            k2,
        ) by {
            if self.has_type(k2) {
                let j = self.bucket_index(k2);
                self.lemma_bucket_index_of(j);
                pre.lemma_bucket_index_of(j);
                assert(j != i);
                assert(self.bucket(k2) == pre.bucket(k2));
            }
        }
    }

    /// Proof for the new-bucket branch of [`Purse::insert`]: appending a
    /// fresh one-slot bucket adds `key` at the end of the key order, gives
    /// it a one-payload bucket, and leaves every other bucket alone.
    proof fn lemma_insert_new(&self, pre: Purse, key: TypeKey, bytes: Seq<u8>)
        requires
            pre.wf(),
            !pre.has_type(key),
            self.buckets@.len() == pre.buckets@.len() + 1,
            forall|j: int|
                0 <= j < pre.buckets@.len() ==> self.buckets@[j] == pre.buckets@[j],
            self.buckets@.last().key == key,
            self.buckets@.last().wf(),
            self.buckets@.last().elems@.len() == 1,
            self.buckets@.last().elems@[0].bytes@ == bytes,
        ensures
            self.wf(),
            self.keys() == pre.keys().push(key),
            self.bucket(key) == pre.bucket(key).push(bytes),
            forall|k2: TypeKey| k2 != key ==> #[trigger] self.bucket(k2) == pre.bucket(k2),
    {
        let n = pre.buckets@.len() as int;
        assert(self.keys() =~= pre.keys().push(key));
        assert forall|i: int, j: int|
            #![trigger self.buckets@[i].key, self.buckets@[j].key]
            0 <= i < j < self.buckets@.len() implies self.buckets@[i].key
            != self.buckets@[j].key by {
            if j == n {
                assert(pre.keys()[i] == pre.buckets@[i].key);
                assert(!pre.keys().contains(key));
            }
        }
        assert(self.wf());
        self.lemma_bucket_index_of(n);
        assert(self.buckets@[n].model() =~= Seq::<Seq<u8>>::empty().push(bytes));
        assert(pre.bucket(key) == Seq::<Seq<u8>>::empty());
        assert(self.bucket(key) =~= pre.bucket(key).push(bytes));
        assert forall|k2: TypeKey| k2 != key implies #[trigger] self.bucket(k2) == pre.bucket(
            k2,
        ) by {
            if self.has_type(k2) {
                let j = self.bucket_index(k2);
                self.lemma_bucket_index_of(j);
                assert(self.keys()[j] == k2);
                assert(j != n);
                assert(pre.keys()[j] == k2);
                pre.lemma_bucket_index_of(j);
                assert(self.bucket(k2) == pre.bucket(k2));
            } else {
                assert(forall|j: int|
                    0 <= j < pre.keys().len() ==> pre.keys()[j] == self.keys()[j]);
                assert(!pre.has_type(k2));
            }
        }
    }
}

} // verus!
