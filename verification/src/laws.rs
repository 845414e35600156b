//! Laws relating the bag's operations across whole runs.
//!
//! The contracts in [`crate::purse`] pin down each operation in isolation;
//! the proof functions here state what follows for runs of operations: what
//! a sequence of inserts leaves in a bucket, how membership outlives
//! unrelated inserts and removals, that a removal takes exactly one
//! occurrence, that emptiness and the listed types agree, that a cleared
//! purse is indistinguishable from a fresh one, and that a strict count
//! maximum always wins `most_common_type`.

use vstd::prelude::*;

use crate::key::TypeKey;
use crate::purse::insert_step;
use crate::purse::most_common_post;
use crate::purse::remove_step;
use crate::purse::Purse;

verus! {

/// A run of inserts: `states` records the purse before and after each
/// operation, and each next state is reached from the one before it by
/// inserting the corresponding `(key, payload)` pair of `s`.
pub open spec fn insert_run(states: Seq<Purse>, s: Seq<(TypeKey, Seq<u8>)>) -> bool {
    &&& states.len() == s.len() + 1
    &&& forall|i: int|
        0 <= i < s.len() ==> insert_step(states[i], (#[trigger] s[i]).0, s[i].1, states[i + 1])
}

/// The payloads a run of inserts stores under `k`: those of the pairs of
/// `s` keyed by `k`, in order.
pub open spec fn inserts_for(s: Seq<(TypeKey, Seq<u8>)>, k: TypeKey) -> Seq<Seq<u8>>
    decreases s.len(),
{
    if s.len() == 0 {
        Seq::empty()
    } else if s.last().0 == k {
        inserts_for(s.drop_last(), k).push(s.last().1)
    } else {
        inserts_for(s.drop_last(), k)
    }
}

/// After any run of inserts, the bucket of each type `k` holds what it held
/// before followed by exactly the payloads inserted under `k`, in insertion
/// order — so `k`'s count has grown by exactly the number of inserts of
/// type `k`.
pub proof fn lemma_count_after_inserts(states: Seq<Purse>, s: Seq<(TypeKey, Seq<u8>)>, k: TypeKey)
    requires
        insert_run(states, s),
    ensures
        states.last().bucket(k) == states[0].bucket(k) + inserts_for(s, k),
        states.last().count_spec(k) == states[0].count_spec(k) + inserts_for(s, k).len(),
    decreases s.len(),
{
    if s.len() == 0 {
        assert(states.last() == states[0]);
        assert(states.last().bucket(k) =~= states[0].bucket(k) + inserts_for(s, k));
    } else {
        let states2 = states.drop_last();
        let s2 = s.drop_last();
        assert(insert_run(states2, s2)) by {
            assert forall|i: int| 0 <= i < s2.len() implies insert_step(
                states2[i],
                (#[trigger] s2[i]).0,
                s2[i].1,
                states2[i + 1],
            ) by {
                assert(s2[i] == s[i]);
                assert(states2[i] == states[i]);
                assert(states2[i + 1] == states[i + 1]);
            }
        }
        lemma_count_after_inserts(states2, s2, k);
        let n = s.len() - 1;
        assert(insert_step(states[n], s[n].0, s[n].1, states[n + 1]));
        assert(states2.last() == states[n]);
        assert(states.last() == states[n + 1]);
        if s[n].0 == k {
            assert(states.last().bucket(k) == states[n].bucket(k).push(s[n].1));
        } else {
            assert(states.last().bucket(k) == states[n].bucket(k));
        }
        assert(states.last().bucket(k) =~= states[0].bucket(k) + inserts_for(s, k));
    }
}

/// A run of inserts all of one type `k` — in whatever order its values were
/// interleaved — grows `k`'s count by exactly the number of inserts: none
/// is lost and none is duplicated.
pub proof fn lemma_inserts_one_type_count(
    states: Seq<Purse>,
    s: Seq<(TypeKey, Seq<u8>)>,
    k: TypeKey,
)
    requires
        insert_run(states, s),
        forall|i: int| 0 <= i < s.len() ==> (#[trigger] s[i]).0 == k,
    ensures
        states.last().count_spec(k) == states[0].count_spec(k) + s.len(),
{
    lemma_count_after_inserts(states, s, k);
    lemma_inserts_for_all_of_type(s, k);
}

/// When every pair of `s` is keyed by `k`, the payloads stored under `k`
/// are all of them.
proof fn lemma_inserts_for_all_of_type(s: Seq<(TypeKey, Seq<u8>)>, k: TypeKey)
    requires
        forall|i: int| 0 <= i < s.len() ==> (#[trigger] s[i]).0 == k,
    ensures
        inserts_for(s, k).len() == s.len(),
    decreases s.len(),
{
    if s.len() > 0 {
        assert forall|i: int| 0 <= i < s.drop_last().len() implies (#[trigger] s.drop_last()[i]).0
            == k by {
            assert(s.drop_last()[i] == s[i]);
        }
        lemma_inserts_for_all_of_type(s.drop_last(), k);
    }
}

/// Starting from an empty purse, the bucket of each type `k` — what
/// `get_all_of_type` hands out and `count` measures — is exactly the
/// sequence of payloads inserted under `k`, in insertion order.
pub proof fn lemma_bucket_is_what_was_inserted(
    states: Seq<Purse>,
    s: Seq<(TypeKey, Seq<u8>)>,
    k: TypeKey,
)
    requires
        insert_run(states, s),
        states[0].keys().len() == 0,
    ensures
        states.last().bucket(k) == inserts_for(s, k),
        states.last().count_spec(k) == inserts_for(s, k).len(),
{
    lemma_count_after_inserts(states, s, k);
    assert(states.last().bucket(k) =~= inserts_for(s, k));
}

/// A value is contained immediately after it is inserted.
pub proof fn lemma_contains_after_insert(pre: Purse, post: Purse, k: TypeKey, b: Seq<u8>)
    requires
        insert_step(pre, k, b, post),
    ensures
        post.bucket(k).contains(b),
{
    assert(post.bucket(k).last() == b);
}

/// Membership survives any further insert, of any type and payload.
pub proof fn lemma_contains_kept_by_insert(
    pre: Purse,
    post: Purse,
    k: TypeKey,
    b: Seq<u8>,
    k2: TypeKey,
    b2: Seq<u8>,
)
    requires
        insert_step(pre, k2, b2, post),
        pre.bucket(k).contains(b),
    ensures
        post.bucket(k).contains(b),
{
    let w = choose|w: int| 0 <= w < pre.bucket(k).len() && pre.bucket(k)[w] == b;
    if k2 == k {
        assert(post.bucket(k)[w] == b);
    } else {
        assert(post.bucket(k) == pre.bucket(k));
        assert(post.bucket(k)[w] == b);
    }
}

/// Membership survives the removal of anything other than an equal value
/// of the same type: only a `remove` of an equal value (or a `clear`) can
/// end it.
pub proof fn lemma_contains_kept_by_remove_other(
    pre: Purse,
    post: Purse,
    removed: bool,
    k: TypeKey,
    b: Seq<u8>,
    k2: TypeKey,
    b2: Seq<u8>,
)
    requires
        remove_step(pre, k2, b2, post, removed),
        pre.bucket(k).contains(b),
        k2 != k || b2 != b,
    ensures
        post.bucket(k).contains(b),
{
    if k2 != k {
        assert(post.bucket(k) == pre.bucket(k));
        let w = choose|w: int| 0 <= w < pre.bucket(k).len() && pre.bucket(k)[w] == b;
        assert(post.bucket(k)[w] == b);
    } else {
        let s = pre.bucket(k);
        s.index_of_first_ensures(b2);
        match s.index_of_first(b2) {
            Some(idx) => {
                assert(post.bucket(k) == s.remove(idx));
                s.remove_ensures(idx);
                let w = choose|w: int| 0 <= w < s.len() && s[w] == b;
                assert(s[idx] == b2 && b2 != b);
                if w < idx {
                    assert(s.remove(idx)[w] == b);
                } else {
                    assert(s.remove(idx)[w - 1] == b);
                }
            },
            None => {
                assert(post.bucket(k) == s);
                let w = choose|w: int| 0 <= w < s.len() && s[w] == b;
                assert(post.bucket(k)[w] == b);
            },
        }
    }
}

/// A removal takes exactly one matching occurrence, and nothing else: on a
/// hit, the multiplicity of the removed payload in its bucket drops by
/// exactly one and every other multiplicity is kept; on a miss, no
/// occurrence was present and the purse is unchanged.
pub proof fn lemma_remove_takes_exactly_one(
    pre: Purse,
    post: Purse,
    removed: bool,
    k: TypeKey,
    b: Seq<u8>,
)
    requires
        remove_step(pre, k, b, post, removed),
    ensures
        removed ==> post.bucket(k).to_multiset().count(b) + 1 == pre.bucket(
            k,
        ).to_multiset().count(b),
        removed ==> forall|y: Seq<u8>|
            y != b ==> #[trigger] post.bucket(k).to_multiset().count(y) == pre.bucket(
                k,
            ).to_multiset().count(y),
        !removed ==> post == pre && pre.bucket(k).to_multiset().count(b) == 0,
{
    broadcast use vstd::seq_lib::group_to_multiset_ensures;
    broadcast use vstd::multiset::group_multiset_axioms;

    let s = pre.bucket(k);
    s.index_of_first_ensures(b);
    if removed {
        let idx = s.index_of_first(b)->Some_0;
        assert(post.bucket(k) == s.remove(idx));
        assert(s.remove(idx).to_multiset() =~= s.to_multiset().remove(s[idx]));
        assert(s.to_multiset().count(b) > 0);
    }
}

/// The purse is empty exactly when `types` lists no key: `is_empty`'s
/// answer and the emptiness of `types`' answer always agree.
pub proof fn lemma_is_empty_iff_no_types(
    p: Purse,
    empty_answer: bool,
    types_answer: Seq<TypeKey>,
)
    requires
        empty_answer == (p.keys().len() == 0),
        types_answer == p.keys(),
    ensures
        empty_answer <==> types_answer.len() == 0,
{
}

/// A cleared purse is indistinguishable, by every query, from a freshly
/// constructed one: both know no type, hold no bucket, and count zero of
/// everything.
pub proof fn lemma_cleared_is_like_new(cleared: Purse, built: Purse)
    requires
        cleared.keys().len() == 0,
        built.keys().len() == 0,
    ensures
        cleared.keys() == built.keys(),
        forall|k: TypeKey| #[trigger] cleared.has_type(k) == built.has_type(k),
        forall|k: TypeKey| #[trigger] cleared.bucket(k) == built.bucket(k),
        forall|k: TypeKey| #[trigger] cleared.count_spec(k) == built.count_spec(k),
        forall|k: TypeKey, b: Seq<u8>| !#[trigger] cleared.bucket(k).contains(b),
{
    assert(cleared.keys() =~= built.keys());
}

/// A type with the strictly greatest count is the one `most_common_type`
/// answers: whatever the tie rule, a strict maximum always wins.
pub proof fn lemma_most_common_strict_max(p: Purse, r: Option<TypeKey>, top: TypeKey)
    requires
        most_common_post(p, r),
        p.has_type(top),
        forall|k2: TypeKey|
            p.has_type(k2) && k2 != top ==> #[trigger] p.count_spec(k2) < p.count_spec(top),
    ensures
        r == Some(top),
{
    let w = choose|w: int| 0 <= w < p.keys().len() && p.keys()[w] == top;
    assert(p.keys().len() > 0);
    let k = r->Some_0;
    if k != top {
        assert(p.count_spec(top) < p.count_spec(k) || (p.count_spec(top) == p.count_spec(k)
            && top.id < k.id));
        assert(p.count_spec(k) < p.count_spec(top));
        assert(false);
    }
}

} // verus!
