//! Tests for the heterogeneous bag: the full mixed-type scenario, plus one
//! concrete check per law the library proves.

use purse::ErasedValue;
use purse::Purse;
use purse::TypeKey;
use purse::TypeRegistry;

/// A small closed set of moves, standing in for an arbitrary user type.
#[derive(PartialEq, Eq, Clone, Copy, Debug)]
enum Rps {
    Rock,
    Paper,
    Scissors,
}

impl Rps {
    fn tag(self) -> u8 {
        match self {
            Rps::Rock => 0,
            Rps::Paper => 1,
            Rps::Scissors => 2,
        }
    }
}

fn ev_i32(k: TypeKey, x: i32) -> ErasedValue {
    ErasedValue::new(k, x.to_le_bytes().to_vec())
}

fn ev_str(k: TypeKey, s: &str) -> ErasedValue {
    ErasedValue::new(k, s.as_bytes().to_vec())
}

fn ev_rps(k: TypeKey, m: Rps) -> ErasedValue {
    ErasedValue::new(k, vec![m.tag()])
}

fn three_keys() -> (TypeKey, TypeKey, TypeKey) {
    let mut reg = TypeRegistry::new();
    (reg.fresh(), reg.fresh(), reg.fresh())
}

#[test]
fn test_purse() {
    let (k_i32, k_str, k_rps) = three_keys();
    let mut purse = Purse::new();

    purse.insert(ev_i32(k_i32, 5));
    purse.insert(ev_str(k_str, "foo"));
    purse.insert(ev_rps(k_rps, Rps::Rock));
    purse.insert(ev_rps(k_rps, Rps::Paper));

    // Check if items are contained.
    assert!(purse.contains(&ev_str(k_str, "foo")));
    assert!(!purse.contains(&ev_str(k_str, "bar")));
    assert!(!purse.contains(&ev_i32(k_i32, 0)));
    assert!(purse.contains(&ev_rps(k_rps, Rps::Rock)));
    assert!(!purse.contains(&ev_rps(k_rps, Rps::Scissors)));

    // Check removal of items.
    purse.remove(&ev_rps(k_rps, Rps::Rock));
    assert!(!purse.contains(&ev_rps(k_rps, Rps::Rock)));

    // Check counts.
    assert_eq!(purse.count(k_str), 1);
    purse.insert(ev_str(k_str, "bar"));
    purse.insert(ev_str(k_str, "baz"));
    assert_eq!(purse.count(k_str), 3);

    // Check types.
    let types = purse.types();
    assert_eq!(types.len(), 3);
    assert!(types.contains(&k_i32));
    assert!(types.contains(&k_str));
    assert!(types.contains(&k_rps));

    // Get all of type.
    let strings: Vec<&Vec<u8>> = purse.get_all_of_type(k_str);
    assert_eq!(strings.len(), 3);
    assert!(strings.contains(&&"foo".as_bytes().to_vec()));
    assert!(strings.contains(&&"bar".as_bytes().to_vec()));
    assert!(strings.contains(&&"baz".as_bytes().to_vec()));

    // Check the most common type.
    assert_eq!(purse.most_common_type(), Some(k_str));

    // Clearing the bag.
    purse.clear();
    assert!(purse.is_empty());

    // Add a few items again.
    purse.insert(ev_i32(k_i32, 5));
    purse.insert(ev_str(k_str, "foo"));
    purse.insert(ev_rps(k_rps, Rps::Paper));

    // Iteration over all elements in the bag.
    let mut nums: Vec<i32> = vec![];
    let mut strs: Vec<String> = vec![];
    let mut moves: Vec<u8> = vec![];

    for item in purse.iter() {
        if let Some(b) = item.downcast(k_i32) {
            nums.push(i32::from_le_bytes([b[0], b[1], b[2], b[3]]));
        } else if let Some(b) = item.downcast(k_str) {
            strs.push(String::from_utf8(b.clone()).unwrap());
        } else if let Some(b) = item.downcast(k_rps) {
            moves.push(b[0]);
        } else {
            panic!("unexpected type found in bag");
        }
    }
    assert_eq!(nums.first(), Some(&5));
    assert_eq!(strs.first().map(|s| s.as_str()), Some("foo"));
    assert_eq!(moves.first(), Some(&Rps::Paper.tag()));
}

#[test]
fn count_equals_inserts_per_type() {
    let (k_i32, k_str, k_rps) = three_keys();
    let mut purse = Purse::new();
    for x in 0..4 {
        purse.insert(ev_i32(k_i32, x));
    }
    purse.insert(ev_str(k_str, "only"));
    purse.insert(ev_rps(k_rps, Rps::Rock));
    purse.insert(ev_rps(k_rps, Rps::Rock));
    assert_eq!(purse.count(k_i32), 4);
    assert_eq!(purse.count(k_str), 1);
    assert_eq!(purse.count(k_rps), 2);
}

#[test]
fn contains_lasts_until_removal_or_clear() {
    let (k_i32, k_str, _) = three_keys();
    let mut purse = Purse::new();
    purse.insert(ev_i32(k_i32, 9));
    assert!(purse.contains(&ev_i32(k_i32, 9)));

    // Unrelated inserts keep it contained.
    purse.insert(ev_i32(k_i32, 10));
    purse.insert(ev_str(k_str, "noise"));
    assert!(purse.contains(&ev_i32(k_i32, 9)));

    // Removing other values keeps it contained.
    assert!(purse.remove(&ev_i32(k_i32, 10)));
    assert!(purse.contains(&ev_i32(k_i32, 9)));

    // Removing an equal value ends it.
    assert!(purse.remove(&ev_i32(k_i32, 9)));
    assert!(!purse.contains(&ev_i32(k_i32, 9)));

    // A clear ends it too.
    purse.insert(ev_i32(k_i32, 9));
    purse.clear();
    assert!(!purse.contains(&ev_i32(k_i32, 9)));
}

#[test]
fn remove_takes_one_occurrence_at_a_time() {
    let (k_i32, _, _) = three_keys();
    let mut purse = Purse::new();
    purse.insert(ev_i32(k_i32, 7));
    purse.insert(ev_i32(k_i32, 7));

    assert!(purse.remove(&ev_i32(k_i32, 7)));
    assert_eq!(purse.count(k_i32), 1);
    assert!(purse.remove(&ev_i32(k_i32, 7)));
    assert_eq!(purse.count(k_i32), 0);
    assert!(!purse.remove(&ev_i32(k_i32, 7)));
    assert_eq!(purse.count(k_i32), 0);
}

#[test]
fn removing_an_absent_value_changes_nothing() {
    let (k_i32, k_str, _) = three_keys();
    let mut purse = Purse::new();
    purse.insert(ev_i32(k_i32, 1));
    purse.insert(ev_str(k_str, "keep"));

    assert!(!purse.remove(&ev_i32(k_i32, 2)));
    assert!(!purse.remove(&ev_str(k_str, "gone")));

    assert_eq!(purse.count(k_i32), 1);
    assert_eq!(purse.count(k_str), 1);
    assert!(purse.contains(&ev_i32(k_i32, 1)));
    assert!(purse.contains(&ev_str(k_str, "keep")));
    assert_eq!(purse.types().len(), 2);
}

#[test]
fn is_empty_agrees_with_types() {
    let (k_i32, _, _) = three_keys();
    let mut purse = Purse::new();
    assert_eq!(purse.is_empty(), purse.types().is_empty());
    assert!(purse.is_empty());

    purse.insert(ev_i32(k_i32, 3));
    assert_eq!(purse.is_empty(), purse.types().is_empty());
    assert!(!purse.is_empty());

    // A bucket emptied by removal still counts as a known type.
    assert!(purse.remove(&ev_i32(k_i32, 3)));
    assert_eq!(purse.is_empty(), purse.types().is_empty());
    assert!(!purse.is_empty());

    purse.clear();
    assert_eq!(purse.is_empty(), purse.types().is_empty());
    assert!(purse.is_empty());
}

#[test]
fn cleared_answers_like_new() {
    let (k_i32, k_str, k_rps) = three_keys();
    let mut purse = Purse::new();
    purse.insert(ev_i32(k_i32, 5));
    purse.insert(ev_str(k_str, "foo"));
    purse.insert(ev_rps(k_rps, Rps::Paper));
    purse.clear();

    let built = Purse::new();
    assert_eq!(purse.count(k_i32), built.count(k_i32));
    assert_eq!(purse.count(k_i32), 0);
    assert_eq!(
        purse.contains(&ev_str(k_str, "foo")),
        built.contains(&ev_str(k_str, "foo"))
    );
    assert!(!purse.contains(&ev_str(k_str, "foo")));
    assert_eq!(purse.types().len(), built.types().len());
    assert!(purse.types().is_empty());
    assert_eq!(purse.is_empty(), built.is_empty());
    assert!(purse.is_empty());
    assert_eq!(purse.most_common_type(), built.most_common_type());
    assert_eq!(purse.most_common_type(), None);
}

#[test]
fn strictly_most_common_type_wins() {
    let (k_i32, k_str, k_rps) = three_keys();
    let mut purse = Purse::new();
    assert_eq!(purse.most_common_type(), None);

    purse.insert(ev_i32(k_i32, 1));
    purse.insert(ev_str(k_str, "a"));
    purse.insert(ev_str(k_str, "b"));
    purse.insert(ev_str(k_str, "c"));
    purse.insert(ev_rps(k_rps, Rps::Rock));
    purse.insert(ev_rps(k_rps, Rps::Paper));
    assert_eq!(purse.most_common_type(), Some(k_str));

    // Removals shift the strict maximum.
    assert!(purse.remove(&ev_str(k_str, "a")));
    assert!(purse.remove(&ev_str(k_str, "b")));
    assert!(purse.remove(&ev_str(k_str, "c")));
    assert_eq!(purse.most_common_type(), Some(k_rps));
}

#[test]
fn tied_most_common_type_is_one_of_the_tied() {
    let (k_i32, k_str, _) = three_keys();
    let mut purse = Purse::new();
    purse.insert(ev_i32(k_i32, 1));
    purse.insert(ev_str(k_str, "a"));
    let winner = purse.most_common_type();
    assert!(winner == Some(k_i32) || winner == Some(k_str));
}

#[test]
fn interleaved_inserts_of_one_type_all_count() {
    // Ten distinct values of one type, arriving in any interleaving,
    // leave exactly ten in that type's bucket.
    let (k_i32, _, _) = three_keys();
    let mut purse = Purse::new();
    for x in 0..10 {
        purse.insert(ev_i32(k_i32, x));
    }
    assert_eq!(purse.count(k_i32), 10);
    for x in 0..10 {
        assert!(purse.contains(&ev_i32(k_i32, x)));
    }
}

#[test]
fn get_all_of_type_matches_count_and_order() {
    let (k_i32, k_str, _) = three_keys();
    let mut purse = Purse::new();
    purse.insert(ev_str(k_str, "first"));
    purse.insert(ev_i32(k_i32, 1));
    purse.insert(ev_str(k_str, "second"));
    purse.insert(ev_str(k_str, "third"));

    let all = purse.get_all_of_type(k_str);
    assert_eq!(all.len() as u64, purse.count(k_str));
    assert_eq!(all[0], &"first".as_bytes().to_vec());
    assert_eq!(all[1], &"second".as_bytes().to_vec());
    assert_eq!(all[2], &"third".as_bytes().to_vec());

    // A type never seen yields an empty sequence, not an error.
    let mut reg = TypeRegistry::new();
    let unseen = {
        reg.fresh();
        reg.fresh();
        reg.fresh();
        reg.fresh()
    };
    assert!(purse.get_all_of_type(unseen).is_empty());
    assert_eq!(purse.count(unseen), 0);
}

#[test]
fn downcast_succeeds_only_under_the_stored_key() {
    let (k_i32, k_str, _) = three_keys();
    let v = ev_i32(k_i32, 77);
    assert_eq!(v.type_key(), k_i32);
    assert_eq!(v.downcast(k_i32), Some(&77i32.to_le_bytes().to_vec()));
    assert_eq!(v.downcast(k_str), None);
}

#[test]
fn registry_issues_distinct_keys() {
    let mut reg = TypeRegistry::new();
    let a = reg.fresh();
    let b = reg.fresh();
    let c = reg.fresh();
    assert_ne!(a, b);
    assert_ne!(a, c);
    assert_ne!(b, c);
}

#[test]
fn emptied_bucket_stays_known() {
    let (k_i32, _, _) = three_keys();
    let mut purse = Purse::new();
    purse.insert(ev_i32(k_i32, 4));
    assert!(purse.remove(&ev_i32(k_i32, 4)));

    // The type stays listed with a zero count; only clear forgets it.
    assert!(!purse.is_empty());
    assert_eq!(purse.types(), vec![k_i32]);
    assert_eq!(purse.count(k_i32), 0);
    assert_eq!(purse.most_common_type(), Some(k_i32));
    assert!(purse.get_all_of_type(k_i32).is_empty());
}

#[test]
fn iter_flattens_buckets_in_order() {
    let (k_i32, k_str, _) = three_keys();
    let mut purse = Purse::new();
    purse.insert(ev_i32(k_i32, 1));
    purse.insert(ev_str(k_str, "x"));
    purse.insert(ev_i32(k_i32, 2));

    let slots = purse.iter();
    assert_eq!(slots.len(), 3);
    // Bucket order follows first insertion of each type; within a bucket,
    // insertion order is kept.
    assert_eq!(slots[0].type_key(), k_i32);
    assert_eq!(slots[0].bytes, 1i32.to_le_bytes().to_vec());
    assert_eq!(slots[1].type_key(), k_i32);
    assert_eq!(slots[1].bytes, 2i32.to_le_bytes().to_vec());
    assert_eq!(slots[2].type_key(), k_str);
    assert_eq!(slots[2].bytes, "x".as_bytes().to_vec());
}

#[test]
fn payloads_of_different_values_do_not_collide() {
    let (k_i32, _, _) = three_keys();
    let mut purse = Purse::new();
    purse.insert(ev_i32(k_i32, 256));
    assert!(!purse.contains(&ev_i32(k_i32, 1)));
    assert!(purse.contains(&ev_i32(k_i32, 256)));
}
