use std::collections::HashMap;
use vstd::prelude::*;
use vstd::std_specs::iter::IteratorSpec;

verus! {

/// The sum of the values of a finite map.
pub open spec fn total(counts: Map<u64, u64>) -> nat
    decreases counts.dom().len(),
    when counts.dom().finite()
{
    if counts.dom().is_empty() {
        0
    } else {
        let key = counts.dom().choose();
        counts[key] as nat + total(counts.remove(key))
    }
}

/// The value under `key`, zero where the map has none.
pub open spec fn count_of(counts: Map<u64, u64>, key: u64) -> u64 {
    if counts.contains_key(key) {
        counts[key]
    } else {
        0
    }
}

/// The point-wise maximum of two maps: a key of either is a key of the
/// result, with the larger of the values it has.
pub open spec fn merged(ours: Map<u64, u64>, theirs: Map<u64, u64>) -> Map<u64, u64> {
    Map::new(
        |key: u64| ours.contains_key(key) || theirs.contains_key(key),
        |key: u64|
            if count_of(ours, key) >= count_of(theirs, key) {
                count_of(ours, key)
            } else {
                count_of(theirs, key)
            },
    )
}

/// The sum splits at any key: that key's value, and the sum of the rest.
pub proof fn lemma_total_remove(counts: Map<u64, u64>, key: u64)
    requires
        counts.dom().finite(),
        counts.contains_key(key),
    ensures
        total(counts) == counts[key] + total(counts.remove(key)),
    decreases counts.dom().len(),
{
    let first = counts.dom().choose();
    if first != key {
        lemma_total_remove(counts.remove(first), key);
        lemma_total_remove(counts.remove(key), first);
        assert(counts.remove(first).remove(key) =~= counts.remove(key).remove(first));
    }
}

/// Setting one value moves the sum by the difference to the value it had.
pub proof fn lemma_total_insert(counts: Map<u64, u64>, key: u64, value: u64)
    requires
        counts.dom().finite(),
    ensures
        total(counts.insert(key, value)) == total(counts) - count_of(counts, key) + value,
{
    lemma_total_remove(counts.insert(key, value), key);
    assert(counts.insert(key, value).remove(key) =~= counts.remove(key));
    if counts.contains_key(key) {
        lemma_total_remove(counts, key);
    } else {
        assert(counts.remove(key) =~= counts);
    }
}

/// A map with more keys and values no smaller has a sum no smaller.
pub proof fn lemma_total_monotone(smaller: Map<u64, u64>, larger: Map<u64, u64>)
    requires
        larger.dom().finite(),
        smaller.dom().subset_of(larger.dom()),
        forall|key: u64| #[trigger] smaller.contains_key(key) ==> smaller[key] <= larger[key],
    ensures
        smaller.dom().finite(),
        total(smaller) <= total(larger),
    decreases larger.dom().len(),
{
    vstd::set_lib::lemma_len_subset(smaller.dom(), larger.dom());
    if larger.dom().is_empty() {
        assert(smaller.dom() =~= Set::<u64>::empty());
    } else {
        let key = larger.dom().choose();
        lemma_total_remove(larger, key);
        if smaller.contains_key(key) {
            lemma_total_remove(smaller, key);
            lemma_total_monotone(smaller.remove(key), larger.remove(key));
        } else {
            lemma_total_monotone(smaller, larger.remove(key));
        }
    }
}

/// Merging never lowers the sum, whichever side one looks from.
pub proof fn lemma_total_merged(ours: Map<u64, u64>, theirs: Map<u64, u64>)
    requires
        ours.dom().finite(),
        theirs.dom().finite(),
    ensures
        merged(ours, theirs).dom().finite(),
        total(ours) <= total(merged(ours, theirs)),
        total(theirs) <= total(merged(ours, theirs)),
{
    assert(merged(ours, theirs).dom() =~= ours.dom().union(theirs.dom()));
    lemma_total_monotone(ours, merged(ours, theirs));
    lemma_total_monotone(theirs, merged(ours, theirs));
}

/// Merging is idempotent, commutative and associative.
pub proof fn lemma_merged_laws(a: Map<u64, u64>, b: Map<u64, u64>, c: Map<u64, u64>)
    ensures
        merged(a, a) == a,
        merged(a, b) == merged(b, a),
        merged(merged(a, b), c) == merged(a, merged(b, c)),
{
    assert(merged(a, a) =~= a);
    assert(merged(a, b) =~= merged(b, a));
    assert(merged(merged(a, b), c) =~= merged(a, merged(b, c)));
}

/// The sum of the values of `counts`, unless it exceeds `u64::MAX`.
pub fn sum_values(counts: &HashMap<u64, u64>) -> (sum: Option<u64>)
    ensures
        sum == if total(counts@) <= u64::MAX {
            Some(total(counts@) as u64)
        } else {
            None
        },
{
    broadcast use vstd::std_specs::hash::group_hash_axioms;

    let mut acc: u64 = 0;
    let ghost keys: Seq<u64> = counts.keys().remaining().unref();
    let ghost mut done: int = 0;
    assert(counts@.restrict(keys.take(0).to_set()) =~= Map::<u64, u64>::empty());
    for key in it: counts.keys()
        invariant
            it.seq().unref() == keys,
            keys.to_set() == counts@.dom(),
            keys.no_duplicates(),
            done == it.index(),
            acc == total(counts@.restrict(keys.take(done).to_set())),
    {
        assert(keys[done] == *key);
        assert(keys.to_set().contains(keys[done]));
        let ghost before = counts@.restrict(keys.take(done).to_set());
        let ghost after = counts@.restrict(keys.take(done + 1).to_set());
        proof {
            assert(!keys.take(done).contains(*key));
            assert(keys.take(done + 1) =~= keys.take(done).push(*key));
            keys.take(done).lemma_push_to_set_commute(*key);
            assert(after.contains_key(*key));
            assert(after.dom().finite()) by {
                vstd::set_lib::lemma_len_subset(after.dom(), counts@.dom());
            }
            lemma_total_remove(after, *key);
            assert(after.remove(*key) =~= before);
            lemma_total_monotone(after, counts@);
        }
        let value = *counts.get(key).unwrap();
        if value > u64::MAX - acc {
            return None;
        }
        acc = acc + value;
        proof {
            done = done + 1;
        }
    }
    proof {
        assert(keys.take(done) =~= keys);
        assert(counts@.restrict(keys.to_set()) =~= counts@);
    }
    Some(acc)
}

/// Raises each value of `counts` to the value that `incoming` has for its
/// key, and takes over the keys that only `incoming` has.
pub fn merge_max(counts: &mut HashMap<u64, u64>, incoming: &HashMap<u64, u64>)
    ensures
        final(counts)@ == merged(old(counts)@, incoming@),
{
    broadcast use vstd::std_specs::hash::group_hash_axioms;

    let ghost keys: Seq<u64> = incoming.keys().remaining().unref();
    let ghost mut done: int = 0;
    assert(counts@ =~= merged(old(counts)@, incoming@.restrict(keys.take(0).to_set())));
    for key in it: incoming.keys()
        invariant
            it.seq().unref() == keys,
            keys.to_set() == incoming@.dom(),
            done == it.index(),
            counts@ == merged(old(counts)@, incoming@.restrict(keys.take(done).to_set())),
    {
        assert(keys[done] == *key);
        assert(keys.to_set().contains(keys[done]));
        let theirs = *incoming.get(key).unwrap();
        let ours = match counts.get(key) {
            Some(value) => *value,
            None => 0,
        };
        if theirs > ours || !counts.contains_key(key) {
            counts.insert(*key, theirs);
        }
        proof {
            assert(keys.take(done + 1) =~= keys.take(done).push(*key));
            keys.take(done).lemma_push_to_set_commute(*key);
            assert(counts@ =~= merged(
                old(counts)@,
                incoming@.restrict(keys.take(done + 1).to_set()),
            ));
            done = done + 1;
        }
    }
    proof {
        assert(keys.take(done) =~= keys);
        assert(incoming@.restrict(keys.to_set()) =~= incoming@);
    }
}

} // verus!
