//! Keys of hash maps and members of hash sets.

use std::collections::{HashMap, HashSet};
use vstd::prelude::*;

verus! {

/// `keys` holds each member of `domain` once, in some order.
pub open spec fn lists(keys: Seq<u128>, domain: Set<u128>) -> bool {
    &&& keys.no_duplicates()
    &&& keys.len() == domain.len()
    &&& forall|i: int| 0 <= i < keys.len() ==> domain.contains(#[trigger] keys[i])
    &&& forall|key: u128| #[trigger] domain.contains(key) ==> keys.contains(key)
}

/// The keys of `map`, in some order.
pub fn keys_of<V>(map: &HashMap<u128, V>) -> (keys: Vec<u128>)
    ensures
        lists(keys@, map@.dom()),
{
    let mut keys: Vec<u128> = Vec::new();
    for key in it: map.keys()
        invariant
            keys@.len() == it.index(),
            forall|i: int| 0 <= i < it.index() ==> #[trigger] keys@[i] == *it.seq()[i],
            it.seq().unref().to_set() == map@.dom(),
            it.seq().no_duplicates(),
            it.seq().len() == map@.dom().len(),
            keys@.no_duplicates(),
            forall|i: int| 0 <= i < keys@.len() ==> map@.dom().contains(#[trigger] keys@[i]),
            forall|k: u128| #[trigger]
                map@.dom().contains(k) ==> keys@.contains(k) || exists|j: int|
                    it.index() <= j < it.seq().len() && k == *#[trigger] it.seq()[j],
    {
        let ghost before = keys@;
        keys.push(*key);
        proof {
            assert(it.seq().unref()[it.index() as int] == *key);
            assert(it.seq().unref().to_set().contains(*key));
            assert forall|k: u128| #[trigger] map@.dom().contains(k) implies keys@.contains(k)
                || exists|j: int|
                it.index() + 1 <= j < it.seq().len() && k == *#[trigger] it.seq()[j] by {
                if before.contains(k) {
                    let i = choose|i: int| 0 <= i < before.len() && before[i] == k;
                    assert(keys@[i] == k);
                } else if k == *key {
                    assert(keys@[keys@.len() - 1] == k);
                }
            }
        }
    }
    keys
}

/// The members of `set`, in some order.
pub fn members_of(set: &HashSet<u128>) -> (keys: Vec<u128>)
    ensures
        lists(keys@, set@),
{
    let mut keys: Vec<u128> = Vec::new();
    for key in it: set.iter()
        invariant
            keys@.len() == it.index(),
            forall|i: int| 0 <= i < it.index() ==> #[trigger] keys@[i] == *it.seq()[i],
            it.seq().unref().to_set() == set@,
            it.seq().no_duplicates(),
            it.seq().len() == set@.len(),
            keys@.no_duplicates(),
            forall|i: int| 0 <= i < keys@.len() ==> set@.contains(#[trigger] keys@[i]),
            forall|k: u128| #[trigger]
                set@.contains(k) ==> keys@.contains(k) || exists|j: int|
                    it.index() <= j < it.seq().len() && k == *#[trigger] it.seq()[j],
    {
        let ghost before = keys@;
        keys.push(*key);
        proof {
            assert(it.seq().unref()[it.index() as int] == *key);
            assert(it.seq().unref().to_set().contains(*key));
            assert forall|k: u128| #[trigger] set@.contains(k) implies keys@.contains(k)
                || exists|j: int|
                it.index() + 1 <= j < it.seq().len() && k == *#[trigger] it.seq()[j] by {
                if before.contains(k) {
                    let i = choose|i: int| 0 <= i < before.len() && before[i] == k;
                    assert(keys@[i] == k);
                } else if k == *key {
                    assert(keys@[keys@.len() - 1] == k);
                }
            }
        }
    }
    keys
}

} // verus!
