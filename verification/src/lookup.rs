//! Finding the first entry with a given key in a list.

use vstd::prelude::*;
use crate::text::view_all;

verus! {

/// The place of the first `key` in `keys`, if it occurs.
pub open spec fn key_position<K>(keys: Seq<K>, key: K) -> Option<int>
    decreases keys.len(),
{
    if keys.len() == 0 {
        None
    } else if keys[0] == key {
        Some(0)
    } else {
        match key_position(keys.drop_first(), key) {
            Some(i) => Some(i + 1),
            None => None,
        }
    }
}

/// A place before which the key does not occur, and at which it does or
/// which is the end, is what `key_position` gives.
pub proof fn lemma_key_position<K>(keys: Seq<K>, key: K, i: int)
    requires
        0 <= i <= keys.len(),
        forall|j: int| 0 <= j < i ==> keys[j] != key,
        i < keys.len() ==> keys[i] == key,
    ensures
        key_position(keys, key) == (if i < keys.len() {
            Some(i)
        } else {
            None
        }),
    decreases keys.len(),
{
    if keys.len() > 0 && i > 0 {
        let rest = keys.drop_first();
        assert forall|j: int| 0 <= j < i - 1 implies rest[j] != key by {
            assert(rest[j] == keys[j + 1]);
        }
        lemma_key_position(rest, key, i - 1);
    }
}

/// What `key_position` gives is the first place of the key.
pub proof fn lemma_key_position_is_first<K>(keys: Seq<K>, key: K)
    ensures
        match key_position(keys, key) {
            Some(i) => 0 <= i < keys.len() && keys[i] == key && forall|j: int|
                0 <= j < i ==> keys[j] != key,
            None => forall|j: int| 0 <= j < keys.len() ==> keys[j] != key,
        },
    decreases keys.len(),
{
    if keys.len() > 0 && keys[0] != key {
        let rest = keys.drop_first();
        lemma_key_position_is_first(rest, key);
        match key_position(rest, key) {
            Some(i) => {
                assert forall|j: int| 0 <= j < i + 1 implies keys[j] != key by {
                    if j > 0 {
                        assert(rest[j - 1] == keys[j]);
                    }
                }
            },
            None => {
                assert forall|j: int| 0 <= j < keys.len() implies keys[j] != key by {
                    if j > 0 {
                        assert(rest[j - 1] == keys[j]);
                    }
                }
            },
        }
    }
}

/// The list without every occurrence of `key`.
pub open spec fn without<K>(keys: Seq<K>, key: K) -> Seq<K>
    decreases keys.len(),
{
    if keys.len() == 0 {
        Seq::<K>::empty()
    } else if keys.last() == key {
        without(keys.drop_last(), key)
    } else {
        without(keys.drop_last(), key).push(keys.last())
    }
}

/// What `without` leaves: the entries other than the key.
pub proof fn lemma_without_contains<K>(keys: Seq<K>, key: K, other: K)
    ensures
        without(keys, key).contains(other) <==> (other != key && keys.contains(other)),
    decreases keys.len(),
{
    let out = without(keys, key);
    if keys.len() > 0 {
        let front = keys.drop_last();
        let inner = without(front, key);
        lemma_without_contains(front, key, other);
        if out.contains(other) {
            let i = choose|i: int| 0 <= i < out.len() && out[i] == other;
            if keys.last() == key {
                assert(inner.contains(other));
            } else if i < inner.len() {
                assert(inner[i] == other);
                assert(inner.contains(other));
            } else {
                assert(keys[keys.len() - 1] == other);
            }
            if inner.contains(other) {
                let j = choose|j: int| 0 <= j < front.len() && front[j] == other;
                assert(keys[j] == other);
            }
        }
        if other != key && keys.contains(other) {
            let j = choose|j: int| 0 <= j < keys.len() && keys[j] == other;
            if j < front.len() {
                assert(front[j] == other);
                assert(front.contains(other));
                let i = choose|i: int| 0 <= i < inner.len() && inner[i] == other;
                assert(out[i] == other);
            } else {
                assert(out[out.len() - 1] == other);
            }
        }
    }
}

/// `without` removes the key and nothing else, and leaves a list alone
/// that does not hold the key.
pub proof fn lemma_without<K>(keys: Seq<K>, key: K)
    ensures
        !without(keys, key).contains(key),
        forall|other: K|
            other != key ==> (#[trigger] without(keys, key).contains(other) <==> keys.contains(
                other,
            )),
        !keys.contains(key) ==> without(keys, key) == keys,
        without(keys, key).len() <= keys.len(),
    decreases keys.len(),
{
    lemma_without_contains(keys, key, key);
    assert forall|other: K| other != key implies (#[trigger] without(keys, key).contains(other)
        <==> keys.contains(other)) by {
        lemma_without_contains(keys, key, other);
    }
    if keys.len() > 0 {
        let front = keys.drop_last();
        lemma_without(front, key);
        if !keys.contains(key) {
            assert(keys[keys.len() - 1] != key);
            assert(!front.contains(key)) by {
                if front.contains(key) {
                    let j = choose|j: int| 0 <= j < front.len() && front[j] == key;
                    assert(keys[j] == key);
                }
            }
            assert(front.push(keys.last()) =~= keys);
        }
    }
}

/// Whether a list of strings holds the text.
pub fn contains_text(list: &Vec<String>, text: &String) -> (r: bool)
    ensures
        r == view_all(list@).contains(text@),
{
    let mut i: usize = 0;
    while i < list.len()
        invariant
            i <= list.len(),
            forall|j: int| 0 <= j < i ==> view_all(list@)[j] != text@,
        decreases list.len() - i,
    {
        if list[i] == *text {
            proof {
                assert(view_all(list@)[i as int] == text@);
            }
            return true;
        }
        i += 1;
    }
    false
}

/// Takes every occurrence of the text out of a list of strings.
pub fn remove_text(list: &mut Vec<String>, text: &String)
    ensures
        view_all(final(list)@) == without(view_all(old(list)@), text@),
{
    let mut kept: Vec<String> = Vec::new();
    let mut all: Vec<String> = Vec::new();
    std::mem::swap(&mut all, list);
    let ghost before = view_all(all@);
    let mut i: usize = 0;
    proof {
        assert(before.take(0) =~= Seq::<Seq<char>>::empty());
    }
    while i < all.len()
        invariant
            i <= all.len(),
            before == view_all(all@),
            view_all(kept@) == without(before.take(i as int), text@),
        decreases all.len() - i,
    {
        proof {
            assert(before.take(i + 1).drop_last() =~= before.take(i as int));
            assert(before.take(i + 1).last() == all@[i as int]@);
        }
        if all[i] != *text {
            let ghost sofar = view_all(kept@);
            kept.push(all[i].clone());
            proof {
                assert(view_all(kept@) =~= sofar.push(all@[i as int]@));
            }
        }
        i += 1;
    }
    proof {
        assert(before.take(all.len() as int) =~= before);
    }
    *list = kept;
}

} // verus!
