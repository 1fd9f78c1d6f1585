//! Small tables keyed by a number.
use vstd::prelude::*;

verus! {

/// The position of the first entry under `key`.
pub open spec fn key_position<T>(list: Seq<(u32, T)>, key: u32) -> Option<int>
    decreases list.len(),
{
    if list.len() == 0 {
        None
    } else if list[0].0 == key {
        Some(0)
    } else {
        match key_position(list.skip(1), key) {
            Some(i) => Some(i + 1),
            None => None,
        }
    }
}

/// The first entry under `key`.
pub open spec fn entry<T>(list: Seq<(u32, T)>, key: u32) -> Option<T> {
    match key_position(list, key) {
        Some(i) => Some(list[i].1),
        None => None,
    }
}

/// The position found holds the key, and no earlier one does.
pub proof fn key_position_is_first<T>(list: Seq<(u32, T)>, key: u32)
    ensures
        match key_position(list, key) {
            Some(i) => 0 <= i < list.len() && list[i].0 == key && forall|j: int|
                0 <= j < i ==> (#[trigger] list[j]).0 != key,
            None => forall|j: int| 0 <= j < list.len() ==> (#[trigger] list[j]).0 != key,
        },
    decreases list.len(),
{
    if list.len() > 0 && list[0].0 != key {
        let rest = list.skip(1);
        key_position_is_first(rest, key);
        match key_position(rest, key) {
            Some(i) => {
                assert(list[i + 1] == rest[i]);
                assert forall|j: int| 0 <= j < i + 1 implies (#[trigger] list[j]).0 != key by {
                    if j > 0 {
                        assert(rest[j - 1] == list[j]);
                    }
                }
            },
            None => {
                assert forall|j: int| 0 <= j < list.len() implies (#[trigger] list[j]).0 != key by {
                    if j > 0 {
                        assert(rest[j - 1] == list[j]);
                    }
                }
            },
        }
    }
}

/// The first position that holds the key is the one found.
pub proof fn key_position_at<T>(list: Seq<(u32, T)>, key: u32, i: int)
    requires
        0 <= i < list.len(),
        list[i].0 == key,
        forall|j: int| 0 <= j < i ==> (#[trigger] list[j]).0 != key,
    ensures
        key_position(list, key) == Some(i),
{
    key_position_is_first(list, key);
}

/// The position of the first entry under `key`.
pub fn find_key<T>(list: &Vec<(u32, T)>, key: u32) -> (r: Option<usize>)
    ensures
        match r {
            Some(i) => i < list.len() && key_position(list@, key) == Some(i as int),
            None => key_position(list@, key) is None,
        },
{
    let mut i: usize = 0;
    while i < list.len()
        invariant
            i <= list.len(),
            forall|j: int| 0 <= j < i ==> (#[trigger] list@[j]).0 != key,
        decreases list.len() - i,
    {
        if list[i].0 == key {
            proof {
                key_position_at(list@, key, i as int);
            }
            return Some(i);
        }
        i += 1;
    }
    proof {
        key_position_is_first(list@, key);
    }
    None
}

/// The first entry under `key`.
pub fn get_entry<T: Copy>(list: &Vec<(u32, T)>, key: u32) -> (r: Option<T>)
    ensures
        r == entry(list@, key),
{
    match find_key(list, key) {
        Some(i) => Some(list[i].1),
        None => None,
    }
}

/// The table with `value` under `key`: in place of its entry, or after all
/// others.
pub open spec fn with_entry<T>(list: Seq<(u32, T)>, key: u32, value: T) -> Seq<(u32, T)> {
    match key_position(list, key) {
        Some(i) => list.update(i, (key, value)),
        None => list.push((key, value)),
    }
}

/// What was put is what is read back, and no other entry changed.
pub proof fn entry_is_read_back<T>(list: Seq<(u32, T)>, key: u32, value: T, other: u32)
    ensures
        entry(with_entry(list, key, value), key) == Some(value),
        other != key ==> entry(with_entry(list, key, value), other) == entry(list, other),
{
    let set = with_entry(list, key, value);
    key_position_is_first(list, key);
    key_position_is_first(list, other);
    match key_position(list, key) {
        Some(i) => {
            key_position_at(set, key, i);
        },
        None => {
            assert forall|j: int| 0 <= j < list.len() implies (#[trigger] set[j]).0 != key by {
                assert(set[j] == list[j]);
            }
            key_position_at(set, key, list.len() as int);
        },
    }
    if other != key {
        match key_position(list, other) {
            Some(i) => {
                assert forall|j: int| 0 <= j < i implies (#[trigger] set[j]).0 != other by {
                    assert(list[j].0 != other);
                }
                key_position_at(set, other, i);
            },
            None => {
                key_position_is_first(set, other);
            },
        }
    }
}

/// Puts `value` under `key`.
pub fn set_entry<T: Copy>(list: &mut Vec<(u32, T)>, key: u32, value: T)
    ensures
        final(list)@ == with_entry(old(list)@, key, value),
{
    match find_key(list, key) {
        Some(i) => {
            list.set(i, (key, value));
        },
        None => {
            list.push((key, value));
        },
    }
}

/// The position of a number in a list without repeats.
pub open spec fn number_position(list: Seq<u32>, x: u32) -> Option<int> {
    crate::context::edits::first_position(list, x)
}

/// The position of the first entry that is `x`.
pub fn find_number(list: &Vec<u32>, x: u32) -> (r: Option<usize>)
    ensures
        match r {
            Some(i) => i < list.len() && number_position(list@, x) == Some(i as int),
            None => number_position(list@, x) is None,
        },
{
    let mut i: usize = 0;
    while i < list.len()
        invariant
            i <= list.len(),
            forall|j: int| 0 <= j < i ==> list@[j] != x,
        decreases list.len() - i,
    {
        if list[i] == x {
            proof {
                crate::context::edits::first_position_at(list@, x, i as int);
            }
            return Some(i);
        }
        i += 1;
    }
    proof {
        crate::context::edits::first_position_is_first(list@, x);
    }
    None
}

} // verus!
