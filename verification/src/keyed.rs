//! Ordered lists of entries keyed by text: the first entry with a key is the
//! one that counts.

use vstd::prelude::*;

verus! {

/// No key occurs twice.
pub open spec fn keys_distinct<V>(s: Seq<(Seq<char>, V)>) -> bool {
    forall|i: int, j: int| 0 <= i < j < s.len() ==> s[i].0 != s[j].0
}

/// The index of the first entry with `key`, or the number of entries if no
/// entry has it.
pub open spec fn index_of_key<V>(s: Seq<(Seq<char>, V)>, key: Seq<char>) -> int
    decreases s.len(),
{
    if s.len() == 0 {
        0
    } else if s[0].0 == key {
        0
    } else {
        1 + index_of_key(s.skip(1), key)
    }
}

/// The value of the first entry with `key`, if any.
pub open spec fn value_at_key<V>(s: Seq<(Seq<char>, V)>, key: Seq<char>) -> Option<V> {
    let i = index_of_key(s, key);
    if i < s.len() {
        Some(s[i].1)
    } else {
        None
    }
}

/// The entries after `key` is set to `value`: an existing entry keeps its
/// place and takes the new value, a new one goes to the end.
pub open spec fn set_key<V>(s: Seq<(Seq<char>, V)>, key: Seq<char>, value: V) -> Seq<
    (Seq<char>, V),
> {
    let i = index_of_key(s, key);
    if i < s.len() {
        s.update(i, (key, value))
    } else {
        s.push((key, value))
    }
}

/// The index of a key lies within the entries, names an entry with the key
/// if it is not past the end, and no earlier entry has the key.
pub proof fn lemma_index_of_key_bounds<V>(s: Seq<(Seq<char>, V)>, key: Seq<char>)
    ensures
        0 <= index_of_key(s, key) <= s.len(),
        index_of_key(s, key) < s.len() ==> s[index_of_key(s, key)].0 == key,
        forall|j: int| 0 <= j < index_of_key(s, key) ==> s[j].0 != key,
    decreases s.len(),
{
    if s.len() == 0 {
    } else if s[0].0 == key {
    } else {
        lemma_index_of_key_bounds(s.skip(1), key);
        let k = index_of_key(s.skip(1), key);
        assert forall|j: int| 0 <= j < 1 + k implies s[j].0 != key by {
            if j > 0 {
                assert(s.skip(1)[j - 1] == s[j]);
            }
        }
    }
}

/// The first index whose entry has `key` is the key's index.
pub proof fn lemma_index_of_key_is<V>(s: Seq<(Seq<char>, V)>, key: Seq<char>, i: int)
    requires
        0 <= i <= s.len(),
        i < s.len() ==> s[i].0 == key,
        forall|j: int| 0 <= j < i ==> s[j].0 != key,
    ensures
        index_of_key(s, key) == i,
{
    lemma_index_of_key_bounds(s, key);
}

/// Setting a key keeps the keys distinct.
pub proof fn lemma_set_key_distinct<V>(s: Seq<(Seq<char>, V)>, key: Seq<char>, value: V)
    requires
        keys_distinct(s),
    ensures
        keys_distinct(set_key(s, key, value)),
{
    lemma_index_of_key_bounds(s, key);
}

/// A key that was just set carries the new value.
pub proof fn lemma_value_set_same<V>(s: Seq<(Seq<char>, V)>, key: Seq<char>, value: V)
    ensures
        value_at_key(set_key(s, key, value), key) == Some(value),
{
    lemma_index_of_key_bounds(s, key);
    let i = index_of_key(s, key);
    lemma_index_of_key_is(set_key(s, key, value), key, i);
}

/// Setting a key leaves every other key as it was.
pub proof fn lemma_value_set_other<V>(
    s: Seq<(Seq<char>, V)>,
    key: Seq<char>,
    value: V,
    other: Seq<char>,
)
    requires
        other != key,
    ensures
        value_at_key(set_key(s, key, value), other) == value_at_key(s, other),
{
    lemma_index_of_key_bounds(s, key);
    lemma_index_of_key_bounds(s, other);
    let k = index_of_key(s, other);
    lemma_index_of_key_is(set_key(s, key, value), other, if k < s.len() {
        k
    } else {
        set_key(s, key, value).len() as int
    });
}

} // verus!
