//! Byte strings as keys: lookups, updates and the order of keys.

use vstd::prelude::*;

verus! {

/// The bytes of an optional buffer.
pub open spec fn bytes_of(found: Option<Vec<u8>>) -> Option<Seq<u8>> {
    match found {
        Some(bytes) => Some(bytes@),
        None => None,
    }
}

/// The key and the bytes of an optional entry.
pub open spec fn entry_of(found: Option<(Vec<u8>, Vec<u8>)>) -> Option<(Seq<u8>, Seq<u8>)> {
    match found {
        Some((key, bytes)) => Some((key@, bytes@)),
        None => None,
    }
}

/// What `entries` holds under `key`, if anything.
pub open spec fn lookup(entries: Map<Seq<u8>, Seq<u8>>, key: Seq<u8>) -> Option<Seq<u8>> {
    if entries.contains_key(key) {
        Some(entries[key])
    } else {
        None
    }
}

/// `entries` with `key` set to `value`, or without `key` where `value` is `None`.
pub open spec fn put(entries: Map<Seq<u8>, Seq<u8>>, key: Seq<u8>, value: Option<Seq<u8>>) -> Map<
    Seq<u8>,
    Seq<u8>,
> {
    match value {
        Some(bytes) => entries.insert(key, bytes),
        None => entries.remove(key),
    }
}

/// Dictionary order on byte strings: `a` comes strictly before `b`.
pub open spec fn key_lt(a: Seq<u8>, b: Seq<u8>) -> bool
    decreases a.len(),
{
    if b.len() == 0 {
        false
    } else if a.len() == 0 {
        true
    } else if a[0] != b[0] {
        a[0] < b[0]
    } else {
        key_lt(a.drop_first(), b.drop_first())
    }
}

/// `key` starts with `prefix`.
pub open spec fn has_prefix(key: Seq<u8>, prefix: Seq<u8>) -> bool {
    prefix.len() <= key.len() && key.subrange(0, prefix.len() as int) == prefix
}

/// One end of a range of keys.
pub enum KeyBound {
    /// The range has no end on this side.
    Unbounded,
    /// The range ends with this key.
    Included(Vec<u8>),
    /// The range ends before this key.
    Excluded(Vec<u8>),
}

/// `key` lies in the range that starts at `from` and ends at `to`.
pub open spec fn within(key: Seq<u8>, from: KeyBound, to: KeyBound) -> bool {
    &&& match from {
        KeyBound::Unbounded => true,
        KeyBound::Included(start) => !key_lt(key, start@),
        KeyBound::Excluded(start) => key_lt(start@, key),
    }
    &&& match to {
        KeyBound::Unbounded => true,
        KeyBound::Included(end) => !key_lt(end@, key),
        KeyBound::Excluded(end) => key_lt(key, end@),
    }
}

/// `items` are the entries of `entries` whose keys are `wanted`, each once, in
/// the order of their keys.
pub open spec fn is_scan(
    items: Seq<(Seq<u8>, Seq<u8>)>,
    entries: Map<Seq<u8>, Seq<u8>>,
    wanted: spec_fn(Seq<u8>) -> bool,
) -> bool {
    &&& forall|i: int, j: int| 0 <= i < j < items.len() ==> key_lt(#[trigger] items[i].0, #[trigger] items[j].0)
    &&& forall|i: int|
        0 <= i < items.len() ==> wanted(#[trigger] items[i].0) && entries.contains_key(items[i].0)
            && entries[items[i].0] == items[i].1
    &&& forall|key: Seq<u8>| #[trigger]
        entries.contains_key(key) && wanted(key) ==> exists|i: int|
            0 <= i < items.len() && #[trigger] items[i].0 == key
}

/// No byte string comes before itself.
pub proof fn lemma_key_lt_irreflexive(a: Seq<u8>)
    ensures
        !key_lt(a, a),
    decreases a.len(),
{
    if a.len() > 0 {
        lemma_key_lt_irreflexive(a.drop_first());
    }
}

/// The order is transitive.
pub proof fn lemma_key_lt_transitive(a: Seq<u8>, b: Seq<u8>, c: Seq<u8>)
    requires
        key_lt(a, b),
        key_lt(b, c),
    ensures
        key_lt(a, c),
    decreases a.len(),
{
    if a.len() > 0 && a[0] == b[0] && b[0] == c[0] {
        lemma_key_lt_transitive(a.drop_first(), b.drop_first(), c.drop_first());
    }
}

/// Whether two byte strings are the same.
pub fn same_bytes(a: &[u8], b: &[u8]) -> (r: bool)
    ensures
        r == (a@ == b@),
{
    if a.len() != b.len() {
        return false;
    }
    let mut i: usize = 0;
    while i < a.len()
        invariant
            a.len() == b.len(),
            i <= a.len(),
            forall|j: int| 0 <= j < i ==> a@[j] == b@[j],
        decreases a.len() - i,
    {
        if a[i] != b[i] {
            return false;
        }
        i += 1;
    }
    assert(a@ =~= b@);
    true
}

} // verus!
