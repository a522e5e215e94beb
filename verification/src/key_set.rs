//! The keys that expire at one time: a list in which no key occurs twice.

use vstd::prelude::*;
use crate::bytes::same_bytes;

verus! {

/// The byte strings that a list of buffers holds.
pub open spec fn key_views(keys: Seq<Vec<u8>>) -> Seq<Seq<u8>> {
    Seq::new(keys.len(), |i: int| keys[i]@)
}

/// The number of the keys, and the length of each, can be written in eight
/// bytes: no machine holds a list of which this fails.
pub open spec fn has_short_lengths(keys: Seq<Seq<u8>>) -> bool {
    &&& keys.len() <= u64::MAX
    &&& forall|i: int| 0 <= i < keys.len() ==> (#[trigger] keys[i]).len() <= u64::MAX
}

/// `keys` with `key` at its end, unless it is in it already.
pub open spec fn with_key(keys: Seq<Seq<u8>>, key: Seq<u8>) -> Seq<Seq<u8>> {
    if keys.contains(key) {
        keys
    } else {
        keys.push(key)
    }
}

/// `keys` without `key`, the others in their order.
pub open spec fn without_key(keys: Seq<Seq<u8>>, key: Seq<u8>) -> Seq<Seq<u8>> {
    if keys.contains(key) {
        keys.remove(keys.index_of(key))
    } else {
        keys
    }
}

/// `keys` with each key kept where it first occurs, and nowhere else.
pub open spec fn distinct(keys: Seq<Seq<u8>>) -> Seq<Seq<u8>>
    decreases keys.len(),
{
    if keys.len() == 0 {
        keys
    } else {
        with_key(distinct(keys.drop_last()), keys.last())
    }
}

/// Adding a key keeps the list free of repeats, and adds that key and no other.
pub proof fn lemma_with_key(keys: Seq<Seq<u8>>, key: Seq<u8>)
    requires
        keys.no_duplicates(),
    ensures
        with_key(keys, key).no_duplicates(),
        forall|other: Seq<u8>| #[trigger]
            with_key(keys, key).contains(other) <==> other == key || keys.contains(other),
{
    let added = with_key(keys, key);
    assert forall|other: Seq<u8>| #[trigger] added.contains(other) <==> other == key || keys.contains(
        other,
    ) by {
        if keys.contains(key) {
        } else {
            if added.contains(other) {
                let i = choose|i: int| 0 <= i < added.len() && added[i] == other;
                if i < keys.len() {
                    assert(keys[i] == other);
                }
            }
            if keys.contains(other) {
                let i = choose|i: int| 0 <= i < keys.len() && keys[i] == other;
                assert(added[i] == other);
            }
            if other == key {
                assert(added[keys.len() as int] == key);
            }
        }
    }
}

/// A list with room for one more key stays short when a short key joins it.
pub proof fn lemma_with_key_stays_short(keys: Seq<Seq<u8>>, key: Seq<u8>)
    requires
        has_short_lengths(keys),
        keys.len() < u64::MAX,
        key.len() <= u64::MAX,
    ensures
        has_short_lengths(with_key(keys, key)),
{
    let added = with_key(keys, key);
    assert forall|i: int| 0 <= i < added.len() implies (#[trigger] added[i]).len() <= u64::MAX by {
        if i < keys.len() {
            assert(added[i] == keys[i]);
        }
    }
}

/// A list without repeats is kept as it is.
pub proof fn lemma_distinct_keeps(keys: Seq<Seq<u8>>)
    requires
        keys.no_duplicates(),
    ensures
        distinct(keys) == keys,
    decreases keys.len(),
{
    if keys.len() > 0 {
        let front = keys.drop_last();
        lemma_distinct_keeps(front);
        if front.contains(keys.last()) {
            let i = front.index_of(keys.last());
            assert(keys[i] == keys[keys.len() - 1]);
        }
        assert(front.push(keys.last()) =~= keys);
    }
}

/// Taking a key out keeps the list free of repeats, and takes out that key and no
/// other.
pub proof fn lemma_without_key(keys: Seq<Seq<u8>>, key: Seq<u8>)
    requires
        keys.no_duplicates(),
    ensures
        without_key(keys, key).no_duplicates(),
        forall|other: Seq<u8>| #[trigger]
            without_key(keys, key).contains(other) <==> other != key && keys.contains(other),
{
    let left = without_key(keys, key);
    if keys.contains(key) {
        let at = keys.index_of(key);
        assert(0 <= at < keys.len() && keys[at] == key);
        assert forall|other: Seq<u8>| #[trigger]
            left.contains(other) <==> other != key && keys.contains(other) by {
            if left.contains(other) {
                let i = choose|i: int| 0 <= i < left.len() && left[i] == other;
                if i < at {
                    assert(keys[i] == other);
                } else {
                    assert(keys[i + 1] == other);
                }
            }
            if other != key && keys.contains(other) {
                let i = choose|i: int| 0 <= i < keys.len() && keys[i] == other;
                if i < at {
                    assert(left[i] == other);
                } else {
                    assert(left[i - 1] == other);
                }
            }
        }
    }
}

/// A set of keys, kept in the order in which they came.
#[derive(Debug)]
pub struct KeySet {
    keys: Vec<Vec<u8>>,
}

impl View for KeySet {
    type V = Seq<Seq<u8>>;

    closed spec fn view(&self) -> Seq<Seq<u8>> {
        key_views(self.keys@)
    }
}

impl KeySet {
    /// No key occurs twice. Every `KeySet` that a program holds is valid.
    #[verifier::type_invariant]
    pub open spec fn is_valid(self) -> bool {
        self@.no_duplicates()
    }

    /// The empty set.
    pub fn new() -> (r: KeySet)
        ensures
            r@ == Seq::<Seq<u8>>::empty(),
    {
        let r = KeySet { keys: Vec::new() };
        assert(r@ =~= Seq::<Seq<u8>>::empty());
        r
    }

    /// The keys of `keys`, each kept where it first occurs.
    pub fn from_keys(keys: Vec<Vec<u8>>) -> (r: KeySet)
        ensures
            r@ == distinct(key_views(keys@)),
    {
        let ghost all = key_views(keys@);
        let mut r = KeySet::new();
        let mut keys = keys;
        let mut rest: Vec<Vec<u8>> = Vec::new();
        // Take the keys from the back, so that each can be moved out in turn.
        while keys.len() > 0
            invariant
                keys@.len() + rest@.len() == all.len(),
                forall|i: int| 0 <= i < keys@.len() ==> keys@[i]@ == all[i],
                forall|i: int| 0 <= i < rest@.len() ==> rest@[i]@ == all[all.len() - 1 - i],
            decreases keys@.len(),
        {
            let key = keys.pop().unwrap();
            rest.push(key);
        }
        assert(distinct(all.subrange(0, 0)) =~= Seq::<Seq<u8>>::empty());
        while rest.len() > 0
            invariant
                rest@.len() <= all.len(),
                forall|i: int| 0 <= i < rest@.len() ==> rest@[i]@ == all[all.len() - 1 - i],
                r@ == distinct(all.subrange(0, all.len() - rest@.len())),
            decreases rest@.len(),
        {
            let ghost done = all.len() - rest@.len();
            let key = rest.pop().unwrap();
            assert(key@ == all[done as int]);
            assert(all.subrange(0, done + 1).drop_last() =~= all.subrange(0, done as int));
            r.insert(key);
        }
        assert(all.subrange(0, all.len() as int) =~= all);
        r
    }

    /// Whether `key` is in the set.
    pub fn contains(&self, key: &[u8]) -> (r: bool)
        ensures
            r == self@.contains(key@),
    {
        self.position(key).is_some()
    }

    fn position(&self, key: &[u8]) -> (r: Option<usize>)
        ensures
            match r {
                Some(at) => at < self@.len() && self@[at as int] == key@,
                None => !self@.contains(key@),
            },
    {
        let mut i: usize = 0;
        while i < self.keys.len()
            invariant
                i <= self.keys@.len(),
                forall|j: int| 0 <= j < i ==> self@[j] != key@,
            decreases self.keys@.len() - i,
        {
            if same_bytes(self.keys[i].as_slice(), key) {
                return Some(i);
            }
            i += 1;
        }
        None
    }

    /// Adds `key`, unless it is in the set already.
    pub fn insert(&mut self, key: Vec<u8>)
        ensures
            final(self)@ == with_key(old(self)@, key@),
    {
        proof {
            use_type_invariant(&*self);
            lemma_with_key(self@, key@);
        }
        if self.position(key.as_slice()).is_none() {
            let ghost before = self@;
            let mut taken = KeySet::new();
            std::mem::swap(self, &mut taken);
            let mut keys = taken.keys;
            keys.push(key);
            assert(key_views(keys@) =~= before.push(key@));
            *self = KeySet { keys };
        }
    }

    /// Takes `key` out of the set, if it is in it.
    pub fn remove(&mut self, key: &[u8])
        ensures
            final(self)@ == without_key(old(self)@, key@),
    {
        proof {
            use_type_invariant(&*self);
            lemma_without_key(self@, key@);
        }
        match self.position(key) {
            Some(at) => {
                let ghost before = self@;
                assert(before.index_of(key@) == at) by {
                    let found = before.index_of(key@);
                    assert(before.contains(key@));
                    assert(0 <= found < before.len() && before[found] == key@);
                }
                let mut taken = KeySet::new();
                std::mem::swap(self, &mut taken);
                let mut keys = taken.keys;
                let _ = keys.remove(at);
                assert(key_views(keys@) =~= before.remove(at as int));
                *self = KeySet { keys };
            },
            None => {},
        }
    }

    /// Whether the set holds no key.
    pub fn is_empty(&self) -> (r: bool)
        ensures
            r == (self@.len() == 0),
    {
        self.keys.len() == 0
    }

    /// The number of keys.
    pub fn len(&self) -> (r: usize)
        ensures
            r == self@.len(),
    {
        self.keys.len()
    }

    /// The keys, in the order in which they came.
    pub fn into_keys(self) -> (r: Vec<Vec<u8>>)
        ensures
            key_views(r@) == self@,
    {
        self.keys
    }

    /// The keys, in the order in which they came.
    pub fn as_keys(&self) -> (r: &Vec<Vec<u8>>)
        ensures
            key_views(r@) == self@,
    {
        &self.keys
    }

    /// The key at `index`.
    pub fn key(&self, index: usize) -> (r: &Vec<u8>)
        requires
            index < self@.len(),
        ensures
            r@ == self@[index as int],
    {
        &self.keys[index]
    }
}

} // verus!
