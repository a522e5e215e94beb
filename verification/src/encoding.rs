//! How values become bytes and bytes become values.

use vstd::bytes::{
    lemma_auto_spec_u64_to_from_le_bytes, spec_u64_from_le_bytes, spec_u64_to_le_bytes,
};
use vstd::prelude::*;
use crate::error::TreeError;
use crate::key_set::{distinct, has_short_lengths, key_views, lemma_distinct_keeps, KeySet};
use crate::time::{Timestamp, MAX_SECONDS, MIN_SECONDS, NANOS_PER_SECOND};

verus! {

/// A way to store values of type `T` as bytes.
///
/// An encoding writes and reads by the value alone: `encoding` and `decoding` say
/// which bytes a value gives and which value bytes give, and where either fails.
pub trait Encoding<T: View>: Sized {
    /// The bytes that a value is written as, or `None` where it cannot be written.
    spec fn encoding(value: T::V) -> Option<Seq<u8>>;

    /// The value that bytes are read as, or `None` where they cannot be read.
    spec fn decoding(bytes: Seq<u8>) -> Option<T::V>;

    /// Writes a value as bytes.
    fn encode(t: &T) -> (r: Result<Vec<u8>, TreeError>)
        ensures
            match r {
                Ok(bytes) => Self::encoding(t@) == Some(bytes@),
                Err(e) => Self::encoding(t@) is None && !e.is_engine(),
            },
    ;

    /// Reads a value from bytes.
    fn decode(slice: &[u8]) -> (r: Result<T, TreeError>)
        ensures
            match r {
                Ok(t) => Self::decoding(slice@) == Some(t@),
                Err(e) => Self::decoding(slice@) is None && !e.is_engine(),
            },
    ;
}

/// Whatever `E` writes, it reads back as the value that was written.
pub open spec fn round_trips<T: View, E: Encoding<T>>() -> bool {
    forall|value: T::V| #[trigger]
        E::encoding(value) is Some ==> E::decoding(E::encoding(value).unwrap()) == Some(value)
}

/// What a stored entry reads as: `None` where nothing is stored, and where what is
/// stored cannot be read.
pub open spec fn stored<T: View, E: Encoding<T>>(raw: Option<Seq<u8>>) -> Option<T::V> {
    match raw {
        Some(bytes) => E::decoding(bytes),
        None => None,
    }
}

/// What an optional value is written as: `None` for no value, and for a value that
/// cannot be written.
pub open spec fn written<T: View, E: Encoding<T>>(value: Option<T::V>) -> Option<Seq<u8>> {
    match value {
        Some(v) => E::encoding(v),
        None => None,
    }
}

/// The view of an optional value.
pub open spec fn view_of<T: View>(value: Option<T>) -> Option<T::V> {
    match value {
        Some(v) => Some(v@),
        None => None,
    }
}

/// The encoding of values that are bytes already: they are stored as they are.
#[derive(Clone, Debug, Default)]
pub struct PlainEncoding;

/// An encoding of expiry times and key sets with bincode.
#[derive(Clone, Debug, Default)]
pub struct BincodeEncoding;

/// An encoding of expiry times and key sets as CBOR.
#[derive(Clone, Debug, Default)]
pub struct CborEncoding;

/// An encoding of expiry times and key sets as JSON.
#[derive(Clone, Debug, Default)]
pub struct JsonEncoding;

impl Encoding<Vec<u8>> for PlainEncoding {
    open spec fn encoding(value: Seq<u8>) -> Option<Seq<u8>> {
        Some(value)
    }

    open spec fn decoding(bytes: Seq<u8>) -> Option<Seq<u8>> {
        Some(bytes)
    }

    fn encode(t: &Vec<u8>) -> (r: Result<Vec<u8>, TreeError>) {
        Ok(vstd::slice::slice_to_vec(t.as_slice()))
    }

    fn decode(slice: &[u8]) -> (r: Result<Vec<u8>, TreeError>) {
        Ok(vstd::slice::slice_to_vec(slice))
    }
}

/// The plain encoding reads back what it wrote.
pub proof fn lemma_plain_round_trips()
    ensures
        round_trips::<Vec<u8>, PlainEncoding>(),
{
}

/// The JSON text of an instant, as serde_json writes a chrono `DateTime<Utc>`.
pub uninterp spec fn json_of_instant(secs: i64, nanos: u32) -> Option<Seq<u8>>;

/// The instant that serde_json reads from JSON text as a chrono `DateTime<Utc>`.
pub uninterp spec fn instant_of_json(bytes: Seq<u8>) -> Option<(i64, u32)>;

/// The JSON text of a list of keys, as serde_json writes a `Vec<Vec<u8>>`.
pub uninterp spec fn json_of_keys(keys: Seq<Seq<u8>>) -> Option<Seq<u8>>;

/// The list of keys that serde_json reads from JSON text as a `Vec<Vec<u8>>`.
pub uninterp spec fn keys_of_json(bytes: Seq<u8>) -> Option<Seq<Seq<u8>>>;

/// The CBOR bytes of an instant, as serde_cbor writes a chrono `DateTime<Utc>`.
pub uninterp spec fn cbor_of_instant(secs: i64, nanos: u32) -> Option<Seq<u8>>;

/// The instant that serde_cbor reads from CBOR bytes as a chrono `DateTime<Utc>`.
pub uninterp spec fn instant_of_cbor(bytes: Seq<u8>) -> Option<(i64, u32)>;

/// The CBOR bytes of a list of keys, as serde_cbor writes a `Vec<Vec<u8>>`.
pub uninterp spec fn cbor_of_keys(keys: Seq<Seq<u8>>) -> Option<Seq<u8>>;

/// The list of keys that serde_cbor reads from CBOR bytes as a `Vec<Vec<u8>>`.
pub uninterp spec fn keys_of_cbor(bytes: Seq<u8>) -> Option<Seq<Seq<u8>>>;

/// The bytes of an instant, as bincode writes a chrono `DateTime<Utc>`.
pub uninterp spec fn bincode_of_instant(secs: i64, nanos: u32) -> Option<Seq<u8>>;

/// The instant that bincode reads from bytes as a chrono `DateTime<Utc>`.
pub uninterp spec fn instant_of_bincode(bytes: Seq<u8>) -> Option<(i64, u32)>;

/// The eight bytes that bincode writes for a length: the lowest first.
pub open spec fn length_bytes(n: nat) -> Seq<u8> {
    spec_u64_to_le_bytes(n as u64)
}

/// Each key of a list after its length, one behind the other.
pub open spec fn bincode_of_items(keys: Seq<Seq<u8>>) -> Seq<u8>
    decreases keys.len(),
{
    if keys.len() == 0 {
        Seq::empty()
    } else {
        length_bytes(keys[0].len()) + keys[0] + bincode_of_items(keys.drop_first())
    }
}

/// What bincode writes for a list of keys: how many they are, then each key
/// after its length.
pub open spec fn bincode_of_keys(keys: Seq<Seq<u8>>) -> Seq<u8> {
    length_bytes(keys.len()) + bincode_of_items(keys)
}

/// The `count` keys that bincode reads at the start of `bytes`, each after its
/// length, or `None` where the bytes end before the keys do.
pub open spec fn items_of_bincode(bytes: Seq<u8>, count: nat) -> Option<Seq<Seq<u8>>>
    decreases count,
{
    if count == 0 {
        Some(Seq::empty())
    } else if bytes.len() < 8 {
        None
    } else {
        let n = spec_u64_from_le_bytes(bytes.subrange(0, 8)) as int;
        if bytes.len() < 8 + n {
            None
        } else {
            match items_of_bincode(bytes.subrange(8 + n, bytes.len() as int), (count - 1) as nat) {
                Some(rest) => Some(seq![bytes.subrange(8, 8 + n)] + rest),
                None => None,
            }
        }
    }
}

/// The list of keys that bincode reads from bytes: as many keys as the first
/// eight bytes say. Bytes behind the last key are passed over.
pub open spec fn keys_of_bincode(bytes: Seq<u8>) -> Option<Seq<Seq<u8>>> {
    if bytes.len() < 8 {
        None
    } else {
        items_of_bincode(
            bytes.subrange(8, bytes.len() as int),
            spec_u64_from_le_bytes(bytes.subrange(0, 8)) as nat,
        )
    }
}

/// `serde_json::to_vec` on the chrono `DateTime<Utc>` at `secs` and `nanos`:
/// whether it succeeds and what it writes depend on the instant alone.
#[verifier::external_body]
fn json_write_instant(secs: i64, nanos: u32) -> (r: Result<Vec<u8>, serde_json::Error>)
    requires
        MIN_SECONDS <= secs <= MAX_SECONDS,
        nanos < NANOS_PER_SECOND,
    ensures
        match r {
            Ok(bytes) => json_of_instant(secs, nanos) == Some(bytes@),
            Err(_) => json_of_instant(secs, nanos) is None,
        },
{
    serde_json::to_vec(&chrono::DateTime::from_timestamp(secs, nanos).unwrap_or_default())
}

/// `serde_json::from_slice` for a chrono `DateTime<Utc>`, given as seconds and
/// nanoseconds: whether it succeeds and what it reads depend on the bytes alone.
#[verifier::external_body]
fn json_read_instant(bytes: &[u8]) -> (r: Result<(i64, u32), serde_json::Error>)
    ensures
        match r {
            Ok(instant) => instant_of_json(bytes@) == Some(instant),
            Err(_) => instant_of_json(bytes@) is None,
        },
{
    serde_json::from_slice::<chrono::DateTime<chrono::Utc>>(bytes).map(
        |t| (t.timestamp(), t.timestamp_subsec_nanos()),
    )
}

/// `serde_json::to_vec` on a list of keys: whether it succeeds and what it writes
/// depend on the keys alone.
#[verifier::external_body]
fn json_write_keys(keys: &Vec<Vec<u8>>) -> (r: Result<Vec<u8>, serde_json::Error>)
    ensures
        match r {
            Ok(bytes) => json_of_keys(key_views(keys@)) == Some(bytes@),
            Err(_) => json_of_keys(key_views(keys@)) is None,
        },
{
    serde_json::to_vec(keys)
}

/// `serde_json::from_slice` for a list of keys: whether it succeeds and what it
/// reads depend on the bytes alone.
#[verifier::external_body]
fn json_read_keys(bytes: &[u8]) -> (r: Result<Vec<Vec<u8>>, serde_json::Error>)
    ensures
        match r {
            Ok(keys) => keys_of_json(bytes@) == Some(key_views(keys@)),
            Err(_) => keys_of_json(bytes@) is None,
        },
{
    serde_json::from_slice::<Vec<Vec<u8>>>(bytes)
}

/// `serde_cbor::to_vec` on the chrono `DateTime<Utc>` at `secs` and `nanos`:
/// whether it succeeds and what it writes depend on the instant alone.
#[verifier::external_body]
fn cbor_write_instant(secs: i64, nanos: u32) -> (r: Result<Vec<u8>, serde_cbor::Error>)
    requires
        MIN_SECONDS <= secs <= MAX_SECONDS,
        nanos < NANOS_PER_SECOND,
    ensures
        match r {
            Ok(bytes) => cbor_of_instant(secs, nanos) == Some(bytes@),
            Err(_) => cbor_of_instant(secs, nanos) is None,
        },
{
    serde_cbor::to_vec(&chrono::DateTime::from_timestamp(secs, nanos).unwrap_or_default())
}

/// `serde_cbor::from_slice` for a chrono `DateTime<Utc>`, given as seconds and
/// nanoseconds: whether it succeeds and what it reads depend on the bytes alone.
#[verifier::external_body]
fn cbor_read_instant(bytes: &[u8]) -> (r: Result<(i64, u32), serde_cbor::Error>)
    ensures
        match r {
            Ok(instant) => instant_of_cbor(bytes@) == Some(instant),
            Err(_) => instant_of_cbor(bytes@) is None,
        },
{
    serde_cbor::from_slice::<chrono::DateTime<chrono::Utc>>(bytes).map(
        |t| (t.timestamp(), t.timestamp_subsec_nanos()),
    )
}

/// `serde_cbor::to_vec` on a list of keys: whether it succeeds and what it writes
/// depend on the keys alone.
#[verifier::external_body]
fn cbor_write_keys(keys: &Vec<Vec<u8>>) -> (r: Result<Vec<u8>, serde_cbor::Error>)
    ensures
        match r {
            Ok(bytes) => cbor_of_keys(key_views(keys@)) == Some(bytes@),
            Err(_) => cbor_of_keys(key_views(keys@)) is None,
        },
{
    serde_cbor::to_vec(keys)
}

/// `serde_cbor::from_slice` for a list of keys: whether it succeeds and what it
/// reads depend on the bytes alone.
#[verifier::external_body]
fn cbor_read_keys(bytes: &[u8]) -> (r: Result<Vec<Vec<u8>>, serde_cbor::Error>)
    ensures
        match r {
            Ok(keys) => keys_of_cbor(bytes@) == Some(key_views(keys@)),
            Err(_) => keys_of_cbor(bytes@) is None,
        },
{
    serde_cbor::from_slice::<Vec<Vec<u8>>>(bytes)
}

/// `bincode::serialize` on the chrono `DateTime<Utc>` at `secs` and `nanos`:
/// whether it succeeds and what it writes depend on the instant alone.
#[verifier::external_body]
fn bincode_write_instant(secs: i64, nanos: u32) -> (r: Result<Vec<u8>, Box<bincode::ErrorKind>>)
    requires
        MIN_SECONDS <= secs <= MAX_SECONDS,
        nanos < NANOS_PER_SECOND,
    ensures
        match r {
            Ok(bytes) => bincode_of_instant(secs, nanos) == Some(bytes@),
            Err(_) => bincode_of_instant(secs, nanos) is None,
        },
{
    bincode::serialize(&chrono::DateTime::from_timestamp(secs, nanos).unwrap_or_default())
}

/// `bincode::deserialize` for a chrono `DateTime<Utc>`, given as seconds and
/// nanoseconds: whether it succeeds and what it reads depend on the bytes alone.
#[verifier::external_body]
fn bincode_read_instant(bytes: &[u8]) -> (r: Result<(i64, u32), Box<bincode::ErrorKind>>)
    ensures
        match r {
            Ok(instant) => instant_of_bincode(bytes@) == Some(instant),
            Err(_) => instant_of_bincode(bytes@) is None,
        },
{
    bincode::deserialize::<chrono::DateTime<chrono::Utc>>(bytes).map(
        |t| (t.timestamp(), t.timestamp_subsec_nanos()),
    )
}

/// `bincode::serialize` on a list of keys. It writes the number of the keys in
/// eight bytes, the lowest first, and then each key after its length, written
/// the same way. It succeeds: it sets no limit to what it writes, every list
/// knows its length, and it writes into memory.
#[verifier::external_body]
fn bincode_write_keys(keys: &Vec<Vec<u8>>) -> (r: Result<Vec<u8>, Box<bincode::ErrorKind>>)
    ensures
        r is Ok,
        r matches Ok(bytes) ==> bytes@ == bincode_of_keys(key_views(keys@)),
{
    bincode::serialize(keys)
}

/// `bincode::deserialize` for a list of keys. It reads the number of the keys
/// from eight bytes, the lowest first, and then each key after its length, read
/// the same way. It fails where the bytes end before the keys do, and passes
/// over what follows the last key.
#[verifier::external_body]
fn bincode_read_keys(bytes: &[u8]) -> (r: Result<Vec<Vec<u8>>, Box<bincode::ErrorKind>>)
    ensures
        match r {
            Ok(keys) => keys_of_bincode(bytes@) == Some(key_views(keys@)),
            Err(_) => keys_of_bincode(bytes@) is None,
        },
{
    bincode::deserialize::<Vec<Vec<u8>>>(bytes)
}

/// Bincode reads a list of keys back from what it wrote for it, whatever
/// follows.
pub proof fn lemma_bincode_reads_its_items(keys: Seq<Seq<u8>>, behind: Seq<u8>)
    requires
        has_short_lengths(keys),
    ensures
        items_of_bincode(bincode_of_items(keys) + behind, keys.len()) == Some(keys),
    decreases keys.len(),
{
    if keys.len() > 0 {
        let first = keys[0];
        let others = keys.drop_first();
        let bytes = bincode_of_items(keys) + behind;
        let n = first.len() as int;
        lemma_auto_spec_u64_to_from_le_bytes();
        assert(length_bytes(first.len()).len() == 8);
        assert(bytes.subrange(0, 8) =~= length_bytes(first.len()));
        assert(spec_u64_from_le_bytes(bytes.subrange(0, 8)) == first.len());
        assert(bytes.subrange(8, 8 + n) =~= first);
        assert(bytes.subrange(8 + n, bytes.len() as int) =~= bincode_of_items(others) + behind);
        assert(has_short_lengths(others)) by {
            assert forall|i: int| 0 <= i < others.len() implies (#[trigger] others[i]).len()
                <= u64::MAX by {
                assert(others[i] == keys[i + 1]);
            }
        }
        lemma_bincode_reads_its_items(others, behind);
        assert(seq![first] + others =~= keys);
    } else {
        assert(keys =~= Seq::<Seq<u8>>::empty());
    }
}

/// Bincode reads a list of keys back from what it wrote for it.
pub proof fn lemma_bincode_reads_its_keys(keys: Seq<Seq<u8>>)
    requires
        has_short_lengths(keys),
    ensures
        keys_of_bincode(bincode_of_keys(keys)) == Some(keys),
{
    let bytes = bincode_of_keys(keys);
    lemma_auto_spec_u64_to_from_le_bytes();
    assert(length_bytes(keys.len()).len() == 8);
    assert(bytes.subrange(0, 8) =~= length_bytes(keys.len()));
    assert(bytes.subrange(8, bytes.len() as int) =~= bincode_of_items(keys) + Seq::<u8>::empty());
    lemma_bincode_reads_its_items(keys, Seq::empty());
}

/// Bincode writes every set of keys whose lengths can be written in eight bytes,
/// and a set of keys that it wrote is read back as it was.
pub proof fn lemma_bincode_key_sets_round_trip()
    ensures
        round_trips::<KeySet, BincodeEncoding>(),
        forall|keys: Seq<Seq<u8>>|
            keys.no_duplicates() && has_short_lengths(keys) ==> (#[trigger] <
                BincodeEncoding as Encoding<KeySet>
            >::encoding(keys)) is Some,
{
    assert forall|value: Seq<Seq<u8>>|
        value.no_duplicates() && has_short_lengths(value) implies keys_read(
        keys_of_bincode(#[trigger] bincode_of_keys(value)),
    ) == Some(value) by {
        lemma_bincode_reads_its_keys(value);
        lemma_distinct_keeps(value);
    }
}

/// The instant that was read, brought into the range of a `Timestamp`.
pub open spec fn instant_read(read: Option<(i64, u32)>) -> Option<Timestamp> {
    match read {
        Some((secs, nanos)) => Some(Timestamp::nearest(secs, nanos)),
        None => None,
    }
}

/// The keys that were read, each kept once.
pub open spec fn keys_read(read: Option<Seq<Seq<u8>>>) -> Option<Seq<Seq<u8>>> {
    match read {
        Some(keys) => Some(distinct(keys)),
        None => None,
    }
}

impl Encoding<Timestamp> for JsonEncoding {
    open spec fn encoding(value: Timestamp) -> Option<Seq<u8>> {
        if value.is_valid() {
            json_of_instant(value.secs(), value.nanos())
        } else {
            None
        }
    }

    open spec fn decoding(bytes: Seq<u8>) -> Option<Timestamp> {
        instant_read(instant_of_json(bytes))
    }

    fn encode(t: &Timestamp) -> (r: Result<Vec<u8>, TreeError>) {
        proof {
            use_type_invariant(t);
        }
        match json_write_instant(t.seconds(), t.subsec_nanos()) {
            Ok(bytes) => Ok(bytes),
            Err(e) => Err(TreeError::JsonSerialize(e)),
        }
    }

    fn decode(slice: &[u8]) -> (r: Result<Timestamp, TreeError>) {
        match json_read_instant(slice) {
            Ok((secs, nanos)) => Ok(Timestamp::new(secs, nanos)),
            Err(e) => Err(TreeError::JsonDeserialize(e)),
        }
    }
}

impl Encoding<KeySet> for JsonEncoding {
    open spec fn encoding(value: Seq<Seq<u8>>) -> Option<Seq<u8>> {
        if value.no_duplicates() {
            json_of_keys(value)
        } else {
            None
        }
    }

    open spec fn decoding(bytes: Seq<u8>) -> Option<Seq<Seq<u8>>> {
        keys_read(keys_of_json(bytes))
    }

    fn encode(t: &KeySet) -> (r: Result<Vec<u8>, TreeError>) {
        proof {
            use_type_invariant(t);
        }
        match json_write_keys(t.as_keys()) {
            Ok(bytes) => Ok(bytes),
            Err(e) => Err(TreeError::JsonSerialize(e)),
        }
    }

    fn decode(slice: &[u8]) -> (r: Result<KeySet, TreeError>) {
        match json_read_keys(slice) {
            Ok(keys) => Ok(KeySet::from_keys(keys)),
            Err(e) => Err(TreeError::JsonDeserialize(e)),
        }
    }
}

impl Encoding<Timestamp> for CborEncoding {
    open spec fn encoding(value: Timestamp) -> Option<Seq<u8>> {
        if value.is_valid() {
            cbor_of_instant(value.secs(), value.nanos())
        } else {
            None
        }
    }

    open spec fn decoding(bytes: Seq<u8>) -> Option<Timestamp> {
        instant_read(instant_of_cbor(bytes))
    }

    fn encode(t: &Timestamp) -> (r: Result<Vec<u8>, TreeError>) {
        proof {
            use_type_invariant(t);
        }
        match cbor_write_instant(t.seconds(), t.subsec_nanos()) {
            Ok(bytes) => Ok(bytes),
            Err(e) => Err(TreeError::CborSerialize(e)),
        }
    }

    fn decode(slice: &[u8]) -> (r: Result<Timestamp, TreeError>) {
        match cbor_read_instant(slice) {
            Ok((secs, nanos)) => Ok(Timestamp::new(secs, nanos)),
            Err(e) => Err(TreeError::CborDeserialize(e)),
        }
    }
}

impl Encoding<KeySet> for CborEncoding {
    open spec fn encoding(value: Seq<Seq<u8>>) -> Option<Seq<u8>> {
        if value.no_duplicates() {
            cbor_of_keys(value)
        } else {
            None
        }
    }

    open spec fn decoding(bytes: Seq<u8>) -> Option<Seq<Seq<u8>>> {
        keys_read(keys_of_cbor(bytes))
    }

    fn encode(t: &KeySet) -> (r: Result<Vec<u8>, TreeError>) {
        proof {
            use_type_invariant(t);
        }
        match cbor_write_keys(t.as_keys()) {
            Ok(bytes) => Ok(bytes),
            Err(e) => Err(TreeError::CborSerialize(e)),
        }
    }

    fn decode(slice: &[u8]) -> (r: Result<KeySet, TreeError>) {
        match cbor_read_keys(slice) {
            Ok(keys) => Ok(KeySet::from_keys(keys)),
            Err(e) => Err(TreeError::CborDeserialize(e)),
        }
    }
}

impl Encoding<Timestamp> for BincodeEncoding {
    open spec fn encoding(value: Timestamp) -> Option<Seq<u8>> {
        if value.is_valid() {
            bincode_of_instant(value.secs(), value.nanos())
        } else {
            None
        }
    }

    open spec fn decoding(bytes: Seq<u8>) -> Option<Timestamp> {
        instant_read(instant_of_bincode(bytes))
    }

    fn encode(t: &Timestamp) -> (r: Result<Vec<u8>, TreeError>) {
        proof {
            use_type_invariant(t);
        }
        match bincode_write_instant(t.seconds(), t.subsec_nanos()) {
            Ok(bytes) => Ok(bytes),
            Err(e) => Err(TreeError::BincodeSerialize(e)),
        }
    }

    fn decode(slice: &[u8]) -> (r: Result<Timestamp, TreeError>) {
        match bincode_read_instant(slice) {
            Ok((secs, nanos)) => Ok(Timestamp::new(secs, nanos)),
            Err(e) => Err(TreeError::BincodeDeserialize(e)),
        }
    }
}

impl Encoding<KeySet> for BincodeEncoding {
    open spec fn encoding(value: Seq<Seq<u8>>) -> Option<Seq<u8>> {
        if value.no_duplicates() && has_short_lengths(value) {
            Some(bincode_of_keys(value))
        } else {
            None
        }
    }

    open spec fn decoding(bytes: Seq<u8>) -> Option<Seq<Seq<u8>>> {
        keys_read(keys_of_bincode(bytes))
    }

    fn encode(t: &KeySet) -> (r: Result<Vec<u8>, TreeError>) {
        proof {
            use_type_invariant(t);
        }
        let keys = t.as_keys();
        assert(has_short_lengths(key_views(keys@))) by {
            assert(keys.len() == keys@.len());
            assert forall|i: int| 0 <= i < keys@.len() implies (#[trigger] key_views(keys@)[i]).len()
                <= u64::MAX by {
                assert(keys@[i].len() == key_views(keys@)[i].len());
            }
        }
        match bincode_write_keys(keys) {
            Ok(bytes) => Ok(bytes),
            Err(e) => Err(TreeError::BincodeSerialize(e)),
        }
    }

    fn decode(slice: &[u8]) -> (r: Result<KeySet, TreeError>) {
        match bincode_read_keys(slice) {
            Ok(keys) => Ok(KeySet::from_keys(keys)),
            Err(e) => Err(TreeError::BincodeDeserialize(e)),
        }
    }
}

} // verus!
