use sled_extensions::encoding::{
    BincodeEncoding, CborEncoding, Encoding, JsonEncoding, PlainEncoding,
};
use sled_extensions::error::{coerce, TreeError};
use sled_extensions::key_set::KeySet;
use sled_extensions::time::{Duration, Timestamp, MAX_SECONDS, MIN_SECONDS};

fn stamp(secs: i64, nanos: u32) -> Timestamp {
    Timestamp::new(secs, nanos)
}

fn keys(list: &[&[u8]]) -> KeySet {
    let mut set = KeySet::new();
    for key in list {
        set.insert(key.to_vec());
    }
    set
}

#[test]
fn timestamp_keeps_seconds_and_nanos() {
    let t = stamp(1_572_292_560, 123_456_789);
    assert_eq!(t.seconds(), 1_572_292_560);
    assert_eq!(t.subsec_nanos(), 123_456_789);
}

#[test]
fn timestamp_is_brought_into_range() {
    let early = stamp(MIN_SECONDS - 5, 7);
    assert_eq!((early.seconds(), early.subsec_nanos()), (MIN_SECONDS, 0));
    let late = stamp(MAX_SECONDS + 5, 7);
    assert_eq!(
        (late.seconds(), late.subsec_nanos()),
        (MAX_SECONDS, 999_999_999)
    );
    let leap = stamp(59, 1_500_000_000);
    assert_eq!((leap.seconds(), leap.subsec_nanos()), (59, 999_999_999));
    let far = stamp(i64::MAX, u32::MAX);
    assert_eq!(
        (far.seconds(), far.subsec_nanos()),
        (MAX_SECONDS, 999_999_999)
    );
    let back = stamp(i64::MIN, 0);
    assert_eq!((back.seconds(), back.subsec_nanos()), (MIN_SECONDS, 0));
}

#[test]
fn timestamp_text_is_the_utc_date_and_time() {
    assert_eq!(stamp(0, 0).to_text(), b"1970-01-01 00:00:00 UTC".to_vec());
    assert_eq!(
        stamp(1_431_648_000, 0).to_text(),
        b"2015-05-15 00:00:00 UTC".to_vec()
    );
    assert_eq!(
        stamp(1_431_648_000, 500_000_000).to_text(),
        b"2015-05-15 00:00:00.500 UTC".to_vec()
    );
    assert_eq!(
        stamp(MIN_SECONDS, 0).to_text(),
        b"0000-01-01 00:00:00 UTC".to_vec()
    );
    assert_eq!(
        stamp(MAX_SECONDS, 999_999_999).to_text(),
        b"9999-12-31 23:59:59.999999999 UTC".to_vec()
    );
}

#[test]
fn timestamp_texts_sort_as_the_instants() {
    let list = [
        stamp(MIN_SECONDS, 0),
        stamp(-1, 999_999_999),
        stamp(0, 0),
        stamp(0, 1),
        stamp(0, 1_000),
        stamp(0, 500_000_000),
        stamp(0, 500_000_001),
        stamp(0, 500_001_000),
        stamp(1, 0),
        stamp(59, 999_000_000),
        stamp(60, 0),
        stamp(1_431_648_000, 0),
        stamp(1_431_648_000, 120_000_000),
        stamp(MAX_SECONDS, 999_999_999),
    ];
    for i in 0..list.len() {
        for j in 0..list.len() {
            assert_eq!(list[i].is_before(&list[j]), i < j);
            assert_eq!(list[i].to_text() < list[j].to_text(), i < j);
        }
    }
}

#[test]
fn timestamp_plus_moves_by_the_length() {
    let t = stamp(100, 900_000_000);
    let later = t.plus(&Duration::new(5, 200_000_000));
    assert_eq!((later.seconds(), later.subsec_nanos()), (106, 100_000_000));
    let earlier = t.plus(&Duration::new(-101, 0));
    assert_eq!(
        (earlier.seconds(), earlier.subsec_nanos()),
        (-1, 900_000_000)
    );
    let same = t.plus(&Duration::zero());
    assert_eq!((same.seconds(), same.subsec_nanos()), (100, 900_000_000));
    let half_day = t.plus(&Duration::hours(12));
    assert_eq!(
        (half_day.seconds(), half_day.subsec_nanos()),
        (43_300, 900_000_000)
    );
}

#[test]
fn timestamp_plus_stops_at_the_ends() {
    let t = stamp(100, 0);
    let late = t.plus(&Duration::seconds(i64::MAX));
    assert_eq!(
        (late.seconds(), late.subsec_nanos()),
        (MAX_SECONDS, 999_999_999)
    );
    let early = t.plus(&Duration::seconds(i64::MIN));
    assert_eq!((early.seconds(), early.subsec_nanos()), (MIN_SECONDS, 0));
}

#[test]
fn timestamp_now_is_after_2020() {
    let now = Timestamp::now();
    assert!(stamp(1_577_836_800, 0).is_before(&now));
    assert!(now.seconds() <= MAX_SECONDS);
}

#[test]
fn duration_parts() {
    let d = Duration::new(-3, 250);
    assert_eq!((d.whole_seconds(), d.subsec_nanos()), (-3, 250));
    let cut = Duration::new(1, 2_000_000_000);
    assert_eq!((cut.whole_seconds(), cut.subsec_nanos()), (1, 999_999_999));
    assert_eq!(Duration::hours(12).whole_seconds(), 43_200);
    assert_eq!(Duration::hours(-1).whole_seconds(), -3_600);
    assert_eq!(Duration::seconds(7).whole_seconds(), 7);
    assert_eq!(Duration::zero().whole_seconds(), 0);
}

#[test]
fn key_set_keeps_each_key_once_in_order() {
    let mut set = KeySet::new();
    assert!(set.is_empty());
    set.insert(b"b".to_vec());
    set.insert(b"a".to_vec());
    set.insert(b"b".to_vec());
    assert_eq!(set.len(), 2);
    assert!(set.contains(b"a"));
    assert!(set.contains(b"b"));
    assert!(!set.contains(b"c"));
    assert_eq!(set.key(0), &b"b".to_vec());
    assert_eq!(set.as_keys(), &vec![b"b".to_vec(), b"a".to_vec()]);
    set.remove(b"b");
    set.remove(b"zz");
    assert_eq!(set.into_keys(), vec![b"a".to_vec()]);
}

#[test]
fn key_set_from_keys_drops_repeats() {
    let set = KeySet::from_keys(vec![
        b"x".to_vec(),
        b"y".to_vec(),
        b"x".to_vec(),
        vec![],
        b"y".to_vec(),
        vec![],
    ]);
    assert_eq!(set.into_keys(), vec![b"x".to_vec(), b"y".to_vec(), vec![]]);
}

#[test]
fn coerce_turns_the_result_inside_out() {
    assert!(matches!(coerce::<u8>(None), Ok(None)));
    assert!(matches!(coerce(Some(Ok(5u8))), Ok(Some(5))));
    let failed = coerce::<u8>(Some(Err(TreeError::custom("no".to_string()))));
    assert!(matches!(failed, Err(TreeError::Custom(message)) if message == "no"));
}

#[test]
fn plain_encoding_round_trips() {
    for value in [vec![], vec![0u8], vec![1, 2, 3, 255]] {
        let bytes = PlainEncoding::encode(&value).unwrap();
        assert_eq!(bytes, value);
        let back: Vec<u8> = PlainEncoding::decode(&bytes).unwrap();
        assert_eq!(back, value);
    }
}

fn instants() -> Vec<Timestamp> {
    vec![
        stamp(MIN_SECONDS, 0),
        stamp(-1, 1),
        stamp(0, 0),
        stamp(1_572_292_560, 123_456_789),
        stamp(1_572_292_560, 120_000_000),
        stamp(MAX_SECONDS, 999_999_999),
    ]
}

fn key_sets() -> Vec<KeySet> {
    vec![
        keys(&[]),
        keys(&[b"a"]),
        keys(&[b"b", b"a", b""]),
        keys(&[&[0, 255, 7], &[255]]),
    ]
}

#[test]
fn json_encoding_round_trips() {
    for t in instants() {
        let bytes = <JsonEncoding as Encoding<Timestamp>>::encode(&t).unwrap();
        let back: Timestamp = JsonEncoding::decode(&bytes).unwrap();
        assert_eq!(
            (back.seconds(), back.subsec_nanos()),
            (t.seconds(), t.subsec_nanos())
        );
    }
    for set in key_sets() {
        let bytes = <JsonEncoding as Encoding<KeySet>>::encode(&set).unwrap();
        let back: KeySet = JsonEncoding::decode(&bytes).unwrap();
        assert_eq!(back.as_keys(), set.as_keys());
    }
}

#[test]
fn json_encoding_writes_json() {
    let bytes = <JsonEncoding as Encoding<Timestamp>>::encode(&stamp(0, 0)).unwrap();
    assert_eq!(bytes, b"\"1970-01-01T00:00:00Z\"".to_vec());
    let bytes = <JsonEncoding as Encoding<KeySet>>::encode(&keys(&[b"a", b"bc"])).unwrap();
    assert_eq!(bytes, b"[[97],[98,99]]".to_vec());
}

#[test]
fn json_encoding_reads_repeated_keys_once() {
    let back: KeySet = JsonEncoding::decode(b"[[1],[2],[1]]").unwrap();
    assert_eq!(back.into_keys(), vec![vec![1u8], vec![2u8]]);
}

#[test]
fn json_encoding_refuses_what_is_not_json() {
    let time: Result<Timestamp, TreeError> = JsonEncoding::decode(b"not json");
    assert!(matches!(time, Err(TreeError::JsonDeserialize(_))));
    let set: Result<KeySet, TreeError> = JsonEncoding::decode(b"{\"a\":1}");
    assert!(matches!(set, Err(TreeError::JsonDeserialize(_))));
}

#[test]
fn cbor_encoding_round_trips() {
    for t in instants() {
        let bytes = <CborEncoding as Encoding<Timestamp>>::encode(&t).unwrap();
        let back: Timestamp = CborEncoding::decode(&bytes).unwrap();
        assert_eq!(
            (back.seconds(), back.subsec_nanos()),
            (t.seconds(), t.subsec_nanos())
        );
    }
    for set in key_sets() {
        let bytes = <CborEncoding as Encoding<KeySet>>::encode(&set).unwrap();
        let back: KeySet = CborEncoding::decode(&bytes).unwrap();
        assert_eq!(back.as_keys(), set.as_keys());
    }
}

#[test]
fn cbor_encoding_refuses_what_is_not_cbor() {
    let time: Result<Timestamp, TreeError> = CborEncoding::decode(&[0xff, 0xff]);
    assert!(matches!(time, Err(TreeError::CborDeserialize(_))));
    let set: Result<KeySet, TreeError> = CborEncoding::decode(&[0x01]);
    assert!(matches!(set, Err(TreeError::CborDeserialize(_))));
}

#[test]
fn bincode_encoding_round_trips() {
    for t in instants() {
        let bytes = <BincodeEncoding as Encoding<Timestamp>>::encode(&t).unwrap();
        let back: Timestamp = BincodeEncoding::decode(&bytes).unwrap();
        assert_eq!(
            (back.seconds(), back.subsec_nanos()),
            (t.seconds(), t.subsec_nanos())
        );
    }
    for set in key_sets() {
        let bytes = <BincodeEncoding as Encoding<KeySet>>::encode(&set).unwrap();
        let back: KeySet = BincodeEncoding::decode(&bytes).unwrap();
        assert_eq!(back.as_keys(), set.as_keys());
    }
}

#[test]
fn bincode_encoding_refuses_what_is_cut_short() {
    let time: Result<Timestamp, TreeError> = BincodeEncoding::decode(&[1]);
    assert!(matches!(time, Err(TreeError::BincodeDeserialize(_))));
    let set: Result<KeySet, TreeError> = BincodeEncoding::decode(&[9, 0, 0, 0, 0, 0, 0, 0, 1]);
    assert!(matches!(set, Err(TreeError::BincodeDeserialize(_))));
}

#[test]
fn custom_error_keeps_its_message() {
    let e = TreeError::custom("broken".to_string());
    assert!(!e.from_engine());
    assert!(matches!(e, TreeError::Custom(message) if message == "broken"));
}

#[test]
fn bincode_encoding_writes_each_key_after_its_length() {
    let set = keys(&[b"ab", b"", b"c"]);
    let bytes = <BincodeEncoding as Encoding<KeySet>>::encode(&set).unwrap();
    let mut expected: Vec<u8> = vec![3, 0, 0, 0, 0, 0, 0, 0];
    expected.extend_from_slice(&[2, 0, 0, 0, 0, 0, 0, 0, b'a', b'b']);
    expected.extend_from_slice(&[0, 0, 0, 0, 0, 0, 0, 0]);
    expected.extend_from_slice(&[1, 0, 0, 0, 0, 0, 0, 0, b'c']);
    assert_eq!(bytes, expected);
    let none = <BincodeEncoding as Encoding<KeySet>>::encode(&KeySet::new()).unwrap();
    assert_eq!(none, vec![0u8; 8]);
    let long = keys(&[&[7u8; 300]]);
    let bytes = <BincodeEncoding as Encoding<KeySet>>::encode(&long).unwrap();
    assert_eq!(bytes.len(), 8 + 8 + 300);
    assert_eq!(&bytes[8..16], &[44, 1, 0, 0, 0, 0, 0, 0]);
}

#[test]
fn bincode_encoding_reads_as_many_keys_as_the_bytes_say() {
    let mut bytes: Vec<u8> = vec![2, 0, 0, 0, 0, 0, 0, 0];
    bytes.extend_from_slice(&[1, 0, 0, 0, 0, 0, 0, 0, 9]);
    bytes.extend_from_slice(&[2, 0, 0, 0, 0, 0, 0, 0, 8, 7]);
    let read: KeySet = BincodeEncoding::decode(&bytes).unwrap();
    assert_eq!(read.into_keys(), vec![vec![9u8], vec![8u8, 7]]);
    // What follows the last key is passed over.
    bytes.extend_from_slice(&[5, 5, 5]);
    let read: KeySet = BincodeEncoding::decode(&bytes).unwrap();
    assert_eq!(read.into_keys(), vec![vec![9u8], vec![8u8, 7]]);
    // A key that comes twice is kept once.
    let mut twice: Vec<u8> = vec![2, 0, 0, 0, 0, 0, 0, 0];
    twice.extend_from_slice(&[1, 0, 0, 0, 0, 0, 0, 0, 9]);
    twice.extend_from_slice(&[1, 0, 0, 0, 0, 0, 0, 0, 9]);
    let read: KeySet = BincodeEncoding::decode(&twice).unwrap();
    assert_eq!(read.into_keys(), vec![vec![9u8]]);
    // The bytes end before the second key does.
    let short: Result<KeySet, TreeError> = BincodeEncoding::decode(&bytes[..18]);
    assert!(matches!(short, Err(TreeError::BincodeDeserialize(_))));
    let no_count: Result<KeySet, TreeError> = BincodeEncoding::decode(&[0, 0, 0]);
    assert!(matches!(no_count, Err(TreeError::BincodeDeserialize(_))));
    let huge: Result<KeySet, TreeError> = BincodeEncoding::decode(&[255u8; 16]);
    assert!(matches!(huge, Err(TreeError::BincodeDeserialize(_))));
}

#[test]
fn timestamp_plus_is_exact_up_to_the_ends() {
    let last = stamp(MAX_SECONDS - 1, 0).plus(&Duration::new(1, 999_999_999));
    assert_eq!(
        (last.seconds(), last.subsec_nanos()),
        (MAX_SECONDS, 999_999_999)
    );
    let beyond = stamp(MAX_SECONDS, 0).plus(&Duration::seconds(10));
    assert_eq!(
        (beyond.seconds(), beyond.subsec_nanos()),
        (MAX_SECONDS, 999_999_999)
    );
    let first = stamp(MIN_SECONDS, 5).plus(&Duration::new(-1, 999_999_999));
    assert_eq!((first.seconds(), first.subsec_nanos()), (MIN_SECONDS, 4));
    let below = stamp(MIN_SECONDS, 0).plus(&Duration::new(-1, 999_999_999));
    assert_eq!((below.seconds(), below.subsec_nanos()), (MIN_SECONDS, 0));
    let far = stamp(MIN_SECONDS, 0).plus(&Duration::seconds(MAX_SECONDS - MIN_SECONDS));
    assert_eq!((far.seconds(), far.subsec_nanos()), (MAX_SECONDS, 0));
}
