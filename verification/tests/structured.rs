use sled_extensions::bytes::KeyBound;
use sled_extensions::encoding::{JsonEncoding, PlainEncoding};
use sled_extensions::error::TreeError;
use sled_extensions::key_set::KeySet;
use sled_extensions::store::Store;
use sled_extensions::structured_batch::StructuredBatch;
use sled_extensions::structured_tree::{StructuredTree, TransactionError};
use sled_extensions::time::Timestamp;

type Plain = StructuredTree<'static, Vec<u8>, PlainEncoding>;

fn db() -> sled::Db {
    sled::Config::new().temporary(true).open().unwrap()
}

/// A second store on the database, through which a test looks at the trees
/// that the tree under test keeps.
fn onlooker(db: &sled::Db) -> &'static mut Store {
    lend(db)
}

/// A store on the database that lasts as long as the test.
fn lend(db: &sled::Db) -> &'static mut Store {
    Box::leak(Box::new(Store::new(db.clone())))
}

fn plain(name: &str) -> Plain {
    StructuredTree::new(lend(&db()), name).unwrap()
}

fn filled() -> Plain {
    let mut tree = plain("filled");
    for key in [b"b1", b"a1", b"a2", b"c1"] {
        tree.insert(key, key.to_vec()).unwrap();
    }
    tree
}

fn pairs(list: Vec<Result<(Vec<u8>, Vec<u8>), TreeError>>) -> Vec<(Vec<u8>, Vec<u8>)> {
    list.into_iter().map(|item| item.unwrap()).collect()
}

fn pair(key: &[u8]) -> (Vec<u8>, Vec<u8>) {
    (key.to_vec(), key.to_vec())
}

#[test]
fn structured_insert_returns_the_value_before() {
    let mut tree = plain("t");
    assert_eq!(tree.insert(b"k", vec![1]).unwrap(), None);
    assert_eq!(tree.insert(b"k", vec![2]).unwrap(), Some(vec![1]));
    assert_eq!(tree.get(b"k").unwrap(), Some(vec![2]));
    assert_eq!(tree.get(b"other").unwrap(), None);
}

#[test]
fn structured_remove_returns_the_value() {
    let mut tree = plain("t");
    tree.insert(b"k", vec![1]).unwrap();
    assert_eq!(tree.remove(b"k").unwrap(), Some(vec![1]));
    assert_eq!(tree.remove(b"k").unwrap(), None);
    assert_eq!(tree.get(b"k").unwrap(), None);
}

#[test]
fn structured_name_is_kept() {
    let tree = plain("some-name");
    assert_eq!(tree.name(), "some-name");
}

#[test]
fn structured_tree_is_opened_again() {
    let mut store = Store::new(db());
    {
        let mut tree: StructuredTree<Vec<u8>, PlainEncoding> =
            StructuredTree::new(&mut store, "t").unwrap();
        tree.insert(b"k", vec![1]).unwrap();
    }
    {
        let other: StructuredTree<Vec<u8>, PlainEncoding> =
            StructuredTree::new(&mut store, "u").unwrap();
        assert!(other.is_empty());
    }
    let again: StructuredTree<Vec<u8>, PlainEncoding> =
        StructuredTree::new(&mut store, "t").unwrap();
    assert_eq!(again.name(), "t");
    assert_eq!(again.get(b"k").unwrap(), Some(vec![1]));
    assert_eq!(again.len(), 1);
}

#[test]
fn structured_compare_and_swap_creates_changes_and_deletes() {
    let mut tree = plain("t");
    assert!(tree
        .compare_and_swap(b"k", None, Some(vec![10]))
        .unwrap()
        .is_ok());
    assert_eq!(tree.get(b"k").unwrap(), Some(vec![10]));
    assert!(tree
        .compare_and_swap(b"k", Some(vec![10]), Some(vec![20]))
        .unwrap()
        .is_ok());
    assert_eq!(tree.get(b"k").unwrap(), Some(vec![20]));
    let refused = tree
        .compare_and_swap(b"k", Some(vec![30]), Some(vec![40]))
        .unwrap();
    let refused = refused.err().unwrap();
    assert_eq!(refused.current, Some(vec![20]));
    assert_eq!(refused.proposed, Some(vec![40]));
    assert_eq!(tree.get(b"k").unwrap(), Some(vec![20]));
    let refused = tree
        .compare_and_swap(b"k", None, None)
        .unwrap()
        .err()
        .unwrap();
    assert_eq!(refused.current, Some(vec![20]));
    assert_eq!(refused.proposed, None);
    assert!(tree
        .compare_and_swap(b"k", Some(vec![20]), None)
        .unwrap()
        .is_ok());
    assert_eq!(tree.get(b"k").unwrap(), None);
    assert!(tree.compare_and_swap(b"k", None, None).unwrap().is_ok());
}

#[test]
fn structured_update_and_fetch_returns_the_new_value() {
    let mut tree = plain("t");
    let push = |found: Option<Vec<u8>>| {
        let mut value = found.unwrap_or_default();
        value.push(7);
        Some(value)
    };
    assert_eq!(tree.update_and_fetch(b"k", push).unwrap(), Some(vec![7]));
    assert_eq!(tree.update_and_fetch(b"k", push).unwrap(), Some(vec![7, 7]));
    assert_eq!(tree.get(b"k").unwrap(), Some(vec![7, 7]));
    assert_eq!(tree.update_and_fetch(b"k", |_| None).unwrap(), None);
    assert_eq!(tree.get(b"k").unwrap(), None);
}

#[test]
fn structured_fetch_and_update_returns_the_value_before() {
    let mut tree = plain("t");
    let push = |found: Option<Vec<u8>>| {
        let mut value = found.unwrap_or_default();
        value.push(7);
        Some(value)
    };
    assert_eq!(tree.fetch_and_update(b"k", push).unwrap(), None);
    assert_eq!(tree.fetch_and_update(b"k", push).unwrap(), Some(vec![7]));
    assert_eq!(tree.get(b"k").unwrap(), Some(vec![7, 7]));
    assert_eq!(
        tree.fetch_and_update(b"k", |_| None).unwrap(),
        Some(vec![7, 7])
    );
    assert_eq!(tree.get(b"k").unwrap(), None);
}

#[test]
fn structured_contains_len_and_clear() {
    let mut tree = filled();
    assert!(tree.contains_key(b"a1").unwrap());
    assert!(!tree.contains_key(b"a").unwrap());
    assert_eq!(tree.len(), 4);
    assert!(!tree.is_empty());
    tree.flush().unwrap();
    tree.clear().unwrap();
    assert_eq!(tree.len(), 0);
    assert!(tree.is_empty());
    assert!(!tree.contains_key(b"a1").unwrap());
}

#[test]
fn structured_get_lt_and_get_gt_find_the_neighbours() {
    let tree = filled();
    assert_eq!(tree.get_lt(b"a2").unwrap(), Some(pair(b"a1")));
    assert_eq!(tree.get_lt(b"b").unwrap(), Some(pair(b"a2")));
    assert_eq!(tree.get_lt(b"a1").unwrap(), None);
    assert_eq!(tree.get_lt(b"zzz").unwrap(), Some(pair(b"c1")));
    assert_eq!(tree.get_gt(b"a1").unwrap(), Some(pair(b"a2")));
    assert_eq!(tree.get_gt(b"").unwrap(), Some(pair(b"a1")));
    assert_eq!(tree.get_gt(b"b1").unwrap(), Some(pair(b"c1")));
    assert_eq!(tree.get_gt(b"c1").unwrap(), None);
}

#[test]
fn structured_pop_takes_the_ends() {
    let mut tree = filled();
    assert_eq!(tree.pop_min().unwrap(), Some(pair(b"a1")));
    assert_eq!(tree.pop_max().unwrap(), Some(pair(b"c1")));
    assert_eq!(tree.len(), 2);
    assert_eq!(tree.pop_min().unwrap(), Some(pair(b"a2")));
    assert_eq!(tree.pop_max().unwrap(), Some(pair(b"b1")));
    assert_eq!(tree.pop_min().unwrap(), None);
    assert_eq!(tree.pop_max().unwrap(), None);
}

#[test]
fn structured_iter_walks_in_key_order() {
    let tree = filled();
    assert_eq!(
        pairs(tree.iter().entries()),
        vec![pair(b"a1"), pair(b"a2"), pair(b"b1"), pair(b"c1")]
    );
    let keys: Vec<Vec<u8>> = tree.iter().keys().into_iter().map(|k| k.unwrap()).collect();
    assert_eq!(
        keys,
        vec![
            b"a1".to_vec(),
            b"a2".to_vec(),
            b"b1".to_vec(),
            b"c1".to_vec()
        ]
    );
    let values: Vec<Vec<u8>> = tree
        .iter()
        .values()
        .into_iter()
        .map(|v| v.unwrap())
        .collect();
    assert_eq!(
        values,
        vec![
            b"a1".to_vec(),
            b"a2".to_vec(),
            b"b1".to_vec(),
            b"c1".to_vec()
        ]
    );
}

#[test]
fn structured_iter_walks_from_both_ends() {
    let tree = filled();
    let mut walk = tree.iter();
    assert_eq!(walk.next().unwrap().unwrap(), pair(b"a1"));
    assert_eq!(walk.next_back().unwrap().unwrap(), pair(b"c1"));
    assert_eq!(walk.next_back().unwrap().unwrap(), pair(b"b1"));
    assert_eq!(walk.next().unwrap().unwrap(), pair(b"a2"));
    assert!(walk.next().is_none());
    assert!(walk.next_back().is_none());
}

#[test]
fn structured_range_keeps_to_its_bounds() {
    let tree = filled();
    let from = |k: &[u8]| KeyBound::Included(k.to_vec());
    let after = |k: &[u8]| KeyBound::Excluded(k.to_vec());
    assert_eq!(
        pairs(tree.range(from(b"a2"), from(b"c1")).entries()),
        vec![pair(b"a2"), pair(b"b1"), pair(b"c1")]
    );
    assert_eq!(
        pairs(tree.range(after(b"a2"), after(b"c1")).entries()),
        vec![pair(b"b1")]
    );
    assert_eq!(
        pairs(tree.range(KeyBound::Unbounded, after(b"b")).entries()),
        vec![pair(b"a1"), pair(b"a2")]
    );
    assert_eq!(
        pairs(tree.range(from(b"c"), KeyBound::Unbounded).entries()),
        vec![pair(b"c1")]
    );
    assert_eq!(pairs(tree.range(from(b"c"), from(b"a")).entries()), vec![]);
}

#[test]
fn structured_scan_prefix_keeps_to_the_prefix() {
    let tree = filled();
    assert_eq!(
        pairs(tree.scan_prefix(b"a").entries()),
        vec![pair(b"a1"), pair(b"a2")]
    );
    assert_eq!(pairs(tree.scan_prefix(b"b1").entries()), vec![pair(b"b1")]);
    assert_eq!(pairs(tree.scan_prefix(b"x").entries()), vec![]);
    assert_eq!(pairs(tree.scan_prefix(b"").entries()).len(), 4);
}

#[test]
fn structured_batch_is_applied_in_one_step() {
    let mut tree = filled();
    let mut batch = StructuredBatch::new();
    batch.insert(b"k1".to_vec(), vec![1]).unwrap();
    batch.insert(b"k2".to_vec(), vec![2]).unwrap();
    batch.insert(b"a1".to_vec(), vec![3]).unwrap();
    batch.remove(b"a2".to_vec());
    batch.remove(b"k2".to_vec());
    batch.remove(b"never".to_vec());
    tree.apply_batch(batch).unwrap();
    assert_eq!(tree.get(b"k1").unwrap(), Some(vec![1]));
    assert_eq!(tree.get(b"k2").unwrap(), None);
    assert_eq!(tree.get(b"a1").unwrap(), Some(vec![3]));
    assert_eq!(tree.get(b"a2").unwrap(), None);
    assert_eq!(tree.get(b"b1").unwrap(), Some(b"b1".to_vec()));
    assert_eq!(tree.len(), 4);
}

#[test]
fn structured_default_batch_writes_nothing() {
    let mut tree = filled();
    tree.apply_batch(StructuredBatch::default()).unwrap();
    assert_eq!(tree.len(), 4);
}

#[test]
fn structured_transaction_commits_its_writes() {
    let mut tree = filled();
    let r = tree
        .transaction(|view| {
            let before = view.remove(b"a1".to_vec())?.unwrap();
            view.insert(b"moved".to_vec(), before.clone().unwrap())?
                .unwrap();
            let seen = view.get(b"moved")?.unwrap();
            let mut batch = StructuredBatch::new();
            batch.insert(b"extra".to_vec(), vec![9]).unwrap();
            batch.remove(b"c1".to_vec());
            view.apply_batch(batch)?;
            Ok(Ok((before, seen)))
        })
        .unwrap()
        .unwrap();
    assert_eq!(r, (Some(b"a1".to_vec()), Some(b"a1".to_vec())));
    assert_eq!(tree.get(b"a1").unwrap(), None);
    assert_eq!(tree.get(b"moved").unwrap(), Some(b"a1".to_vec()));
    assert_eq!(tree.get(b"extra").unwrap(), Some(vec![9]));
    assert_eq!(tree.get(b"c1").unwrap(), None);
}

#[test]
fn structured_transaction_that_aborts_writes_nothing() {
    let mut tree = filled();
    let r: Result<Result<(), TreeError>, TransactionError> = tree.transaction(|view| {
        view.insert(b"new".to_vec(), vec![1])?.unwrap();
        assert_eq!(view.get(b"new")?.unwrap(), Some(vec![1]));
        sled::transaction::abort(())
    });
    assert!(matches!(r, Err(TransactionError::Abort)));
    assert_eq!(tree.get(b"new").unwrap(), None);
    assert_eq!(tree.len(), 4);
}

#[test]
fn structured_watch_prefix_sees_writes() {
    let mut tree = plain("t");
    let mut watch = tree.watch_prefix(b"a".to_vec());
    tree.insert(b"b", vec![0]).unwrap();
    tree.insert(b"a1", vec![1]).unwrap();
    match watch.next() {
        Some(sled::Event::Insert { key, value }) => {
            assert_eq!(key.to_vec(), b"a1".to_vec());
            assert_eq!(value.to_vec(), vec![1]);
        }
        _ => panic!("no insert was seen"),
    }
}

#[test]
fn structured_get_tells_of_bytes_that_do_not_decode() {
    let db = db();
    let mut raw: Plain = StructuredTree::new(onlooker(&db), "times").unwrap();
    let mut times: StructuredTree<Timestamp, JsonEncoding> =
        StructuredTree::new(onlooker(&db), "times").unwrap();
    raw.insert(b"bad", b"nonsense".to_vec()).unwrap();
    raw.insert(b"good", b"\"2015-05-15T00:00:00Z\"".to_vec())
        .unwrap();
    assert!(matches!(
        times.get(b"bad"),
        Err(TreeError::JsonDeserialize(_))
    ));
    let good = times.get(b"good").unwrap().unwrap();
    assert_eq!((good.seconds(), good.subsec_nanos()), (1_431_648_000, 0));
    // The value before cannot be read, and the new one is stored all the same.
    let stored = times.insert(b"bad", Timestamp::new(5, 0));
    assert!(matches!(stored, Err(TreeError::JsonDeserialize(_))));
    assert_eq!(
        raw.get(b"bad").unwrap(),
        Some(b"\"1970-01-01T00:00:05Z\"".to_vec())
    );
    // What cannot be read counts as nothing for an update.
    raw.insert(b"bad", b"nonsense".to_vec()).unwrap();
    let updated = times
        .update_and_fetch(b"bad", |found| {
            assert!(found.is_none());
            Some(Timestamp::new(6, 0))
        })
        .unwrap()
        .unwrap();
    assert_eq!(updated.seconds(), 6);
    let walked = times.iter().entries();
    assert_eq!(walked.len(), 2);
    assert!(walked.iter().all(|item| item.is_ok()));
}

#[test]
fn structured_tree_of_key_sets() {
    let mut sets: StructuredTree<KeySet, JsonEncoding> =
        StructuredTree::new(lend(&db()), "sets").unwrap();
    let mut set = KeySet::new();
    set.insert(b"x".to_vec());
    set.insert(b"y".to_vec());
    assert!(sets.insert(b"k", set).unwrap().is_none());
    let back = sets.get(b"k").unwrap().unwrap();
    assert_eq!(back.into_keys(), vec![b"x".to_vec(), b"y".to_vec()]);
}

#[test]
fn structured_scan_prefix_of_the_highest_bytes() {
    let mut tree = plain("t");
    for key in [
        vec![],
        vec![1],
        vec![255],
        vec![255, 0],
        vec![255, 255],
        vec![255, 255, 7],
    ] {
        tree.insert(&key, key.clone()).unwrap();
    }
    let keys = |list: Vec<Result<Vec<u8>, TreeError>>| -> Vec<Vec<u8>> {
        list.into_iter().map(|key| key.unwrap()).collect()
    };
    assert_eq!(
        keys(tree.scan_prefix(&[255]).keys()),
        vec![vec![255], vec![255, 0], vec![255, 255], vec![255, 255, 7]]
    );
    assert_eq!(
        keys(tree.scan_prefix(&[255, 255]).keys()),
        vec![vec![255, 255], vec![255, 255, 7]]
    );
    assert_eq!(keys(tree.scan_prefix(&[]).keys()).len(), 6);
    assert_eq!(
        keys(tree.scan_prefix(&[1, 0]).keys()),
        Vec::<Vec<u8>>::new()
    );
}

#[test]
fn structured_keys_sort_as_byte_strings() {
    let mut tree = plain("t");
    let sorted: Vec<Vec<u8>> = vec![
        vec![],
        vec![0],
        vec![0, 0],
        vec![0, 255],
        vec![1],
        vec![255],
        vec![255, 0],
    ];
    for key in sorted.iter().rev() {
        tree.insert(key, vec![9]).unwrap();
    }
    let walked: Vec<Vec<u8>> = tree
        .iter()
        .keys()
        .into_iter()
        .map(|key| key.unwrap())
        .collect();
    assert_eq!(walked, sorted);
    assert_eq!(tree.get_gt(&[]).unwrap().unwrap().0, vec![0]);
    assert_eq!(tree.get_lt(&[0]).unwrap().unwrap().0, Vec::<u8>::new());
    assert_eq!(tree.get_lt(&[]).unwrap(), None);
    assert_eq!(tree.get_lt(&[1]).unwrap().unwrap().0, vec![0, 255]);
    assert_eq!(tree.get_gt(&[0, 255]).unwrap().unwrap().0, vec![1]);
    assert_eq!(tree.get_gt(&[255, 0]).unwrap(), None);
    let from = KeyBound::Included(vec![0, 0]);
    let to = KeyBound::Included(vec![1]);
    let some: Vec<Vec<u8>> = tree
        .range(from, to)
        .keys()
        .into_iter()
        .map(|key| key.unwrap())
        .collect();
    assert_eq!(some, vec![vec![0, 0], vec![0, 255], vec![1]]);
    let same = tree
        .range(KeyBound::Excluded(vec![1]), KeyBound::Excluded(vec![1]))
        .entries();
    assert!(same.is_empty());
    let one = tree
        .range(KeyBound::Included(vec![1]), KeyBound::Included(vec![1]))
        .entries();
    assert_eq!(one.len(), 1);
}

#[test]
fn structured_walk_from_the_back_of_a_range() {
    let tree = filled();
    let mut walk = tree.range(
        KeyBound::Included(b"a2".to_vec()),
        KeyBound::Excluded(b"c1".to_vec()),
    );
    assert_eq!(walk.next_back().unwrap().unwrap(), pair(b"b1"));
    assert_eq!(walk.next_back().unwrap().unwrap(), pair(b"a2"));
    assert!(walk.next_back().is_none());
    assert!(walk.next().is_none());
}

#[test]
fn structured_update_sees_the_value_that_is_stored() {
    let mut tree = plain("t");
    tree.insert(b"k", vec![1, 2]).unwrap();
    let seen = std::cell::RefCell::new(Vec::new());
    let r = tree
        .update_and_fetch(b"k", |found| {
            seen.borrow_mut().push(found.clone());
            found.map(|mut value| {
                value.reverse();
                value
            })
        })
        .unwrap();
    assert_eq!(r, Some(vec![2, 1]));
    assert_eq!(seen.into_inner(), vec![Some(vec![1, 2])]);
    let absent = tree.fetch_and_update(b"none", |found| found).unwrap();
    assert_eq!(absent, None);
    assert!(!tree.contains_key(b"none").unwrap());
}

#[test]
fn structured_transaction_sees_its_own_writes() {
    let mut tree = filled();
    let r = tree
        .transaction(|view| {
            let first = view.get(b"a1")?.unwrap();
            let put = view.insert(b"a1".to_vec(), vec![0])?.unwrap();
            let second = view.get(b"a1")?.unwrap();
            let gone = view.remove(b"a1".to_vec())?.unwrap();
            let third = view.get(b"a1")?.unwrap();
            let never = view.remove(b"never".to_vec())?.unwrap();
            Ok(Ok((first, put, second, gone, third, never)))
        })
        .unwrap()
        .unwrap();
    assert_eq!(
        r,
        (
            Some(b"a1".to_vec()),
            Some(b"a1".to_vec()),
            Some(vec![0]),
            Some(vec![0]),
            None,
            None
        )
    );
    assert_eq!(tree.get(b"a1").unwrap(), None);
    assert_eq!(tree.len(), 3);
}

#[test]
fn structured_transaction_hands_on_the_error_of_the_body() {
    let mut tree = filled();
    let r: Result<Result<(), TreeError>, TransactionError> = tree.transaction(|view| {
        view.insert(b"new".to_vec(), vec![1])?.unwrap();
        Ok(Err(TreeError::custom("stop".to_string())))
    });
    // The run ended well, with an error as its value: its writes are kept.
    assert!(matches!(r, Ok(Err(TreeError::Custom(message))) if message == "stop"));
    assert_eq!(tree.get(b"new").unwrap(), Some(vec![1]));
}

#[test]
fn structured_cloned_shares_the_tree() {
    let mut tree = plain("some-name");
    {
        let mut other = tree.cloned();
        assert_eq!(other.name(), "some-name");
        other.insert(b"k", vec![1]).unwrap();
        assert_eq!(other.get(b"k").unwrap(), Some(vec![1]));
    }
    assert_eq!(tree.get(b"k").unwrap(), Some(vec![1]));
    tree.insert(b"k", vec![2]).unwrap();
    let other = tree.cloned();
    assert_eq!(other.get(b"k").unwrap(), Some(vec![2]));
}
