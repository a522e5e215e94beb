use sled_extensions::encoding::{Encoding, JsonEncoding};
use sled_extensions::error::TreeError;
use sled_extensions::expiring_tree::{ExpiringTree, ExpiringTreeBuilder};
use sled_extensions::store::Store;
use sled_extensions::structured_tree::StructuredTree;
use sled_extensions::time::{Duration, Timestamp};

/// An encoding of bytes that refuses the empty value and stores the others as
/// they are.
struct NotEmpty;

impl Encoding<Vec<u8>> for NotEmpty {
    fn encoding(_: vstd::seq::Seq<u8>) -> Option<vstd::seq::Seq<u8>> {
        unreachable!()
    }

    fn decoding(_: vstd::seq::Seq<u8>) -> Option<vstd::seq::Seq<u8>> {
        unreachable!()
    }

    fn encode(t: &Vec<u8>) -> Result<Vec<u8>, TreeError> {
        if t.is_empty() {
            Err(TreeError::custom("empty".to_string()))
        } else {
            Ok(t.clone())
        }
    }

    fn decode(slice: &[u8]) -> Result<Vec<u8>, TreeError> {
        Ok(slice.to_vec())
    }
}

/// A second store on the database, through which a test looks at the trees
/// that the tree under test keeps.
fn onlooker(db: &sled::Db) -> &'static mut Store {
    lend(db)
}

/// A store on the database that lasts as long as the test.
fn lend(db: &sled::Db) -> &'static mut Store {
    Box::leak(Box::new(Store::new(db.clone())))
}

fn open(
    update: bool,
) -> (
    sled::Db,
    ExpiringTree<'static, Vec<u8>, JsonEncoding, NotEmpty>,
) {
    let db = sled::Config::new().temporary(true).open().unwrap();
    let mut builder = ExpiringTreeBuilder::new("t");
    if update {
        builder.extend_on_update();
    }
    builder.expiration_length(Duration::seconds(10));
    let tree = builder.build(lend(&db)).unwrap();
    (db, tree)
}

#[test]
fn transaction_refuses_a_value_that_cannot_be_written() {
    let (db, mut tree) = open(false);
    let r = tree
        .transaction(|view| {
            let refused = view.insert_at(b"k".to_vec(), vec![], &Timestamp::new(0, 0))?;
            let by_clock = view.insert(b"k".to_vec(), vec![])?;
            Ok(Ok((refused.is_err(), by_clock.is_err())))
        })
        .unwrap()
        .unwrap();
    assert_eq!(r, (true, true));
    assert!(tree.is_empty());
    let times: StructuredTree<Timestamp, JsonEncoding> =
        StructuredTree::new(onlooker(&db), "t-expires-at").unwrap();
    assert!(times.is_empty());
}

#[test]
fn transaction_leaves_the_expiry_of_a_value_that_is_refused() {
    let (db, mut tree) = open(true);
    let r = tree
        .transaction(|view| {
            let refused = view.insert_at(b"k".to_vec(), vec![], &Timestamp::new(0, 0))?;
            let stored = view.insert_at(b"j".to_vec(), vec![1], &Timestamp::new(0, 0))?;
            Ok(Ok((
                matches!(refused, Err(TreeError::Custom(_))),
                stored.is_ok(),
            )))
        })
        .unwrap()
        .unwrap();
    assert_eq!(r, (true, true));
    assert_eq!(tree.len(), 1);
    let times: StructuredTree<Timestamp, JsonEncoding> =
        StructuredTree::new(onlooker(&db), "t-expires-at").unwrap();
    assert_eq!(times.get(b"k").unwrap().map(|t| t.seconds()), None);
    assert_eq!(times.get(b"j").unwrap().map(|t| t.seconds()), Some(10));
}

#[test]
fn batch_leaves_out_a_value_that_is_refused() {
    let (db, mut tree) = open(true);
    let mut batch = sled_extensions::expiring_batch::ExpiringBatch::new();
    assert!(matches!(
        batch.insert(b"k".to_vec(), vec![]),
        Err(TreeError::Custom(_))
    ));
    batch.insert(b"j".to_vec(), vec![1]).unwrap();
    tree.apply_batch_at(batch, &Timestamp::new(0, 0)).unwrap();
    assert_eq!(tree.len(), 1);
    let times: StructuredTree<Timestamp, JsonEncoding> =
        StructuredTree::new(onlooker(&db), "t-expires-at").unwrap();
    assert_eq!(times.get(b"k").unwrap().map(|t| t.seconds()), None);
    assert_eq!(times.get(b"j").unwrap().map(|t| t.seconds()), Some(10));
}

#[test]
fn insert_leaves_the_expiry_of_a_value_that_is_refused() {
    let (db, mut tree) = open(true);
    let refused = tree.insert_at(b"k", vec![], &Timestamp::new(0, 0));
    assert!(matches!(refused, Err(TreeError::Custom(_))));
    let swapped = tree.compare_and_swap_at(b"k", None, Some(vec![]), &Timestamp::new(0, 0));
    assert!(matches!(swapped, Err(TreeError::Custom(_))));
    assert!(tree.is_empty());
    let times: StructuredTree<Timestamp, JsonEncoding> =
        StructuredTree::new(onlooker(&db), "t-expires-at").unwrap();
    assert!(times.is_empty());
}
