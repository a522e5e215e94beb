use sled_extensions::bytes::KeyBound;
use sled_extensions::encoding::{CborEncoding, JsonEncoding, PlainEncoding};
use sled_extensions::error::TreeError;
use sled_extensions::expiring_batch::ExpiringBatch;
use sled_extensions::expiring_tree::{ExpiringTree, ExpiringTreeBuilder};
use sled_extensions::key_set::KeySet;
use sled_extensions::store::Store;
use sled_extensions::structured_tree::{StructuredTree, TransactionError};
use sled_extensions::time::{Duration, Timestamp};

type Expiring = ExpiringTree<'static, Vec<u8>, JsonEncoding, PlainEncoding>;
type Times = StructuredTree<'static, Timestamp, JsonEncoding>;
type Buckets = StructuredTree<'static, KeySet, JsonEncoding>;

struct Fixture {
    tree: Expiring,
    data: StructuredTree<'static, Vec<u8>, PlainEncoding>,
    times: Times,
    buckets: Buckets,
}

fn fixture(update: bool, fetch: bool, length: Duration) -> Fixture {
    let db = sled::Config::new().temporary(true).open().unwrap();
    let mut builder = ExpiringTreeBuilder::new("tree");
    if update {
        builder.extend_on_update();
    }
    if fetch {
        builder.extend_on_fetch();
    }
    builder.expiration_length(length);
    Fixture {
        tree: builder.build(lend(&db)).unwrap(),
        data: StructuredTree::new(onlooker(&db), "tree").unwrap(),
        times: StructuredTree::new(onlooker(&db), "tree-expires-at").unwrap(),
        buckets: StructuredTree::new(onlooker(&db), "tree-expires-at-inverse").unwrap(),
    }
}

/// A second store on the database, through which a test looks at the trees
/// that the tree under test keeps.
fn onlooker(db: &sled::Db) -> &'static mut Store {
    lend(db)
}

/// A store on the database that lasts as long as the test.
fn lend(db: &sled::Db) -> &'static mut Store {
    Box::leak(Box::new(Store::new(db.clone())))
}

fn at(secs: i64) -> Timestamp {
    Timestamp::new(secs, 0)
}

fn k(key: &[u8]) -> Vec<u8> {
    key.to_vec()
}

impl Fixture {
    fn expiry(&self, key: &[u8]) -> Option<i64> {
        self.times.get(key).unwrap().map(|t| t.seconds())
    }

    fn bucket(&self, secs: i64) -> Option<Vec<Vec<u8>>> {
        self.buckets
            .get(&at(secs).to_text())
            .unwrap()
            .map(|set| set.into_keys())
    }

    fn buckets_with(&self, key: &[u8]) -> usize {
        let all = self.buckets.iter().values();
        all.into_iter()
            .filter(|set| set.as_ref().unwrap().contains(key))
            .count()
    }

    /// Every key with a time is in the bucket of that time, and every bucket
    /// holds keys, each of which expires at the time of the bucket.
    fn check_agreement(&self) {
        for entry in self.times.iter().entries() {
            let (key, time) = entry.unwrap();
            let bucket = self.buckets.get(&time.to_text()).unwrap().unwrap();
            assert!(bucket.contains(&key));
            assert_eq!(self.buckets_with(&key), 1);
        }
        for entry in self.buckets.iter().entries() {
            let (text, set) = entry.unwrap();
            assert!(!set.is_empty());
            for key in set.into_keys() {
                let time = self.times.get(&key).unwrap().unwrap();
                assert_eq!(time.to_text(), text);
            }
        }
    }

    fn check_every_value_has_a_time(&self) {
        for key in self.data.iter().keys() {
            assert!(self.times.get(&key.unwrap()).unwrap().is_some());
        }
    }
}

#[test]
fn builder_sets_twelve_hours_and_no_renewal() {
    let db = sled::Config::new().temporary(true).open().unwrap();
    let builder: ExpiringTreeBuilder<Vec<u8>, JsonEncoding, PlainEncoding> =
        ExpiringTreeBuilder::new("plain");
    let mut tree = builder.build(lend(&db)).unwrap();
    assert_eq!(tree.name(), "plain");
    tree.insert_at(b"a", vec![1], &at(0)).unwrap();
    tree.get_at(b"a", &at(0)).unwrap();
    let times: Times = StructuredTree::new(onlooker(&db), "plain-expires-at").unwrap();
    assert!(times.is_empty());
    tree.update_expires_at(b"a", &at(100)).unwrap();
    assert_eq!(times.get(b"a").unwrap().unwrap().seconds(), 100 + 12 * 3600);
}

#[test]
fn builder_methods_chain() {
    let db = sled::Config::new().temporary(true).open().unwrap();
    let mut builder: ExpiringTreeBuilder<Vec<u8>, JsonEncoding, PlainEncoding> =
        ExpiringTreeBuilder::new("chained");
    let mut tree = builder
        .extend_on_update()
        .extend_on_fetch()
        .expiration_length(Duration::seconds(10))
        .build(lend(&db))
        .unwrap();
    tree.insert_at(b"a", vec![1], &at(0)).unwrap();
    let times: Times = StructuredTree::new(onlooker(&db), "chained-expires-at").unwrap();
    assert_eq!(times.get(b"a").unwrap().unwrap().seconds(), 10);
    tree.get_at(b"a", &at(5)).unwrap();
    assert_eq!(times.get(b"a").unwrap().unwrap().seconds(), 15);
}

#[test]
fn insert_renews_the_expiry_on_update() {
    let mut f = fixture(true, false, Duration::seconds(10));
    assert_eq!(f.tree.insert_at(b"a", vec![1], &at(100)).unwrap(), None);
    assert_eq!(f.expiry(b"a"), Some(110));
    assert_eq!(f.bucket(110), Some(vec![k(b"a")]));
    assert_eq!(
        f.tree.insert_at(b"a", vec![2], &at(200)).unwrap(),
        Some(vec![1])
    );
    assert_eq!(f.expiry(b"a"), Some(210));
    assert_eq!(f.bucket(110), None);
    assert_eq!(f.bucket(210), Some(vec![k(b"a")]));
    f.check_agreement();
}

#[test]
fn refresh_moves_the_key_and_does_not_copy_it() {
    let mut f = fixture(true, false, Duration::seconds(10));
    f.tree.insert_at(b"a", vec![1], &at(100)).unwrap();
    f.tree.insert_at(b"a", vec![2], &at(200)).unwrap();
    f.tree.insert_at(b"a", vec![3], &at(300)).unwrap();
    assert_eq!(f.buckets_with(b"a"), 1);
    assert_eq!(f.buckets.len(), 1);
    assert_eq!(f.bucket(310), Some(vec![k(b"a")]));
    // Renewing at the same time keeps the key where it is.
    f.tree.insert_at(b"a", vec![4], &at(300)).unwrap();
    assert_eq!(f.bucket(310), Some(vec![k(b"a")]));
    assert_eq!(f.buckets_with(b"a"), 1);
    f.check_agreement();
}

#[test]
fn keys_of_one_time_share_a_bucket() {
    let mut f = fixture(true, false, Duration::seconds(10));
    f.tree.insert_at(b"a", vec![1], &at(100)).unwrap();
    f.tree.insert_at(b"b", vec![1], &at(100)).unwrap();
    f.tree.insert_at(b"c", vec![1], &at(100)).unwrap();
    assert_eq!(f.bucket(110), Some(vec![k(b"a"), k(b"b"), k(b"c")]));
    f.tree.insert_at(b"b", vec![2], &at(101)).unwrap();
    assert_eq!(f.bucket(110), Some(vec![k(b"a"), k(b"c")]));
    assert_eq!(f.bucket(111), Some(vec![k(b"b")]));
    f.tree.remove(b"a").unwrap();
    f.tree.remove(b"c").unwrap();
    assert_eq!(f.bucket(110), None);
    f.check_agreement();
}

#[test]
fn remove_cleans_both_trees_of_expiry_times() {
    let mut f = fixture(true, false, Duration::seconds(10));
    f.tree.insert_at(b"a", vec![1], &at(100)).unwrap();
    f.tree.insert_at(b"b", vec![1], &at(100)).unwrap();
    assert_eq!(f.tree.remove(b"a").unwrap(), Some(vec![1]));
    assert_eq!(f.expiry(b"a"), None);
    assert_eq!(f.buckets_with(b"a"), 0);
    assert_eq!(f.bucket(110), Some(vec![k(b"b")]));
    assert_eq!(f.tree.remove(b"a").unwrap(), None);
    assert_eq!(f.tree.remove(b"b").unwrap(), Some(vec![1]));
    assert!(f.times.is_empty());
    assert!(f.buckets.is_empty());
}

#[test]
fn remove_of_a_key_without_expiry_changes_nothing() {
    let mut f = fixture(false, false, Duration::seconds(10));
    f.tree.insert_at(b"a", vec![1], &at(100)).unwrap();
    assert_eq!(f.tree.remove(b"a").unwrap(), Some(vec![1]));
    f.tree.remove_expires_at(b"never").unwrap();
    assert!(f.times.is_empty());
    assert!(f.buckets.is_empty());
}

#[test]
fn get_renews_the_expiry_on_fetch() {
    let mut f = fixture(false, true, Duration::seconds(10));
    f.tree.insert_at(b"a", vec![1], &at(100)).unwrap();
    assert_eq!(f.expiry(b"a"), None);
    assert_eq!(f.tree.get_at(b"a", &at(200)).unwrap(), Some(vec![1]));
    assert_eq!(f.expiry(b"a"), Some(210));
    // Reading a key that holds nothing renews its expiry as well.
    assert_eq!(f.tree.get_at(b"nothing", &at(300)).unwrap(), None);
    assert_eq!(f.expiry(b"nothing"), Some(310));
    f.check_agreement();
}

#[test]
fn get_leaves_the_expiry_without_extend_on_fetch() {
    let mut f = fixture(true, false, Duration::seconds(10));
    f.tree.insert_at(b"a", vec![1], &at(100)).unwrap();
    assert_eq!(f.tree.get_at(b"a", &at(200)).unwrap(), Some(vec![1]));
    assert_eq!(f.expiry(b"a"), Some(110));
}

#[test]
fn expired_yields_in_order_of_expiry() {
    let mut f = fixture(true, false, Duration::seconds(10));
    f.tree.insert_at(b"late", vec![1], &at(300)).unwrap();
    f.tree.insert_at(b"early", vec![1], &at(100)).unwrap();
    f.tree.insert_at(b"middle", vec![1], &at(200)).unwrap();
    f.tree.insert_at(b"also-middle", vec![1], &at(200)).unwrap();
    assert_eq!(f.tree.expired_at(&at(50)).unwrap(), Vec::<Vec<u8>>::new());
    assert_eq!(f.tree.expired_at(&at(110)).unwrap(), Vec::<Vec<u8>>::new());
    assert_eq!(f.tree.expired_at(&at(111)).unwrap(), vec![k(b"early")]);
    assert_eq!(
        f.tree.expired_at(&at(1_000)).unwrap(),
        vec![k(b"early"), k(b"middle"), k(b"also-middle"), k(b"late")]
    );
    // Nothing is removed by looking.
    assert_eq!(f.tree.len(), 4);
    assert_eq!(f.tree.expired_at(&at(1_000)).unwrap().len(), 4);
}

#[test]
fn expired_passes_over_a_bucket_that_cannot_be_read() {
    let db = sled::Config::new().temporary(true).open().unwrap();
    let mut tree: Expiring = {
        let mut builder = ExpiringTreeBuilder::new("t");
        builder
            .extend_on_update()
            .expiration_length(Duration::seconds(10));
        builder.build(lend(&db)).unwrap()
    };
    let mut raw: StructuredTree<Vec<u8>, PlainEncoding> =
        StructuredTree::new(onlooker(&db), "t-expires-at-inverse").unwrap();
    tree.insert_at(b"a", vec![1], &at(100)).unwrap();
    tree.insert_at(b"b", vec![1], &at(300)).unwrap();
    raw.insert(&at(200).to_text(), b"nonsense".to_vec())
        .unwrap();
    assert_eq!(raw.len(), 3);
    assert_eq!(tree.expired_at(&at(1_000)).unwrap(), vec![k(b"a"), k(b"b")]);
}

#[test]
fn scenario_expiry_of_zero_and_of_an_hour() {
    let mut f = fixture(true, false, Duration::zero());
    f.tree.insert_at(b"a", b"1".to_vec(), &at(1_000)).unwrap();
    assert_eq!(
        f.tree.expired_at(&Timestamp::new(1_000, 1)).unwrap(),
        vec![k(b"a")]
    );

    let db = sled::Config::new().temporary(true).open().unwrap();
    let mut hour: Expiring = {
        let mut builder = ExpiringTreeBuilder::new("hour");
        builder
            .extend_on_update()
            .expiration_length(Duration::hours(1));
        builder.build(lend(&db)).unwrap()
    };
    hour.insert_at(b"b", b"2".to_vec(), &at(1_000)).unwrap();
    assert_eq!(
        hour.expired_at(&Timestamp::new(1_000, 1)).unwrap(),
        Vec::<Vec<u8>>::new()
    );
    assert_eq!(
        hour.expired_at(&at(1_000 + 3_600)).unwrap(),
        Vec::<Vec<u8>>::new()
    );
    assert_eq!(
        hour.expired_at(&Timestamp::new(1_000 + 3_600, 1)).unwrap(),
        vec![k(b"b")]
    );

    f.tree.remove(b"a").unwrap();
    assert_eq!(
        f.tree.expired_at(&at(2_000)).unwrap(),
        Vec::<Vec<u8>>::new()
    );
}

#[test]
fn scenario_expiry_of_zero_by_the_clock() {
    let mut f = fixture(true, false, Duration::zero());
    f.tree.insert(b"a", b"1".to_vec()).unwrap();
    let stored = f.times.get(b"a").unwrap().unwrap();
    // Wait for the clock to move on.
    while !stored.is_before(&Timestamp::now()) {}
    assert_eq!(f.tree.expired().unwrap(), vec![k(b"a")]);
    f.tree.remove(b"a").unwrap();
    assert_eq!(f.tree.expired().unwrap(), Vec::<Vec<u8>>::new());

    let mut hour = fixture(true, false, Duration::hours(1));
    hour.tree.insert(b"b", b"2".to_vec()).unwrap();
    assert_eq!(hour.tree.expired().unwrap(), Vec::<Vec<u8>>::new());
}

#[test]
fn scenario_compare_and_swap_creates_once() {
    let mut f = fixture(true, false, Duration::seconds(10));
    let first = f
        .tree
        .compare_and_swap_at(b"k", None, Some(vec![1]), &at(100))
        .unwrap();
    assert!(first.is_ok());
    assert_eq!(f.expiry(b"k"), Some(110));
    assert_eq!(f.bucket(110), Some(vec![k(b"k")]));
    let second = f
        .tree
        .compare_and_swap_at(b"k", None, Some(vec![2]), &at(200))
        .unwrap();
    let refused = second.err().unwrap();
    assert_eq!(refused.current, Some(vec![1]));
    assert_eq!(refused.proposed, Some(vec![2]));
    assert_eq!(f.tree.get_at(b"k", &at(200)).unwrap(), Some(vec![1]));
    assert_eq!(f.expiry(b"k"), Some(110));
    assert_eq!(f.bucket(110), Some(vec![k(b"k")]));
    assert_eq!(f.bucket(210), None);
    f.check_agreement();
}

#[test]
fn compare_and_swap_changes_and_deletes() {
    let mut f = fixture(true, false, Duration::seconds(10));
    f.tree
        .compare_and_swap_at(b"k", None, Some(vec![1]), &at(100))
        .unwrap()
        .ok()
        .unwrap();
    let changed = f
        .tree
        .compare_and_swap_at(b"k", Some(vec![1]), Some(vec![2]), &at(200));
    assert!(changed.unwrap().is_ok());
    assert_eq!(f.expiry(b"k"), Some(210));
    let deleted = f
        .tree
        .compare_and_swap_at(b"k", Some(vec![2]), None, &at(300));
    assert!(deleted.unwrap().is_ok());
    assert_eq!(f.expiry(b"k"), None);
    assert!(f.buckets.is_empty());
    assert!(f.tree.is_empty());
    assert!(f
        .tree
        .compare_and_swap(b"k", None, Some(vec![3]))
        .unwrap()
        .is_ok());
    assert!(f.expiry(b"k").is_some());
}

#[test]
fn scenario_batch_renews_inserted_keys_only() {
    let mut f = fixture(true, false, Duration::seconds(10));
    f.tree.insert_at(b"k3", vec![3], &at(100)).unwrap();
    let mut batch = ExpiringBatch::new();
    batch.insert(k(b"k1"), vec![1]).unwrap();
    batch.insert(k(b"k2"), vec![2]).unwrap();
    batch.remove(k(b"k3"));
    f.tree.apply_batch_at(batch, &at(200)).unwrap();
    assert_eq!(f.tree.get_at(b"k1", &at(200)).unwrap(), Some(vec![1]));
    assert_eq!(f.tree.get_at(b"k2", &at(200)).unwrap(), Some(vec![2]));
    assert_eq!(f.tree.get_at(b"k3", &at(200)).unwrap(), None);
    assert_eq!(f.expiry(b"k1"), Some(210));
    assert_eq!(f.expiry(b"k2"), Some(210));
    assert_eq!(f.bucket(210), Some(vec![k(b"k1"), k(b"k2")]));
    // The expiry of the key that the batch removed stays until it is removed
    // through the tree.
    assert_eq!(f.expiry(b"k3"), Some(110));
    assert_eq!(f.bucket(110), Some(vec![k(b"k3")]));
    f.tree.remove(b"k3").unwrap();
    assert_eq!(f.expiry(b"k3"), None);
    assert_eq!(f.bucket(110), None);
    f.check_agreement();
}

#[test]
fn batch_forgets_a_key_that_it_removes_again() {
    let mut f = fixture(true, false, Duration::seconds(10));
    let mut batch = ExpiringBatch::default();
    batch.insert(k(b"k1"), vec![1]).unwrap();
    batch.insert(k(b"k2"), vec![2]).unwrap();
    batch.remove(k(b"k1"));
    f.tree.apply_batch_at(batch, &at(200)).unwrap();
    assert_eq!(f.tree.len(), 1);
    assert_eq!(f.expiry(b"k1"), None);
    assert_eq!(f.expiry(b"k2"), Some(210));
    let mut by_clock = ExpiringBatch::new();
    by_clock.insert(k(b"k4"), vec![4]).unwrap();
    f.tree.apply_batch(by_clock).unwrap();
    assert!(f.expiry(b"k4").is_some());
}

#[test]
fn batch_without_extend_on_update_renews_nothing() {
    let mut f = fixture(false, true, Duration::seconds(10));
    let mut batch = ExpiringBatch::new();
    batch.insert(k(b"k1"), vec![1]).unwrap();
    f.tree.apply_batch_at(batch, &at(200)).unwrap();
    assert_eq!(f.tree.len(), 1);
    assert!(f.times.is_empty());
}

#[test]
fn update_and_fetch_renews_or_forgets() {
    let mut f = fixture(true, false, Duration::seconds(10));
    let set = |_: Option<Vec<u8>>| Some(vec![5]);
    assert_eq!(
        f.tree.update_and_fetch_at(b"a", set, &at(100)).unwrap(),
        Some(vec![5])
    );
    assert_eq!(f.expiry(b"a"), Some(110));
    assert_eq!(
        f.tree
            .update_and_fetch_at(b"a", |_| None, &at(200))
            .unwrap(),
        None
    );
    assert_eq!(f.expiry(b"a"), None);
    assert!(f.buckets.is_empty());
    assert_eq!(f.tree.update_and_fetch(b"a", set).unwrap(), Some(vec![5]));
    assert!(f.expiry(b"a").is_some());
    f.check_agreement();
}

#[test]
fn update_and_fetch_leaves_the_expiry_without_extend_on_update() {
    let mut f = fixture(false, true, Duration::seconds(10));
    f.tree.insert_at(b"a", vec![1], &at(50)).unwrap();
    f.tree.get_at(b"a", &at(60)).unwrap();
    assert_eq!(f.expiry(b"a"), Some(70));
    let set = |_: Option<Vec<u8>>| Some(vec![5]);
    assert_eq!(
        f.tree.update_and_fetch_at(b"a", set, &at(100)).unwrap(),
        Some(vec![5])
    );
    assert_eq!(f.expiry(b"a"), Some(70));
    assert_eq!(f.bucket(70), Some(vec![k(b"a")]));
    assert_eq!(
        f.tree
            .update_and_fetch_at(b"a", |_| None, &at(200))
            .unwrap(),
        None
    );
    assert_eq!(f.expiry(b"a"), None);
    assert!(f.buckets.is_empty());
}

#[test]
fn fetch_and_update_goes_by_the_value_that_is_stored() {
    let mut f = fixture(true, false, Duration::seconds(10));
    let set = |_: Option<Vec<u8>>| Some(vec![5]);
    // The key held nothing and holds a value now: its expiry is renewed.
    assert_eq!(
        f.tree.fetch_and_update_at(b"a", set, &at(100)).unwrap(),
        None
    );
    assert_eq!(f.tree.get_at(b"a", &at(100)).unwrap(), Some(vec![5]));
    assert_eq!(f.expiry(b"a"), Some(110));
    assert_eq!(
        f.tree.fetch_and_update_at(b"a", set, &at(200)).unwrap(),
        Some(vec![5])
    );
    assert_eq!(f.expiry(b"a"), Some(210));
    assert_eq!(f.bucket(110), None);
    // The key held a value and holds none now: its expiry is forgotten.
    assert_eq!(
        f.tree.fetch_and_update(b"a", |_| None).unwrap(),
        Some(vec![5])
    );
    assert_eq!(f.expiry(b"a"), None);
    assert!(f.buckets.is_empty());
    assert_eq!(f.tree.get_at(b"a", &at(300)).unwrap(), None);
}

#[test]
fn fetch_and_update_leaves_the_expiry_without_extend_on_update() {
    let mut f = fixture(false, true, Duration::seconds(10));
    f.tree.insert_at(b"a", vec![1], &at(50)).unwrap();
    f.tree.get_at(b"a", &at(60)).unwrap();
    let set = |_: Option<Vec<u8>>| Some(vec![5]);
    assert_eq!(
        f.tree.fetch_and_update_at(b"a", set, &at(100)).unwrap(),
        Some(vec![1])
    );
    assert_eq!(f.expiry(b"a"), Some(70));
}

#[test]
fn compare_and_swap_of_nothing_by_nothing_forgets_the_expiry() {
    let mut f = fixture(true, false, Duration::seconds(10));
    f.tree.update_expires_at(b"k", &at(100)).unwrap();
    assert_eq!(f.expiry(b"k"), Some(110));
    let swapped = f.tree.compare_and_swap_at(b"k", None, None, &at(200));
    assert!(swapped.unwrap().is_ok());
    assert_eq!(f.expiry(b"k"), None);
    assert!(f.buckets.is_empty());
}

#[test]
fn compare_and_swap_without_extend_on_update_leaves_the_expiry() {
    let mut f = fixture(false, true, Duration::seconds(10));
    f.tree.insert_at(b"k", vec![1], &at(0)).unwrap();
    f.tree.get_at(b"k", &at(60)).unwrap();
    let swapped = f
        .tree
        .compare_and_swap_at(b"k", Some(vec![1]), Some(vec![2]), &at(200));
    assert!(swapped.unwrap().is_ok());
    assert_eq!(f.expiry(b"k"), Some(70));
    let refused = f
        .tree
        .compare_and_swap_at(b"k", Some(vec![1]), None, &at(300));
    assert!(refused.unwrap().is_err());
    assert_eq!(f.expiry(b"k"), Some(70));
}

#[test]
fn neighbours_renew_on_fetch() {
    let mut f = fixture(false, true, Duration::seconds(10));
    f.tree.insert_at(b"a", vec![1], &at(0)).unwrap();
    f.tree.insert_at(b"c", vec![3], &at(0)).unwrap();
    assert_eq!(
        f.tree.get_lt_at(b"b", &at(100)).unwrap(),
        Some((k(b"a"), vec![1]))
    );
    assert_eq!(f.expiry(b"a"), Some(110));
    assert_eq!(
        f.tree.get_gt_at(b"b", &at(200)).unwrap(),
        Some((k(b"c"), vec![3]))
    );
    assert_eq!(f.expiry(b"c"), Some(210));
    assert_eq!(f.tree.get_lt_at(b"a", &at(300)).unwrap(), None);
    assert_eq!(f.tree.get_gt_at(b"c", &at(300)).unwrap(), None);
    assert_eq!(f.times.len(), 2);
    assert_eq!(f.tree.get_lt(b"b").unwrap(), Some((k(b"a"), vec![1])));
    assert_eq!(f.tree.get_gt(b"b").unwrap(), Some((k(b"c"), vec![3])));
    f.check_agreement();
}

#[test]
fn pop_forgets_the_expiry() {
    let mut f = fixture(true, false, Duration::seconds(10));
    f.tree.insert_at(b"a", vec![1], &at(0)).unwrap();
    f.tree.insert_at(b"b", vec![2], &at(0)).unwrap();
    f.tree.insert_at(b"c", vec![3], &at(0)).unwrap();
    assert_eq!(f.tree.pop_min().unwrap(), Some((k(b"a"), vec![1])));
    assert_eq!(f.tree.pop_max().unwrap(), Some((k(b"c"), vec![3])));
    assert_eq!(f.expiry(b"a"), None);
    assert_eq!(f.expiry(b"c"), None);
    assert_eq!(f.bucket(10), Some(vec![k(b"b")]));
    assert_eq!(f.tree.pop_max().unwrap(), Some((k(b"b"), vec![2])));
    assert_eq!(f.tree.pop_min().unwrap(), None);
    assert!(f.buckets.is_empty());
}

#[test]
fn clear_empties_the_three_trees() {
    let mut f = fixture(true, false, Duration::seconds(10));
    f.tree.insert_at(b"a", vec![1], &at(0)).unwrap();
    f.tree.insert_at(b"b", vec![2], &at(5)).unwrap();
    assert_eq!(f.tree.len(), 2);
    assert!(f.tree.contains_key(b"a").unwrap());
    f.tree.flush().unwrap();
    f.tree.clear().unwrap();
    assert!(f.tree.is_empty());
    assert!(!f.tree.contains_key(b"a").unwrap());
    assert!(f.times.is_empty());
    assert!(f.buckets.is_empty());
}

#[test]
fn build_opens_the_same_three_trees_again() {
    let db = sled::Config::new().temporary(true).open().unwrap();
    let mut store = Store::new(db);
    let mut builder: ExpiringTreeBuilder<Vec<u8>, JsonEncoding, PlainEncoding> =
        ExpiringTreeBuilder::new("tree");
    builder
        .extend_on_update()
        .expiration_length(Duration::seconds(10));
    {
        let mut tree = builder.build(&mut store).unwrap();
        assert_eq!(tree.name(), "tree");
        tree.insert_at(b"a", vec![1], &at(0)).unwrap();
    }
    {
        // The same settings open the same trees: the value and its time are there.
        let mut again = builder.build(&mut store).unwrap();
        assert_eq!(again.name(), "tree");
        assert_eq!(again.get_at(b"a", &at(1)).unwrap(), Some(vec![1]));
        assert_eq!(again.expired_at(&at(11)).unwrap(), vec![k(b"a")]);
        again.insert_at(b"b", vec![2], &at(5)).unwrap();
    }
    // The trees of the times are trees of the store like any other.
    let times: StructuredTree<Timestamp, JsonEncoding> =
        StructuredTree::new(&mut store, "tree-expires-at").unwrap();
    assert_eq!(times.get(b"a").unwrap().unwrap().seconds(), 10);
    assert_eq!(times.get(b"b").unwrap().unwrap().seconds(), 15);
    drop(times);
    let buckets: StructuredTree<KeySet, JsonEncoding> =
        StructuredTree::new(&mut store, "tree-expires-at-inverse").unwrap();
    assert_eq!(buckets.len(), 2);
}

#[test]
fn walk_renews_on_fetch() {
    let mut f = fixture(false, true, Duration::seconds(10));
    for key in [b"a", b"b", b"c"] {
        f.tree.insert_at(key, key.to_vec(), &at(0)).unwrap();
    }
    {
        let mut walk = f.tree.iter();
        assert_eq!(walk.next_at(&at(100)).unwrap().unwrap(), (k(b"a"), k(b"a")));
        assert_eq!(
            walk.next_back_at(&at(200)).unwrap().unwrap(),
            (k(b"c"), k(b"c"))
        );
    }
    assert_eq!(f.expiry(b"a"), Some(110));
    assert_eq!(f.expiry(b"b"), None);
    assert_eq!(f.expiry(b"c"), Some(210));
    let keys: Vec<Vec<u8>> = f
        .tree
        .iter()
        .keys()
        .into_iter()
        .map(|x| x.unwrap())
        .collect();
    assert_eq!(keys, vec![k(b"a"), k(b"b"), k(b"c")]);
    assert!(f.expiry(b"b").is_some());
    f.check_agreement();
}

#[test]
fn walk_leaves_the_expiry_without_extend_on_fetch() {
    let mut f = fixture(true, false, Duration::seconds(10));
    for key in [b"a1", b"a2", b"b1"] {
        f.tree.insert_at(key, key.to_vec(), &at(0)).unwrap();
    }
    let values: Vec<Vec<u8>> = f
        .tree
        .scan_prefix(b"a")
        .values()
        .into_iter()
        .map(|x| x.unwrap())
        .collect();
    assert_eq!(values, vec![k(b"a1"), k(b"a2")]);
    let some = f
        .tree
        .range(KeyBound::Excluded(k(b"a1")), KeyBound::Unbounded)
        .entries();
    assert_eq!(some.len(), 2);
    let mut walk = f.tree.iter();
    assert!(walk.next().is_some());
    assert!(walk.next_back().is_some());
    assert!(walk.next().is_some());
    assert!(walk.next().is_none());
    assert_eq!(f.expiry(b"a1"), Some(10));
    assert_eq!(f.times.len(), 3);
}

#[test]
fn transaction_writes_values_and_times_together() {
    let mut f = fixture(true, true, Duration::seconds(10));
    f.tree.insert_at(b"old", vec![0], &at(0)).unwrap();
    let r = f
        .tree
        .transaction(|view| {
            let before = view.insert_at(k(b"a"), vec![1], &at(100))?.unwrap();
            let read = view.get_at(b"a", &at(200))?.unwrap();
            let gone = view.remove(k(b"old"))?.unwrap();
            let mut batch = ExpiringBatch::new();
            batch.insert(k(b"b"), vec![2]).unwrap();
            batch.insert(k(b"c"), vec![3]).unwrap();
            view.apply_batch_at(batch, &at(300))?.unwrap();
            Ok(Ok((before, read, gone)))
        })
        .unwrap()
        .unwrap();
    assert_eq!(r, (None, Some(vec![1]), Some(vec![0])));
    assert_eq!(f.tree.get_at(b"a", &at(200)).unwrap(), Some(vec![1]));
    assert_eq!(f.data.get(b"b").unwrap(), Some(vec![2]));
    assert_eq!(f.data.get(b"old").unwrap(), None);
    assert_eq!(f.expiry(b"a"), Some(210));
    assert_eq!(f.expiry(b"b"), Some(310));
    assert_eq!(f.bucket(310), Some(vec![k(b"b"), k(b"c")]));
    assert_eq!(f.bucket(110), None);
    assert_eq!(f.expiry(b"old"), None);
    assert_eq!(f.bucket(10), None);
    f.check_agreement();
    f.check_every_value_has_a_time();
}

#[test]
fn transaction_by_the_clock_renews_the_expiry() {
    let mut f = fixture(true, true, Duration::seconds(10));
    f.tree
        .transaction(|view| {
            view.insert(k(b"a"), vec![1])?.unwrap();
            view.get(b"b")?.unwrap();
            let mut batch = ExpiringBatch::new();
            batch.insert(k(b"c"), vec![3]).unwrap();
            view.apply_batch(batch)?.unwrap();
            Ok(Ok(()))
        })
        .unwrap()
        .unwrap();
    assert!(f.expiry(b"a").is_some());
    assert!(f.expiry(b"b").is_some());
    assert!(f.expiry(b"c").is_some());
    f.check_agreement();
}

#[test]
fn transaction_that_aborts_keeps_the_times_and_drops_the_values() {
    let mut f = fixture(true, false, Duration::seconds(10));
    f.tree.insert_at(b"kept", vec![0], &at(0)).unwrap();
    let r: Result<Result<(), TreeError>, TransactionError> = f.tree.transaction(|view| {
        view.insert_at(k(b"a"), vec![1], &at(100))?.unwrap();
        view.remove(k(b"kept"))?.unwrap();
        assert_eq!(view.get_at(b"a", &at(100))?.unwrap(), Some(vec![1]));
        sled::transaction::abort(())
    });
    assert!(matches!(r, Err(TransactionError::Abort)));
    assert_eq!(f.data.get(b"a").unwrap(), None);
    assert_eq!(f.data.get(b"kept").unwrap(), Some(vec![0]));
    assert_eq!(f.expiry(b"a"), Some(110));
    assert_eq!(f.bucket(110), Some(vec![k(b"a")]));
    assert_eq!(f.expiry(b"kept"), None);
    assert_eq!(f.bucket(10), None);
    f.check_agreement();
}

#[test]
fn refresh_tells_of_a_time_that_cannot_be_read() {
    let mut f = fixture(true, false, Duration::seconds(10));
    let db = sled::Config::new().temporary(true).open().unwrap();
    let mut tree: Expiring = {
        let mut builder = ExpiringTreeBuilder::new("t");
        builder.extend_on_update();
        builder.build(lend(&db)).unwrap()
    };
    let mut raw: StructuredTree<Vec<u8>, PlainEncoding> =
        StructuredTree::new(onlooker(&db), "t-expires-at").unwrap();
    raw.insert(b"a", b"nonsense".to_vec()).unwrap();
    let r = tree.insert_at(b"a", vec![1], &at(0));
    assert!(matches!(r, Err(TreeError::JsonDeserialize(_))));
    // The value is stored, and so is the new time.
    assert_eq!(tree.get_at(b"a", &at(0)).unwrap(), Some(vec![1]));
    assert!(raw
        .get(b"a")
        .unwrap()
        .unwrap()
        .starts_with(b"\"1970-01-01T12:00:00"));
    f.tree.insert_at(b"ok", vec![1], &at(0)).unwrap();
}

#[test]
fn cbor_can_hold_the_expiry_times() {
    let db = sled::Config::new().temporary(true).open().unwrap();
    let mut tree: ExpiringTree<Vec<u8>, CborEncoding, PlainEncoding> = {
        let mut builder = ExpiringTreeBuilder::new("c");
        builder
            .extend_on_update()
            .expiration_length(Duration::seconds(1));
        builder.build(lend(&db)).unwrap()
    };
    tree.insert_at(b"a", vec![1], &at(0)).unwrap();
    tree.insert_at(b"b", vec![1], &at(0)).unwrap();
    tree.insert_at(b"a", vec![2], &at(5)).unwrap();
    assert_eq!(tree.expired_at(&at(100)).unwrap(), vec![k(b"b"), k(b"a")]);
    tree.remove(b"b").unwrap();
    assert_eq!(tree.expired_at(&at(100)).unwrap(), vec![k(b"a")]);
}

#[test]
fn any_sequence_of_operations_keeps_the_trees_in_agreement() {
    let mut f = fixture(true, false, Duration::seconds(7));
    let mut seed: u64 = 0x2545_f491_4f6c_dd1d;
    for step in 0..300 {
        seed = seed
            .wrapping_mul(6364136223846793005)
            .wrapping_add(1442695040888963407);
        let key = vec![b'k', ((seed >> 33) % 6) as u8];
        let now = at(((seed >> 40) % 20) as i64);
        match (seed >> 20) % 3 {
            0 => {
                f.tree.insert_at(&key, vec![step as u8], &now).unwrap();
            }
            1 => {
                f.tree.remove(&key).unwrap();
            }
            _ => {
                f.tree.get_at(&key, &now).unwrap();
            }
        }
        f.check_agreement();
        f.check_every_value_has_a_time();
    }
}

#[test]
fn any_sequence_keeps_agreement_with_renewal_on_fetch() {
    let mut f = fixture(true, true, Duration::seconds(3));
    let mut seed: u64 = 99;
    for step in 0..200 {
        seed = seed
            .wrapping_mul(6364136223846793005)
            .wrapping_add(1442695040888963407);
        let key = vec![((seed >> 33) % 5) as u8];
        let now = Timestamp::new(
            ((seed >> 40) % 10) as i64,
            ((seed >> 50) % 3) as u32 * 1_000,
        );
        match (seed >> 20) % 5 {
            0 => {
                f.tree.insert_at(&key, vec![step as u8], &now).unwrap();
            }
            1 => {
                f.tree.remove(&key).unwrap();
            }
            2 => {
                f.tree.get_at(&key, &now).unwrap();
            }
            3 => {
                f.tree
                    .update_and_fetch_at(&key, |v| v.map(|_| vec![0]), &now)
                    .unwrap();
            }
            _ => {
                f.tree.pop_min().unwrap();
            }
        }
        f.check_agreement();
    }
}

#[test]
fn transaction_gives_the_error_of_a_renewal_with_the_call() {
    let db = sled::Config::new().temporary(true).open().unwrap();
    let mut tree: Expiring = {
        let mut builder = ExpiringTreeBuilder::new("t");
        builder.extend_on_update();
        builder.expiration_length(Duration::seconds(10));
        builder.build(lend(&db)).unwrap()
    };
    let mut raw: StructuredTree<Vec<u8>, PlainEncoding> =
        StructuredTree::new(onlooker(&db), "t-expires-at").unwrap();
    raw.insert(b"a", b"nonsense".to_vec()).unwrap();
    let r = tree
        .transaction(|view| {
            // The time that is stored for the key cannot be read: the call says so.
            let first = view.insert_at(k(b"a"), vec![1], &at(0))?;
            let second = view.insert_at(k(b"b"), vec![2], &at(5))?;
            Ok(Ok((
                matches!(first, Err(TreeError::JsonDeserialize(_))),
                second,
            )))
        })
        .unwrap()
        .unwrap();
    assert!(r.0);
    assert_eq!(r.1.unwrap(), None);
    // The values are stored, and the expiry of the second key is renewed.
    assert_eq!(tree.get_at(b"a", &at(0)).unwrap(), Some(vec![1]));
    assert_eq!(tree.get_at(b"b", &at(0)).unwrap(), Some(vec![2]));
    let times: Times = StructuredTree::new(onlooker(&db), "t-expires-at").unwrap();
    assert_eq!(times.get(b"b").unwrap().unwrap().seconds(), 15);
}

#[test]
fn transaction_sees_the_expiry_that_it_renewed() {
    let mut f = fixture(true, false, Duration::seconds(10));
    f.tree.insert_at(b"old", vec![0], &at(0)).unwrap();
    let r = f
        .tree
        .transaction(|view| {
            let mut batch = ExpiringBatch::new();
            batch.insert(k(b"a"), vec![1]).unwrap();
            batch.insert(k(b"b"), vec![2]).unwrap();
            batch.remove(k(b"old"));
            let applied = view.apply_batch_at(batch, &at(100))?;
            Ok(Ok(applied.is_ok()))
        })
        .unwrap()
        .unwrap();
    assert!(r);
    assert_eq!(f.expiry(b"a"), Some(110));
    assert_eq!(f.expiry(b"b"), Some(110));
    assert_eq!(f.bucket(110), Some(vec![k(b"a"), k(b"b")]));
    // The batch removed the value, and left its expiry.
    assert_eq!(f.data.get(b"old").unwrap(), None);
    assert_eq!(f.expiry(b"old"), Some(10));
    assert_eq!(f.bucket(10), Some(vec![k(b"old")]));
}

#[test]
fn transaction_that_aborts_after_a_batch_keeps_the_times() {
    let mut f = fixture(true, false, Duration::seconds(10));
    let r: Result<Result<(), TreeError>, TransactionError> = f.tree.transaction(|view| {
        let mut batch = ExpiringBatch::new();
        batch.insert(k(b"a"), vec![1]).unwrap();
        view.apply_batch_at(batch, &at(100))?.unwrap();
        sled::transaction::abort(())
    });
    assert!(matches!(r, Err(TransactionError::Abort)));
    assert_eq!(f.data.get(b"a").unwrap(), None);
    assert_eq!(f.expiry(b"a"), Some(110));
    assert_eq!(f.bucket(110), Some(vec![k(b"a")]));
    f.check_agreement();
}

#[test]
fn cloned_tree_has_the_settings_and_the_trees() {
    let mut f = fixture(true, false, Duration::seconds(10));
    {
        let mut other = f.tree.cloned();
        assert_eq!(other.name(), "tree");
        other.insert_at(b"a", vec![1], &at(0)).unwrap();
    }
    assert_eq!(f.expiry(b"a"), Some(10));
    assert_eq!(f.tree.get_at(b"a", &at(0)).unwrap(), Some(vec![1]));
    assert_eq!(f.tree.expired_at(&at(11)).unwrap(), vec![k(b"a")]);
}
