use asimov_core::AsimovError;
use asimov_core::Embed;
use asimov_core::HoraCollection;
use asimov_core::HoraDb;

const DIM: usize = 8;

/// A deterministic embedding stub: identical text always gives the identical
/// vector, and the small test texts give pairwise distinct vectors.
struct MockEmbed;

impl Embed for MockEmbed {
    fn dim(&self) -> usize {
        DIM
    }

    fn embed(&self, input: &str) -> Result<Vec<i32>, AsimovError> {
        let mut v = vec![0i32; DIM];
        for (i, b) in input.bytes().enumerate() {
            v[i % DIM] += (b as i32) * (1 + (i / DIM) as i32);
        }
        Ok(v)
    }
}

/// An embedding stub that reports one dimension but produces another.
struct BrokenEmbed;

impl Embed for BrokenEmbed {
    fn dim(&self) -> usize {
        DIM
    }

    fn embed(&self, _input: &str) -> Result<Vec<i32>, AsimovError> {
        Ok(vec![0i32; DIM + 1])
    }
}

#[test]
fn test_hora_db() {
    let mut db: HoraDb<MockEmbed, String> = HoraDb::new(MockEmbed);

    let namespace = "namespace1";

    db.create_namespace(namespace).unwrap();
    assert!(db.namespace_exists(namespace).unwrap());

    let keys = vec![
        "test key 1".to_string(),
        "test key 2".to_string(),
        "test key 3".to_string(),
        "test key 4".to_string(),
        "test key 5".to_string(),
    ];

    db.add_items(namespace, keys).unwrap();

    let query = "test query".to_string();
    let k = 3;
    let result = db.knn(namespace, &query, k).unwrap();

    assert_eq!(result.len(), k);

    db.delete_namespace(namespace).unwrap();
    assert!(!db.namespace_exists(namespace).unwrap());
}

#[test]
fn test_namespace_lifecycle_errors() {
    let mut db: HoraDb<MockEmbed, String> = HoraDb::new(MockEmbed);

    db.create_namespace("docs").unwrap();
    let second = db.create_namespace("docs");
    assert!(matches!(second, Err(AsimovError::KeyCollision(_))));

    let gone = db.delete_namespace("nowhere");
    assert!(matches!(gone, Err(AsimovError::KeyNotFound(_))));

    assert!(matches!(
        db.create_namespace(""),
        Err(AsimovError::InvalidNamespace)
    ));
    assert!(matches!(
        db.create_namespace("na\u{00ef}ve"),
        Err(AsimovError::InvalidNamespace)
    ));
    assert!(matches!(
        db.namespace_exists(""),
        Err(AsimovError::InvalidNamespace)
    ));
}

#[test]
fn test_add_items_missing_namespace() {
    let mut db: HoraDb<MockEmbed, String> = HoraDb::new(MockEmbed);
    let r = db.add_items("absent", vec!["a".to_string()]);
    assert!(matches!(r, Err(AsimovError::KeyNotFound(_))));
    let r = db.delete_item("absent", "a".to_string());
    assert!(matches!(r, Err(AsimovError::KeyNotFound(_))));
    let r = db.knn("absent", &"q".to_string(), 1);
    assert!(matches!(r, Err(AsimovError::KeyNotFound(_))));
}

#[test]
fn test_exact_match_retrieval() {
    let mut db: HoraDb<MockEmbed, String> = HoraDb::new(MockEmbed);
    db.create_namespace("ns").unwrap();
    db.add_items(
        "ns",
        vec!["alpha".to_string(), "beta".to_string(), "gamma".to_string()],
    )
    .unwrap();

    let result = db.knn("ns", &"beta".to_string(), 3).unwrap();
    assert_eq!(result.len(), 3);
    assert_eq!(result[0], "beta");
}

#[test]
fn test_delete_item_removes_from_results() {
    let mut db: HoraDb<MockEmbed, String> = HoraDb::new(MockEmbed);
    db.create_namespace("ns").unwrap();
    db.add_items(
        "ns",
        vec!["alpha".to_string(), "beta".to_string(), "gamma".to_string()],
    )
    .unwrap();

    let before = db.knn("ns", &"alpha".to_string(), 3).unwrap();
    assert!(before.contains(&"alpha".to_string()));

    db.delete_item("ns", "alpha".to_string()).unwrap();

    let after = db.knn("ns", &"alpha".to_string(), 3).unwrap();
    assert!(after.len() <= 2);
    assert!(!after.contains(&"alpha".to_string()));

    let again = db.delete_item("ns", "alpha".to_string());
    assert!(matches!(again, Err(AsimovError::KeyNotFound(_))));
}

#[test]
fn test_scenario_docs() {
    let mut db: HoraDb<MockEmbed, String> = HoraDb::new(MockEmbed);
    db.create_namespace("docs").unwrap();

    let keys: Vec<String> = vec!["k1", "k2", "k3", "k4", "k5"]
        .into_iter()
        .map(|s| s.to_string())
        .collect();
    db.add_items("docs", keys).unwrap();

    let result = db.knn("docs", &"k3".to_string(), 3).unwrap();
    assert_eq!(result.len(), 3);
    assert_eq!(result[0], "k3");

    db.delete_item("docs", "k3".to_string()).unwrap();

    let result = db.knn("docs", &"k3".to_string(), 3).unwrap();
    assert_eq!(result.len(), 3);
    assert!(!result.contains(&"k3".to_string()));
}

#[test]
fn test_delete_batch_all_or_nothing() {
    let mut c = HoraCollection::new(2);
    c.add_batch(vec![(1, vec![0, 0]), (2, vec![3, 4]), (3, vec![5, 5])])
        .unwrap();
    assert_eq!(c.len(), 3);
    assert!(c.contains(2));

    let r = c.delete_batch(vec![2, 9, 11]);
    match r {
        Err(AsimovError::KeyNotFound(msg)) => {
            assert_eq!(msg, "Could not find [9, 11]");
        }
        _ => panic!("expected KeyNotFound"),
    }
    assert_eq!(c.len(), 3);
    assert!(c.contains(2));

    c.delete_batch(vec![1, 3]).unwrap();
    assert_eq!(c.len(), 1);
    assert!(c.contains(2));
    assert!(!c.contains(1));
}

#[test]
fn test_rebuild_idempotent_search() {
    let mut c = HoraCollection::new(2);
    c.add_batch(vec![(1, vec![0, 0]), (2, vec![3, 4]), (3, vec![10, 10])])
        .unwrap();

    let q = vec![1, 1];
    let first = c.search(&q, 2);
    // An empty batch still rebuilds the index from the unchanged mapping.
    c.add_batch(vec![]).unwrap();
    let second = c.search(&q, 2);
    assert_eq!(first, second);
    assert_eq!(first, vec![1, 2]);
}

#[test]
fn test_search_ranking_and_ties() {
    let mut c = HoraCollection::new(1);
    c.add_batch(vec![(7, vec![5]), (3, vec![5]), (9, vec![0])]).unwrap();
    // Equal distances break toward the smaller id; k larger than the
    // collection returns everything.
    assert_eq!(c.search(&vec![5], 10), vec![3, 7, 9]);
    assert_eq!(c.search(&vec![0], 2), vec![9, 3]);
    assert_eq!(c.search(&vec![5], 0), Vec::<u64>::new());
}

#[test]
fn test_add_batch_wrong_dimension() {
    let mut c = HoraCollection::new(2);
    let r = c.add_batch(vec![(1, vec![1, 2, 3])]);
    assert!(matches!(r, Err(AsimovError::Hora(_))));
    assert_eq!(c.len(), 0);
}

#[test]
fn test_add_batch_replaces_same_id() {
    let mut c = HoraCollection::new(1);
    c.add_batch(vec![(1, vec![0]), (2, vec![10])]).unwrap();
    c.add_batch(vec![(1, vec![20])]).unwrap();
    assert_eq!(c.len(), 2);
    // id 1 now sits at coordinate 20, so it is the nearest to 20.
    assert_eq!(c.search(&vec![20], 1), vec![1]);
}

#[test]
fn test_mismatched_embedder_dimension() {
    let mut db: HoraDb<BrokenEmbed, String> = HoraDb::new(BrokenEmbed);
    db.create_namespace("ns").unwrap();
    let r = db.add_items("ns", vec!["a".to_string()]);
    assert!(matches!(r, Err(AsimovError::Hora(_))));
    let r = db.knn("ns", &"a".to_string(), 1);
    assert!(matches!(r, Err(AsimovError::Model(_))));
}

#[test]
fn test_add_item_single() {
    let mut db: HoraDb<MockEmbed, String> = HoraDb::new(MockEmbed);
    db.create_namespace("ns").unwrap();
    db.add_item("ns", "solo".to_string()).unwrap();

    let r = db.knn("ns", &"solo".to_string(), 1).unwrap();
    assert_eq!(r, vec!["solo".to_string()]);

    db.delete_item("ns", "solo".to_string()).unwrap();
    assert_eq!(db.knn("ns", &"solo".to_string(), 1).unwrap().len(), 0);

    let r = db.add_item("missing", "solo".to_string());
    assert!(matches!(r, Err(AsimovError::KeyNotFound(_))));
}

#[test]
fn test_add_items_empty_batch_succeeds() {
    let mut db: HoraDb<BrokenEmbed, String> = HoraDb::new(BrokenEmbed);
    db.create_namespace("ns").unwrap();
    // An empty batch never reaches the embedding capability, so it must
    // succeed even on a capability whose vectors would be rejected.
    db.add_items("ns", Vec::new()).unwrap();
    // A query does reach it, and its wrong-dimension vector is rejected.
    assert!(matches!(
        db.knn("ns", &"q".to_string(), 3),
        Err(AsimovError::Model(_))
    ));
}

#[test]
fn test_delete_single_names_id() {
    let mut c = HoraCollection::new(1);
    c.add_batch(vec![(5, vec![0])]).unwrap();
    match c.delete(7) {
        Err(AsimovError::KeyNotFound(msg)) => {
            assert_eq!(msg, "Could not find [7]");
        }
        _ => panic!("expected KeyNotFound"),
    }
    c.delete(5).unwrap();
    assert_eq!(c.len(), 0);
}

#[test]
fn test_value_items() {
    let mut db: HoraDb<MockEmbed, serde_json::Value> = HoraDb::new(MockEmbed);
    db.create_namespace("vals").unwrap();
    let items: Vec<serde_json::Value> = vec![
        serde_json::Value::String("test key 1".to_string()),
        serde_json::Value::String("test key 2".to_string()),
    ];
    db.add_items("vals", items).unwrap();

    let q = serde_json::Value::String("test key 1".to_string());
    let r = db.knn("vals", &q, 2).unwrap();
    assert_eq!(r.len(), 2);
    assert_eq!(r[0], serde_json::Value::String("test key 1".to_string()));

    db.delete_item("vals", serde_json::Value::String("test key 2".to_string()))
        .unwrap();
    let r = db.knn("vals", &q, 2).unwrap();
    assert_eq!(r.len(), 1);
    assert_eq!(r[0], serde_json::Value::String("test key 1".to_string()));
}
