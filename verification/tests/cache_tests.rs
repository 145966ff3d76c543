use dozer::cache::{Cache, FilterExpression, QueryExpression};
use dozer::errors::CacheError;
use dozer::fields::{Field, FieldType};
use dozer::record_store::RecordStore;
use dozer::records::{
    fields_eq, get_primary_key, FieldDefinition, IndexDefinition, Record, Schema,
};

fn field_def(name: &str, typ: FieldType) -> FieldDefinition {
    FieldDefinition {
        name: name.to_string(),
        typ,
        nullable: false,
    }
}

/// A two-column schema keyed by its integer column, as the film table
/// the sink tests use.
fn film_schema() -> Schema {
    Schema {
        identifier: None,
        fields: vec![
            field_def("film_id", FieldType::Int),
            field_def("film_name", FieldType::String),
        ],
        primary_index: vec![0],
    }
}

fn film_indexes() -> Vec<IndexDefinition> {
    vec![
        IndexDefinition::SortedInverted(vec![0]),
        IndexDefinition::SortedInverted(vec![1]),
        IndexDefinition::FullText(1),
    ]
}

fn film_cache() -> Cache {
    Cache::new("films".to_string(), film_schema(), film_indexes())
}

fn film(id: i64, name: &str) -> Record {
    Record::new(None, vec![Field::Int(id), Field::String(name.to_string())])
}

#[test]
fn test_record_database() {
    let mut store = RecordStore::new();
    let record = Record::new(None, vec![]);

    let id = store.insert(record);
    assert_eq!(id, 0u64);

    assert!(store.get(id).is_ok());
    assert!(fields_eq(&store.get(id).unwrap().values, &vec![]));

    store.delete(id).unwrap();

    assert!(store.get(id).is_err());
    // identifiers never come back: the next insert gets a fresh one
    let id2 = store.insert(Record::new(None, vec![]));
    assert_ne!(id2, id);
}

#[test]
fn test_cache_round_trip() {
    let mut cache = film_cache();
    let mut rec = film(1, "Film name old");
    let key = get_primary_key(&vec![0], &rec.values);
    cache.insert(&mut rec).unwrap();

    // insert then get returns an equal record at the initial version
    let got = cache.get(&key).unwrap();
    assert!(fields_eq(&got.values, &rec.values));
    assert_eq!(got.version, Some(0));

    // delete then get fails with NotFound
    cache.delete(&key).unwrap();
    assert!(matches!(cache.get(&key), Err(CacheError::NotFound)));
}

#[test]
fn test_cache_duplicate_key() {
    let mut cache = film_cache();
    cache.insert(&mut film(1, "one")).unwrap();
    let r = cache.insert(&mut film(1, "one again"));
    assert!(matches!(r, Err(CacheError::DuplicateKey)));
}

#[test]
fn test_version_monotonicity() {
    let mut cache = film_cache();
    let key = get_primary_key(&vec![0], &film(1, "a").values);
    cache.insert(&mut film(1, "a")).unwrap();
    assert_eq!(cache.get(&key).unwrap().version, Some(0));

    // each successful update strictly increases the stored version and
    // returns the version that stood just before the mutation
    let old_version = cache.update(&key, &mut film(1, "b")).unwrap();
    assert_eq!(old_version, 0);
    assert_eq!(cache.get(&key).unwrap().version, Some(1));

    let old_version = cache.update(&key, &mut film(1, "c")).unwrap();
    assert_eq!(old_version, 1);
    assert_eq!(cache.get(&key).unwrap().version, Some(2));

    // the returned version on delete equals the one just before
    let removed = cache.delete(&key).unwrap();
    assert_eq!(removed, 2);
}

#[test]
fn test_primary_key_remap() {
    let mut cache = film_cache();
    cache.insert(&mut film(1, "Film name old")).unwrap();

    let old_key = get_primary_key(&vec![0], &film(1, "x").values);
    let new_key = get_primary_key(&vec![0], &film(2, "x").values);

    // update the record so that its primary-key column changes
    cache
        .update(&old_key, &mut film(2, "Film name updated"))
        .unwrap();

    // the old key resolves no longer; the new key finds the new values
    assert!(cache.get(&old_key).is_err());
    let got = cache.get(&new_key).unwrap();
    assert!(fields_eq(&got.values, &film(2, "Film name updated").values));
}

#[test]
fn test_update_missing_key() {
    let mut cache = film_cache();
    let key = get_primary_key(&vec![0], &film(9, "x").values);
    assert!(matches!(
        cache.update(&key, &mut film(9, "x")),
        Err(CacheError::NotFound)
    ));
    assert!(matches!(cache.delete(&key), Err(CacheError::NotFound)));
}

fn ids_sorted(mut v: Vec<u64>) -> Vec<u64> {
    v.sort();
    v
}

#[test]
fn test_index_scan_equivalence_equality() {
    let mut cache = film_cache();
    cache.insert(&mut film(1, "night train")).unwrap();
    cache.insert(&mut film(2, "day train")).unwrap();
    cache.insert(&mut film(3, "night bus")).unwrap();

    let q = QueryExpression {
        filter: Some(FilterExpression::Eq(
            1,
            Field::String("night train".to_string()),
        )),
        skip: 0,
        limit: None,
    };
    // the indexed answer and the full scan return the same id set
    let via_index = ids_sorted(cache.query_ids(&q));
    let via_scan = ids_sorted(cache.scan_ids(&q));
    assert_eq!(via_index, via_scan);
    assert_eq!(via_index.len(), 1);
    assert_eq!(cache.count(&q), 1);
}

#[test]
fn test_index_scan_equivalence_fulltext() {
    let mut cache = film_cache();
    cache.insert(&mut film(1, "night train")).unwrap();
    cache.insert(&mut film(2, "day train")).unwrap();
    cache.insert(&mut film(3, "night bus")).unwrap();
    cache.insert(&mut film(4, "quiet afternoon")).unwrap();

    let q = QueryExpression {
        filter: Some(FilterExpression::Contains(1, "train".to_string())),
        skip: 0,
        limit: None,
    };
    let via_index = ids_sorted(cache.query_ids(&q));
    let via_scan = ids_sorted(cache.scan_ids(&q));
    assert_eq!(via_index, via_scan);
    assert_eq!(via_index.len(), 2);
    assert_eq!(cache.count(&q), 2);

    // deletion keeps the index exactly a rebuild of the store
    let key = get_primary_key(&vec![0], &film(2, "x").values);
    cache.delete(&key).unwrap();
    assert_eq!(cache.count(&q), 1);
    assert_eq!(ids_sorted(cache.query_ids(&q)), ids_sorted(cache.scan_ids(&q)));
}

#[test]
fn test_query_records_with_limit() {
    let mut cache = film_cache();
    cache.insert(&mut film(1, "same")).unwrap();
    cache.insert(&mut film(2, "same")).unwrap();
    cache.insert(&mut film(3, "same")).unwrap();

    let all = QueryExpression::with_no_limit();
    assert_eq!(cache.query(&all).len(), 3);
    assert_eq!(cache.count(&all), 3);

    let q = QueryExpression {
        filter: None,
        skip: 1,
        limit: Some(1),
    };
    assert_eq!(cache.query(&q).len(), 1);
}

#[test]
fn test_commit_keeps_contents() {
    let mut cache = film_cache();
    let key = get_primary_key(&vec![0], &film(1, "a").values);
    cache.insert(&mut film(1, "a")).unwrap();
    cache.commit().unwrap();
    let got = cache.get(&key).unwrap();
    assert!(fields_eq(&got.values, &film(1, "a").values));
    assert_eq!(cache.commits, 1);
}

#[test]
fn test_range_query_matches_scan() {
    let mut cache = film_cache();
    cache.insert(&mut film(1, "a")).unwrap();
    cache.insert(&mut film(5, "b")).unwrap();
    cache.insert(&mut film(9, "c")).unwrap();
    cache.insert(&mut film(-3, "d")).unwrap();

    let q = QueryExpression {
        filter: Some(FilterExpression::Range(0, Field::Int(0), Field::Int(6))),
        skip: 0,
        limit: None,
    };
    // ids 1 and 5 lie in [0, 6]; the answer equals the full scan
    assert_eq!(cache.count(&q), 2);
    assert_eq!(ids_sorted(cache.query_ids(&q)), ids_sorted(cache.scan_ids(&q)));

    // a range over another variant matches nothing
    let q = QueryExpression {
        filter: Some(FilterExpression::Range(
            1,
            Field::Int(0),
            Field::Int(100),
        )),
        skip: 0,
        limit: None,
    };
    assert_eq!(cache.count(&q), 0);
}
