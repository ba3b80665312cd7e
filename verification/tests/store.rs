use jwks_server::db::{
    fetch_all_valid_keys, fetch_key, init_db, insert_key, KeyStore, SigningKey, StoreError,
};

const NOW: i64 = 1_700_000_000;

fn row(id: i64, material: &[u8], expires_at: i64) -> SigningKey {
    SigningKey { id, material: material.to_vec(), expires_at }
}

#[test]
fn empty_registry_has_no_key() {
    let store = KeyStore::new();
    assert_eq!(store.len(), 0);
    assert!(fetch_key(&store, false, NOW).is_none());
    assert!(fetch_key(&store, true, NOW).is_none());
    assert!(fetch_all_valid_keys(&store, NOW).is_empty());
    assert!(store.get(0).is_none());
}

#[test]
fn init_db_keeps_what_exists() {
    let fresh = init_db(None);
    assert_eq!(fresh.len(), 0);
    let mut store = fresh;
    insert_key(&mut store, b"a", NOW + 1).unwrap();
    let again = init_db(Some(store));
    assert_eq!(again.len(), 1);
    assert_eq!(again.get(0).unwrap().material, b"a".to_vec());
    let once_more = init_db(Some(again));
    assert_eq!(once_more.len(), 1);
}

#[test]
fn insert_assigns_ascending_ids_from_one() {
    let mut store = KeyStore::new();
    assert_eq!(insert_key(&mut store, b"same", 10), Ok(1));
    assert_eq!(insert_key(&mut store, b"same", 10), Ok(2));
    assert_eq!(insert_key(&mut store, b"other", -5), Ok(3));
    assert_eq!(store.len(), 3);
    let second = store.get(1).unwrap();
    assert_eq!(second.id, 2);
    assert_eq!(second.material, b"same".to_vec());
    assert_eq!(second.expires_at, 10);
    assert_eq!(store.get(2).unwrap().expires_at, -5);
}

#[test]
fn insert_fails_when_identifiers_run_out() {
    let mut store = KeyStore::from_rows(vec![row(i64::MAX, b"k", 5)]).unwrap();
    assert_eq!(insert_key(&mut store, b"x", 6), Err(StoreError::Full));
    assert_eq!(store.len(), 1);
}

#[test]
fn insert_continues_after_the_last_identifier() {
    let mut store = KeyStore::from_rows(vec![row(4, b"k", 5), row(9, b"l", 5)]).unwrap();
    assert_eq!(insert_key(&mut store, b"x", 6), Ok(10));
}

#[test]
fn from_rows_wants_ascending_positive_identifiers() {
    assert!(KeyStore::from_rows(vec![]).is_some());
    assert!(KeyStore::from_rows(vec![row(1, b"a", 0), row(2, b"b", 0)]).is_some());
    assert!(KeyStore::from_rows(vec![row(0, b"a", 0)]).is_none());
    assert!(KeyStore::from_rows(vec![row(-3, b"a", 0)]).is_none());
    assert!(KeyStore::from_rows(vec![row(2, b"a", 0), row(2, b"b", 0)]).is_none());
    assert!(KeyStore::from_rows(vec![row(3, b"a", 0), row(1, b"b", 0)]).is_none());
}

#[test]
fn valid_lookup_takes_the_soonest_expiry() {
    let mut store = KeyStore::new();
    insert_key(&mut store, b"late", NOW + 500).unwrap();
    insert_key(&mut store, b"soon", NOW + 5).unwrap();
    insert_key(&mut store, b"gone", NOW - 5).unwrap();
    insert_key(&mut store, b"mid", NOW + 50).unwrap();
    let k = fetch_key(&store, false, NOW).unwrap();
    assert_eq!((k.id, k.material, k.expires_at), (2, b"soon".to_vec(), NOW + 5));
}

#[test]
fn expired_lookup_takes_the_latest_expiry() {
    let mut store = KeyStore::new();
    insert_key(&mut store, b"old", NOW - 500).unwrap();
    insert_key(&mut store, b"valid", NOW + 5).unwrap();
    insert_key(&mut store, b"recent", NOW - 5).unwrap();
    insert_key(&mut store, b"older", NOW - 50).unwrap();
    let k = fetch_key(&store, true, NOW).unwrap();
    assert_eq!((k.id, k.material, k.expires_at), (3, b"recent".to_vec(), NOW - 5));
}

#[test]
fn expiry_equal_to_now_is_expired() {
    let mut store = KeyStore::new();
    insert_key(&mut store, b"edge", NOW).unwrap();
    assert!(fetch_key(&store, false, NOW).is_none());
    assert_eq!(fetch_key(&store, true, NOW).unwrap().id, 1);
    assert!(fetch_all_valid_keys(&store, NOW).is_empty());
    assert_eq!(fetch_key(&store, false, NOW - 1).unwrap().id, 1);
    assert!(fetch_key(&store, true, NOW - 1).is_none());
}

#[test]
fn ties_go_to_the_smaller_identifier() {
    let mut store = KeyStore::new();
    insert_key(&mut store, b"v1", NOW + 100).unwrap();
    insert_key(&mut store, b"v2", NOW + 100).unwrap();
    insert_key(&mut store, b"e1", NOW - 100).unwrap();
    insert_key(&mut store, b"e2", NOW - 100).unwrap();
    assert_eq!(fetch_key(&store, false, NOW).unwrap().id, 1);
    assert_eq!(fetch_key(&store, true, NOW).unwrap().id, 3);
}

#[test]
fn ties_go_to_the_smaller_identifier_in_any_row_order_accepted() {
    let store = KeyStore::from_rows(vec![
        row(5, b"a", NOW + 7),
        row(8, b"b", NOW + 7),
        row(9, b"c", NOW + 7),
    ])
    .unwrap();
    assert_eq!(fetch_key(&store, false, NOW).unwrap().id, 5);
}

#[test]
fn all_valid_keys_come_in_ascending_identifier_order() {
    let mut store = KeyStore::new();
    insert_key(&mut store, b"a", NOW + 500).unwrap();
    insert_key(&mut store, b"b", NOW - 1).unwrap();
    insert_key(&mut store, b"c", NOW + 5).unwrap();
    insert_key(&mut store, b"d", NOW).unwrap();
    insert_key(&mut store, b"e", NOW + 1).unwrap();
    let valid = fetch_all_valid_keys(&store, NOW);
    let ids: Vec<i64> = valid.iter().map(|k| k.id).collect();
    assert_eq!(ids, vec![1, 3, 5]);
    assert_eq!(valid[1].material, b"c".to_vec());
    assert!(valid.iter().all(|k| k.expires_at > NOW));
}

#[test]
fn validity_is_recomputed_for_each_moment() {
    let mut store = KeyStore::new();
    insert_key(&mut store, b"a", NOW + 10).unwrap();
    assert_eq!(fetch_all_valid_keys(&store, NOW + 9).len(), 1);
    assert_eq!(fetch_all_valid_keys(&store, NOW + 10).len(), 0);
    assert_eq!(fetch_key(&store, true, NOW + 10).unwrap().id, 1);
}

#[test]
fn duplicate_keeps_every_field() {
    let k = row(12, b"material", -7);
    let d = k.duplicate();
    assert_eq!((d.id, d.material, d.expires_at), (12, b"material".to_vec(), -7));
}
