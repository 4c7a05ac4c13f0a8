use topic_storage::payload::Payload;
use topic_storage::store::{CollectionInfo, StoreError, StoreState};

fn payload_of(pairs: &[(&str, &str)]) -> Payload {
    let mut p = Payload::new();
    for (k, v) in pairs {
        p.push((*k).to_owned(), (*v).to_owned());
    }
    p
}

#[test]
fn test_create_collection() {
    let mut storage = StoreState::new();
    let collection_name = "test_collection".to_owned();

    storage.create_collection(&collection_name, 3).unwrap();

    let collection_info = storage.get_collection_info(&collection_name);
    assert_eq!(
        collection_info,
        Some(CollectionInfo { vector_size: 3, points_count: 0 })
    );

    storage.delete_collection(&collection_name).unwrap();
    assert!(!storage.collection_exists(&collection_name));
}

#[test]
fn test_create_collection_twice_fails() {
    let mut storage = StoreState::new();
    let collection_name = "test_collection".to_owned();

    storage.create_collection(&collection_name, 3).unwrap();
    let second = storage.create_collection(&collection_name, 3);
    assert_eq!(second, Err(StoreError::CollectionAlreadyExists));
}

#[test]
fn test_upsert_point() {
    let mut storage = StoreState::new();
    let collection_name = "test_collection".to_owned();

    storage.create_collection(&collection_name, 3).unwrap();
    assert_eq!(storage.collection_exists(&collection_name), true);

    storage
        .upsert_point(&collection_name, 0, 3, payload_of(&[("key", "value")]))
        .unwrap();
    let collection_info = storage.get_collection_info(&collection_name);
    assert_eq!(
        collection_info,
        Some(CollectionInfo { vector_size: 3, points_count: 1 })
    );
}

#[test]
fn test_upsert_point_overwrites_same_id() {
    let mut storage = StoreState::new();
    let collection_name = "test_collection".to_owned();
    storage.create_collection(&collection_name, 3).unwrap();

    storage
        .upsert_point(&collection_name, 7, 3, payload_of(&[("topic_name", "t"), ("topic_content", "one")]))
        .unwrap();
    storage
        .upsert_point(&collection_name, 7, 3, payload_of(&[("topic_name", "t"), ("topic_content", "two")]))
        .unwrap();

    let info = storage.get_collection_info(&collection_name).unwrap();
    assert_eq!(info.points_count, 1);

    let topic = "t".to_owned();
    let points = storage
        .list_points_by_topic(&collection_name, &topic, 10)
        .unwrap();
    assert_eq!(points.len(), 1);
    let content_key = "topic_content".to_owned();
    assert_eq!(points[0].payload.get(&content_key).unwrap(), "two");
}

#[test]
fn test_upsert_point_dimension_mismatch() {
    let mut storage = StoreState::new();
    let collection_name = "test_collection".to_owned();
    storage.create_collection(&collection_name, 3).unwrap();

    let r = storage.upsert_point(&collection_name, 0, 4, payload_of(&[("key", "value")]));
    assert_eq!(r, Err(StoreError::DimensionMismatch));
    let info = storage.get_collection_info(&collection_name).unwrap();
    assert_eq!(info.points_count, 0);
}

#[test]
fn test_upsert_point_missing_collection() {
    let mut storage = StoreState::new();
    let collection_name = "nowhere".to_owned();
    let r = storage.upsert_point(&collection_name, 0, 3, payload_of(&[]));
    assert_eq!(r, Err(StoreError::CollectionNotFound));
}

#[test]
fn test_retrieve_point() {
    let mut storage = StoreState::new();
    let collection_name = "test_collection".to_owned();
    let topic = "test_topic".to_owned();

    storage.create_collection(&collection_name, 3).unwrap();

    let point = storage
        .get_points_by_topic(&collection_name, &topic, 3)
        .unwrap();
    assert_eq!(point.len(), 0);

    storage
        .upsert_point(&collection_name, 0, 3, payload_of(&[("topic_name", "test_topic")]))
        .unwrap();
    let point = storage
        .get_points_by_topic(&collection_name, &topic, 3)
        .unwrap();
    assert_eq!(point.len(), 1);

    storage.delete_collection(&collection_name).unwrap();
}

#[test]
fn test_retrieve_point_query_dimension_mismatch() {
    let mut storage = StoreState::new();
    let collection_name = "test_collection".to_owned();
    let topic = "test_topic".to_owned();
    storage.create_collection(&collection_name, 3).unwrap();

    let r = storage.get_points_by_topic(&collection_name, &topic, 4);
    match r {
        Err(e) => assert_eq!(e, StoreError::DimensionMismatch),
        Ok(_) => panic!("expected a dimension mismatch"),
    }
}

#[test]
fn test_scroll_points() {
    let mut storage = StoreState::new();
    let collection_name = "test_collection".to_owned();
    let topic = "test_topic".to_owned();

    storage.create_collection(&collection_name, 3).unwrap();
    storage
        .upsert_point(&collection_name, 0, 3, payload_of(&[("topic_name", "test_topic")]))
        .unwrap();
    let points = storage
        .list_points_by_topic(&collection_name, &topic, 10)
        .unwrap();
    assert_eq!(points.len(), 1);

    storage.delete_collection(&collection_name).unwrap();
}

#[test]
fn test_scroll_points_caps_at_limit() {
    let mut storage = StoreState::new();
    let collection_name = "c".to_owned();
    let topic = "t".to_owned();
    storage.create_collection(&collection_name, 2).unwrap();
    for id in 0..5u64 {
        storage
            .upsert_point(&collection_name, id, 2, payload_of(&[("topic_name", "t")]))
            .unwrap();
    }
    let points = storage.list_points_by_topic(&collection_name, &topic, 3).unwrap();
    assert_eq!(points.len(), 3);
    let all = storage.list_points_by_topic(&collection_name, &topic, 100).unwrap();
    assert_eq!(all.len(), 5);
}

#[test]
fn test_search_points_caps_at_limit() {
    let mut storage = StoreState::new();
    let collection_name = "c".to_owned();
    storage.create_collection(&collection_name, 2).unwrap();
    for id in 0..4u64 {
        storage
            .upsert_point(&collection_name, id, 2, payload_of(&[("topic_name", "t")]))
            .unwrap();
    }
    let hits = storage.search_points(&collection_name, 2, 2).unwrap();
    assert_eq!(hits.len(), 2);
    let hits = storage.search_points(&collection_name, 2, 9).unwrap();
    assert_eq!(hits.len(), 4);
}

#[test]
fn test_delete_point() {
    let mut storage = StoreState::new();
    let collection_name = "c".to_owned();
    storage.create_collection(&collection_name, 2).unwrap();
    storage
        .upsert_point(&collection_name, 5, 2, payload_of(&[("topic_name", "t")]))
        .unwrap();
    storage.delete_point(&collection_name, 5).unwrap();
    let info = storage.get_collection_info(&collection_name).unwrap();
    assert_eq!(info.points_count, 0);
    // deleting an absent point changes nothing
    storage.delete_point(&collection_name, 5).unwrap();
}

#[test]
fn test_store_error_messages() {
    assert_eq!(
        StoreError::CollectionAlreadyExists.message(),
        "collection already exists"
    );
    assert_eq!(StoreError::CollectionNotFound.message(), "collection not found");
    assert_eq!(
        StoreError::DimensionMismatch.message(),
        "vector dimensionality mismatch"
    );
}

#[test]
fn test_payload_get() {
    let p = payload_of(&[("topic_name", "t"), ("topic_content", "c")]);
    let name_key = "topic_name".to_owned();
    let content_key = "topic_content".to_owned();
    let other_key = "other".to_owned();
    assert_eq!(p.get(&name_key).unwrap(), "t");
    assert_eq!(p.get(&content_key).unwrap(), "c");
    assert!(p.get(&other_key).is_none());
}
