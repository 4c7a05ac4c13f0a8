use topic_storage::embedding::{EmbedOutcome, EmbeddingError};
use topic_storage::idea::Idea;
use topic_storage::store::StoreState;
use topic_storage::topic::{TopicStorage, TopicStorageError, point_id_for_topic};

fn embedded(dim: u64) -> EmbedOutcome {
    EmbedOutcome::Embedded { dim }
}

fn idea(topic: &str, content: &str) -> Idea {
    Idea::new(topic.to_owned(), content.to_owned(), None)
}

#[test]
fn test_topic_storage_create_and_update() {
    let topic_storage = TopicStorage::new();
    let mut store = StoreState::new();
    let topic = "test_topic".to_owned();

    let result = topic_storage.create_topic(
        &mut store,
        &topic,
        idea("test_topic", "This is test content"),
        &embedded(3),
    );
    assert!(result.is_ok(), "Failed to create topic");

    let result = topic_storage.update_topic(
        &mut store,
        &topic,
        idea("test_topic", "This is updated content"),
        &embedded(3),
    );
    assert!(result.is_ok(), "Failed to update topic");

    let results = topic_storage.list_topic(&store, &topic, 10).unwrap();
    assert_eq!(results, vec!["This is updated content".to_owned()]);
}

#[test]
fn test_topic_storage_multiple_topics() {
    let topic_storage = TopicStorage::new();
    let mut store = StoreState::new();

    let topics = vec![
        ("topic1", "Content for topic 1"),
        ("topic2", "Content for topic 2"),
        ("topic3", "Content for topic 3"),
    ];

    for (topic_name, content) in topics {
        let owned = topic_name.to_owned();
        let result =
            topic_storage.create_topic(&mut store, &owned, idea(topic_name, content), &embedded(3));
        assert!(result.is_ok(), "Failed to create topic {}", topic_name);
    }

    // each topic lists exactly its own content and none of the others'
    for (topic_name, content) in
        [("topic1", "Content for topic 1"), ("topic2", "Content for topic 2"), ("topic3", "Content for topic 3")]
    {
        let owned = topic_name.to_owned();
        let results = topic_storage.list_topic(&store, &owned, 10).unwrap();
        assert_eq!(results, vec![content.to_owned()]);
    }
}

#[test]
fn test_topic_storage_search() {
    let topic_storage = TopicStorage::new();
    let mut store = StoreState::new();

    let topic_name = "search_test_topic".to_owned();
    let content = "This is test content for searching";

    let result = topic_storage.create_topic(
        &mut store,
        &topic_name,
        idea("search_test_topic", content),
        &embedded(3),
    );
    assert!(result.is_ok(), "Failed to create topic");

    // searching the same topic with the content as query finds the content
    let query = content.to_owned();
    let search_results =
        topic_storage.search_topic(&store, Some(&topic_name), &query, 10, &embedded(3));
    assert!(search_results.is_ok(), "Failed to search topic");

    let results = search_results.unwrap();
    assert!(!results.is_empty(), "Search results should not be empty");
    assert!(
        results.iter().any(|i| i.content == content),
        "Search results should contain the original content"
    );
}

#[test]
fn test_create_on_fresh_store_sets_dimensionality() {
    let topic_storage = TopicStorage::new();
    let mut store = StoreState::new();
    let topic = "t".to_owned();
    let collection = "topic_storage".to_owned();

    assert!(!store.collection_exists(&collection));
    topic_storage
        .create_topic(&mut store, &topic, idea("t", "c"), &embedded(384))
        .unwrap();

    let info = store.get_collection_info(&collection).unwrap();
    assert_eq!(info.vector_size, 384);
    assert_eq!(info.points_count, 1);
}

#[test]
fn test_create_with_other_dimensionality_fails_second_time() {
    let topic_storage = TopicStorage::new();
    let mut store = StoreState::new();
    let first = "first".to_owned();
    let second = "second".to_owned();

    topic_storage
        .create_topic(&mut store, &first, idea("first", "a"), &embedded(3))
        .unwrap();
    let r = topic_storage.create_topic(&mut store, &second, idea("second", "b"), &embedded(4));
    match r {
        Err(TopicStorageError::QdrantError(m)) => {
            assert_eq!(m, "vector dimensionality mismatch");
        },
        _ => panic!("expected a store rejection"),
    }
    // the failed write left the store as it was
    let collection = "topic_storage".to_owned();
    let info = store.get_collection_info(&collection).unwrap();
    assert_eq!(info.vector_size, 3);
    assert_eq!(info.points_count, 1);
}

#[test]
fn test_search_without_topic_respects_limit() {
    let topic_storage = TopicStorage::new();
    let mut store = StoreState::new();
    for (t, c) in [("a", "1"), ("b", "2"), ("c", "3")] {
        let owned = t.to_owned();
        topic_storage
            .create_topic(&mut store, &owned, idea(t, c), &embedded(3))
            .unwrap();
    }
    let query = "anything".to_owned();
    let results = topic_storage
        .search_topic(&store, None, &query, 2, &embedded(3))
        .unwrap();
    assert_eq!(results.len(), 2);
}

#[test]
fn test_search_with_topic_returns_only_that_topic() {
    let topic_storage = TopicStorage::new();
    let mut store = StoreState::new();
    for (t, c) in [("a", "1"), ("b", "2"), ("c", "3")] {
        let owned = t.to_owned();
        topic_storage
            .create_topic(&mut store, &owned, idea(t, c), &embedded(3))
            .unwrap();
    }
    let topic = "b".to_owned();
    let query = "anything".to_owned();
    let results = topic_storage
        .search_topic(&store, Some(&topic), &query, 10, &embedded(3))
        .unwrap();
    assert_eq!(results.len(), 1);
    assert_eq!(results[0].topic_name, "b");
    assert_eq!(results[0].content, "2");
    assert_eq!(results[0].id, Some(point_id_for_topic(&topic)));
}

#[test]
fn test_list_topic_caps_at_limit() {
    let topic_storage = TopicStorage::new();
    let mut store = StoreState::new();
    let topic = "t".to_owned();
    topic_storage
        .create_topic(&mut store, &topic, idea("t", "c"), &embedded(3))
        .unwrap();
    let results = topic_storage.list_topic(&store, &topic, 0).unwrap();
    assert!(results.is_empty());
}

#[test]
fn test_failed_embed_aborts_before_any_store_mutation() {
    let topic_storage = TopicStorage::new();
    let mut store = StoreState::new();
    let topic = "t".to_owned();
    let outcome = EmbedOutcome::Failed {
        error: EmbeddingError::RequestError("Failed to send request".to_owned()),
    };
    let r = topic_storage.create_topic(&mut store, &topic, idea("t", "c"), &outcome);
    match r {
        Err(TopicStorageError::EmbeddingError(EmbeddingError::RequestError(m))) => {
            assert_eq!(m, "Failed to send request");
        },
        _ => panic!("expected the embedding failure"),
    }
    // no collection was created with a wrong or missing dimensionality
    let collection = "topic_storage".to_owned();
    assert!(!store.collection_exists(&collection));
}

#[test]
fn test_update_topic_without_collection_fails() {
    let topic_storage = TopicStorage::new();
    let mut store = StoreState::new();
    let topic = "t".to_owned();
    let r = topic_storage.update_topic(&mut store, &topic, idea("t", "c"), &embedded(3));
    match r {
        Err(TopicStorageError::QdrantError(m)) => assert_eq!(m, "collection not found"),
        _ => panic!("expected a store rejection"),
    }
}

#[test]
fn test_search_missing_collection_fails() {
    let topic_storage = TopicStorage::new();
    let store = StoreState::new();
    let query = "q".to_owned();
    let r = topic_storage.search_topic(&store, None, &query, 10, &embedded(3));
    match r {
        Err(TopicStorageError::QdrantError(m)) => assert_eq!(m, "collection not found"),
        _ => panic!("expected a store rejection"),
    }
}

#[test]
fn test_delete_idea_removes_the_topic_slot() {
    let topic_storage = TopicStorage::new();
    let mut store = StoreState::new();
    let topic = "t".to_owned();
    topic_storage
        .create_topic(&mut store, &topic, idea("t", "c"), &embedded(3))
        .unwrap();
    topic_storage
        .delete_idea(&mut store, point_id_for_topic(&topic))
        .unwrap();
    let results = topic_storage.list_topic(&store, &topic, 10).unwrap();
    assert!(results.is_empty());
}

#[test]
fn test_point_id_is_fnv1a_of_the_topic_name() {
    // the standard 64-bit FNV-1a test vectors
    let empty = "".to_owned();
    assert_eq!(point_id_for_topic(&empty), 0xcbf29ce484222325);
    let a = "a".to_owned();
    assert_eq!(point_id_for_topic(&a), 0xaf63dc4c8601ec8c);
}

#[test]
fn test_embedding_error_message() {
    let e = EmbeddingError::RequestError("Failed to parse response".to_owned());
    assert_eq!(e.message(), "Failed to parse response");
}

#[test]
fn test_list_unaffected_by_unreadable_points_of_other_topics() {
    // a point the listing cannot return may lack the payload fields entirely
    let topic_storage = TopicStorage::new();
    let mut store = StoreState::new();
    let topic = "mine".to_owned();
    topic_storage
        .create_topic(&mut store, &topic, idea("mine", "my note"), &embedded(3))
        .unwrap();
    let collection = "topic_storage".to_owned();
    let mut foreign = topic_storage::payload::Payload::new();
    foreign.push("unrelated".to_owned(), "data".to_owned());
    store.upsert_point(&collection, 12345, 3, foreign).unwrap();

    let results = topic_storage.list_topic(&store, &topic, 10).unwrap();
    assert_eq!(results, vec!["my note".to_owned()]);
}
