use topic_storage::codec::{CodecError, decode_request, decode_response, encode_request, encode_response};
use topic_storage::daemon::Daemon;
use topic_storage::embedding::EmbedOutcome;
use topic_storage::idea::{Idea, PointIdRepr, PointRecord, try_extract_u64_id};
use topic_storage::payload::Payload;
use topic_storage::protocol::{
    CreateTopicRequest, CreateTopicResponse, ListTopicRequest, ListTopicResponse, Request,
    Response, SearchTopicRequest, SearchTopicResponse, UpdateTopicRequest, UpdateTopicResponse,
    request_text,
};
use topic_storage::store::StoreState;
use topic_storage::topic::TopicStorage;

#[test]
fn test_request_round_trip_create() {
    let m = Request::CreateTopic(CreateTopicRequest {
        topic_name: "ideas".to_owned(),
        content: "naming is hard".to_owned(),
    });
    let bytes = encode_request(&m);
    match decode_request(&bytes).unwrap() {
        Request::CreateTopic(q) => {
            assert_eq!(q.topic_name, "ideas");
            assert_eq!(q.content, "naming is hard");
        },
        _ => panic!("wrong request kind"),
    }
}

#[test]
fn test_request_round_trip_update() {
    let m = Request::UpdateTopic(UpdateTopicRequest {
        topic_name: "ideas".to_owned(),
        content: "renamed".to_owned(),
    });
    let bytes = encode_request(&m);
    match decode_request(&bytes).unwrap() {
        Request::UpdateTopic(q) => {
            assert_eq!(q.topic_name, "ideas");
            assert_eq!(q.content, "renamed");
        },
        _ => panic!("wrong request kind"),
    }
}

#[test]
fn test_request_round_trip_search_with_and_without_topic() {
    let with_topic = Request::SearchTopic(SearchTopicRequest {
        topic_name: Some("ideas".to_owned()),
        query: "hard naming".to_owned(),
        limit: 10,
    });
    let bytes = encode_request(&with_topic);
    match decode_request(&bytes).unwrap() {
        Request::SearchTopic(q) => {
            assert_eq!(q.topic_name, Some("ideas".to_owned()));
            assert_eq!(q.query, "hard naming");
            assert_eq!(q.limit, 10);
        },
        _ => panic!("wrong request kind"),
    }

    let without_topic = Request::SearchTopic(SearchTopicRequest {
        topic_name: None,
        query: "hard naming".to_owned(),
        limit: 7,
    });
    let bytes = encode_request(&without_topic);
    match decode_request(&bytes).unwrap() {
        Request::SearchTopic(q) => {
            assert_eq!(q.topic_name, None);
            assert_eq!(q.query, "hard naming");
            assert_eq!(q.limit, 7);
        },
        _ => panic!("wrong request kind"),
    }
}

#[test]
fn test_request_round_trip_list() {
    let m = Request::ListTopic(ListTopicRequest { topic_name: "ideas".to_owned(), limit: 25 });
    let bytes = encode_request(&m);
    match decode_request(&bytes).unwrap() {
        Request::ListTopic(q) => {
            assert_eq!(q.topic_name, "ideas");
            assert_eq!(q.limit, 25);
        },
        _ => panic!("wrong request kind"),
    }
}

#[test]
fn test_request_round_trip_unicode_content() {
    let m = Request::CreateTopic(CreateTopicRequest {
        topic_name: "gedanken".to_owned(),
        content: "Ideen: naïve Größe 観念 🚀".to_owned(),
    });
    let bytes = encode_request(&m);
    match decode_request(&bytes).unwrap() {
        Request::CreateTopic(q) => {
            assert_eq!(q.content, "Ideen: naïve Größe 観念 🚀");
        },
        _ => panic!("wrong request kind"),
    }
}

#[test]
fn test_response_round_trips() {
    let bytes = encode_response(&Response::CreateTopic(CreateTopicResponse { success: true }));
    assert_eq!(bytes, vec![0u8, 1]);
    assert!(matches!(
        decode_response(&bytes).unwrap(),
        Response::CreateTopic(CreateTopicResponse { success: true })
    ));

    let bytes = encode_response(&Response::UpdateTopic(UpdateTopicResponse { success: false }));
    assert_eq!(bytes, vec![1u8, 0]);
    assert!(matches!(
        decode_response(&bytes).unwrap(),
        Response::UpdateTopic(UpdateTopicResponse { success: false })
    ));

    let m = Response::SearchTopic(SearchTopicResponse {
        results: vec!["one".to_owned(), "two".to_owned()],
    });
    match decode_response(&encode_response(&m)).unwrap() {
        Response::SearchTopic(p) => {
            assert_eq!(p.results, vec!["one".to_owned(), "two".to_owned()])
        },
        _ => panic!("wrong response kind"),
    }

    let m = Response::ListTopic(ListTopicResponse { results: Vec::new() });
    match decode_response(&encode_response(&m)).unwrap() {
        Response::ListTopic(p) => assert!(p.results.is_empty()),
        _ => panic!("wrong response kind"),
    }
}

#[test]
fn test_request_exact_wire_bytes() {
    let m = Request::ListTopic(ListTopicRequest { topic_name: "ab".to_owned(), limit: 7 });
    let bytes = encode_request(&m);
    assert_eq!(bytes, vec![3u8, 2, 0, 0, 0, 0, 0, 0, 0, 97, 98, 7, 0, 0, 0]);
}

#[test]
fn test_decode_rejects_malformed_input() {
    // empty buffer
    assert!(matches!(decode_request(&Vec::new()), Err(CodecError::Malformed)));
    // unknown tag
    assert!(matches!(decode_request(&vec![9u8]), Err(CodecError::Malformed)));
    // truncated: a write request with no fields
    assert!(matches!(decode_request(&vec![0u8]), Err(CodecError::Malformed)));
    // trailing bytes after a whole message
    let mut bytes = encode_request(&Request::ListTopic(ListTopicRequest {
        topic_name: "ab".to_owned(),
        limit: 7,
    }));
    bytes.push(0);
    assert!(matches!(decode_request(&bytes), Err(CodecError::Malformed)));
    // a string length larger than the buffer
    assert!(matches!(
        decode_request(&vec![0u8, 255, 255, 255, 255, 255, 255, 255, 255]),
        Err(CodecError::Malformed)
    ));
    // invalid UTF-8 inside a string
    assert!(matches!(
        decode_request(&vec![3u8, 1, 0, 0, 0, 0, 0, 0, 0, 0xff, 7, 0, 0, 0]),
        Err(CodecError::Malformed)
    ));
    // a bool byte that is neither 0 nor 1
    assert!(matches!(decode_response(&vec![0u8, 2]), Err(CodecError::Malformed)));
}

#[test]
fn test_request_text_picks_what_to_embed() {
    let create = Request::CreateTopic(CreateTopicRequest {
        topic_name: "t".to_owned(),
        content: "body".to_owned(),
    });
    assert_eq!(request_text(&create), Some(&"body".to_owned()));
    let search = Request::SearchTopic(SearchTopicRequest {
        topic_name: None,
        query: "q".to_owned(),
        limit: 1,
    });
    assert_eq!(request_text(&search), Some(&"q".to_owned()));
    let list = Request::ListTopic(ListTopicRequest { topic_name: "t".to_owned(), limit: 1 });
    assert_eq!(request_text(&list), None);
}

#[test]
fn test_daemon_processes_one_connection_worth_of_messages() {
    let daemon = Daemon::new(TopicStorage::new());
    let mut store = StoreState::new();
    let embed = EmbedOutcome::Embedded { dim: 3 };

    let create = Request::CreateTopic(CreateTopicRequest {
        topic_name: "ideas".to_owned(),
        content: "first note".to_owned(),
    });
    let response = daemon.process_request(&mut store, &embed, create).unwrap();
    assert!(matches!(
        response,
        Response::CreateTopic(CreateTopicResponse { success: true })
    ));

    let update = Request::UpdateTopic(UpdateTopicRequest {
        topic_name: "ideas".to_owned(),
        content: "second note".to_owned(),
    });
    let response = daemon.process_request(&mut store, &embed, update).unwrap();
    assert!(matches!(
        response,
        Response::UpdateTopic(UpdateTopicResponse { success: true })
    ));

    let search = Request::SearchTopic(SearchTopicRequest {
        topic_name: Some("ideas".to_owned()),
        query: "note".to_owned(),
        limit: 10,
    });
    match daemon.process_request(&mut store, &embed, search).unwrap() {
        Response::SearchTopic(p) => assert_eq!(p.results, vec!["second note".to_owned()]),
        _ => panic!("wrong response kind"),
    }

    let list = Request::ListTopic(ListTopicRequest { topic_name: "ideas".to_owned(), limit: 10 });
    match daemon.process_request(&mut store, &embed, list).unwrap() {
        Response::ListTopic(p) => assert_eq!(p.results, vec!["second note".to_owned()]),
        _ => panic!("wrong response kind"),
    }
}

#[test]
fn test_daemon_round_trips_encoded_messages() {
    let daemon = Daemon::new(TopicStorage::new());
    let mut store = StoreState::new();
    let embed = EmbedOutcome::Embedded { dim: 3 };

    let wire = encode_request(&Request::CreateTopic(CreateTopicRequest {
        topic_name: "ideas".to_owned(),
        content: "first note".to_owned(),
    }));
    let request = decode_request(&wire).unwrap();
    assert_eq!(request_text(&request), Some(&"first note".to_owned()));
    let response = daemon.process_request(&mut store, &embed, request).unwrap();
    let wire_back = encode_response(&response);
    assert_eq!(wire_back, vec![0u8, 1]);
}

#[test]
fn test_try_extract_u64_id() {
    assert_eq!(try_extract_u64_id(PointIdRepr::Num(42)), Some(42));
    assert_eq!(try_extract_u64_id(PointIdRepr::Unset), None);
}

#[test]
fn test_idea_from_record() {
    let mut payload = Payload::new();
    payload.push("topic_name".to_owned(), "ideas".to_owned());
    payload.push("topic_content".to_owned(), "first note".to_owned());
    let record = PointRecord { id: PointIdRepr::Num(9), payload };
    let idea = Idea::from_record(&record);
    assert_eq!(idea.topic_name, "ideas");
    assert_eq!(idea.content, "first note");
    assert_eq!(idea.id, Some(9));
}

#[test]
fn test_idea_new_keeps_its_fields() {
    let idea = Idea::new("t".to_owned(), "c".to_owned(), Some(3));
    assert_eq!(idea.topic_name, "t");
    assert_eq!(idea.content, "c");
    assert_eq!(idea.id, Some(3));
}

#[test]
fn test_daemon_list_on_fresh_store_reports_the_store_error() {
    // a listing needs no embedding, so even a failed embed outcome reaches
    // the storage layer, whose rejection comes back unchanged
    let daemon = Daemon::new(TopicStorage::new());
    let mut store = StoreState::new();
    let embed = EmbedOutcome::Failed {
        error: topic_storage::embedding::EmbeddingError::RequestError(
            "Failed to send request".to_owned(),
        ),
    };
    let list = Request::ListTopic(ListTopicRequest { topic_name: "ideas".to_owned(), limit: 10 });
    match daemon.process_request(&mut store, &embed, list) {
        Err(topic_storage::topic::TopicStorageError::QdrantError(m)) => {
            assert_eq!(m, "collection not found");
        },
        _ => panic!("expected the store rejection"),
    }
}
