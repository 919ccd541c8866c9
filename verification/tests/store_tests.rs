use semantic_index::vector_store::{
    error_indicates_missing_collection, metadata_to_payload, parse_point_id, payload_line,
    payload_text, point_id_string, search_result_from_point, search_results_from_points,
    CollectionModel, DocumentMetadata, PayloadEntry, PayloadValue, PointIdKind, ScoredPoint,
    VectorDocument,
};

fn sample_metadata(content: &str) -> DocumentMetadata {
    DocumentMetadata {
        file_path: "math.rs".to_string(),
        start_line: 0,
        end_line: 0,
        content: content.to_string(),
        language: "rust".to_string(),
        element_type: "function".to_string(),
        project_id: "p1".to_string(),
        worktree_id: "w1".to_string(),
    }
}

fn point(id: PointIdKind, score: i64, content: &str) -> ScoredPoint {
    ScoredPoint {
        id,
        score,
        payload: metadata_to_payload(&sample_metadata(content)),
    }
}

#[test]
fn payload_round_trips_every_field() {
    let m = DocumentMetadata {
        file_path: "src/lib.rs".to_string(),
        start_line: 3,
        end_line: 17,
        content: "fn add(a: i32, b: i32) -> i32 { a + b }".to_string(),
        language: "rust".to_string(),
        element_type: "function".to_string(),
        project_id: "proj".to_string(),
        worktree_id: "tree".to_string(),
    };
    let p = metadata_to_payload(&m);
    assert_eq!(p.len(), 8);
    assert_eq!(payload_text(&p, "file_path"), "src/lib.rs");
    assert_eq!(payload_line(&p, "start_line"), 3);
    assert_eq!(payload_line(&p, "end_line"), 17);
    assert_eq!(
        payload_text(&p, "content"),
        "fn add(a: i32, b: i32) -> i32 { a + b }"
    );
    assert_eq!(payload_text(&p, "language"), "rust");
    assert_eq!(payload_text(&p, "element_type"), "function");
    assert_eq!(payload_text(&p, "project_id"), "proj");
    assert_eq!(payload_text(&p, "worktree_id"), "tree");
}

#[test]
fn missing_payload_fields_get_defaults() {
    let p: Vec<PayloadEntry> = Vec::new();
    assert_eq!(payload_text(&p, "file_path"), "");
    assert_eq!(payload_line(&p, "start_line"), 0);
    let odd = vec![PayloadEntry {
        key: "start_line".to_string(),
        value: PayloadValue::Text("not a number".to_string()),
    }];
    assert_eq!(payload_line(&odd, "start_line"), 0);
    let negative = vec![PayloadEntry {
        key: "start_line".to_string(),
        value: PayloadValue::Integer(-5),
    }];
    assert_eq!(payload_line(&negative, "start_line"), 0);
}

#[test]
fn point_ids_encode_decimal_strings_as_numbers() {
    match parse_point_id("12345") {
        PointIdKind::Num(n) => assert_eq!(n, 12345),
        _ => panic!("decimal string should become a numeric id"),
    }
    match parse_point_id("550e8400-e29b-41d4-a716-446655440000") {
        PointIdKind::Uuid(s) => assert_eq!(s, "550e8400-e29b-41d4-a716-446655440000"),
        _ => panic!("uuid-shaped string should stay a uuid id"),
    }
    // Too large for sixty-four bits: travels as a plain string.
    match parse_point_id("99999999999999999999999999") {
        PointIdKind::Uuid(s) => assert_eq!(s, "99999999999999999999999999"),
        _ => panic!("overflowing decimal should stay a string id"),
    }
    match parse_point_id("") {
        PointIdKind::Uuid(s) => assert_eq!(s, ""),
        _ => panic!("empty id should stay a string id"),
    }
}

#[test]
fn point_id_strings_round_trip() {
    assert_eq!(point_id_string(&PointIdKind::Num(0)), "0");
    assert_eq!(point_id_string(&PointIdKind::Num(987654321)), "987654321");
    assert_eq!(
        point_id_string(&PointIdKind::Uuid("abc".to_string())),
        "abc"
    );
    assert_eq!(point_id_string(&PointIdKind::Missing), "");
    match parse_point_id("42") {
        k @ PointIdKind::Num(_) => assert_eq!(point_id_string(&k), "42"),
        _ => panic!("expected numeric id"),
    }
}

#[test]
fn search_reconstitutes_payload_fields() {
    let p = point(PointIdKind::Num(7), 900_000, "fn f() {}");
    let r = search_result_from_point(&p);
    assert_eq!(r.id, "7");
    assert_eq!(r.score, 900_000);
    assert_eq!(r.file_path, "math.rs");
    assert_eq!(r.start_line, 0);
    assert_eq!(r.end_line, 0);
    assert_eq!(r.content, "fn f() {}");
    assert_eq!(r.language, "rust");
    assert_eq!(r.element_type, "function");
}

#[test]
fn threshold_enforcement_keeps_two_of_three() {
    let points = vec![
        point(PointIdKind::Num(1), 900_000, "a"),
        point(PointIdKind::Num(2), 600_000, "b"),
        point(PointIdKind::Num(3), 300_000, "c"),
    ];
    let results = search_results_from_points(&points, 5, 500_000);
    assert_eq!(results.len(), 2);
    assert_eq!(results[0].score, 900_000);
    assert_eq!(results[1].score, 600_000);
    assert_eq!(results[0].id, "1");
    assert_eq!(results[1].id, "2");
}

#[test]
fn search_respects_limit_and_order() {
    let points = vec![
        point(PointIdKind::Num(1), 800_000, "a"),
        point(PointIdKind::Num(2), 700_000, "b"),
        point(PointIdKind::Num(3), 600_000, "c"),
    ];
    let results = search_results_from_points(&points, 2, 0);
    assert_eq!(results.len(), 2);
    assert!(results[0].score >= results[1].score);
    assert_eq!(results[0].id, "1");
    assert_eq!(results[1].id, "2");
}

#[test]
fn raising_the_threshold_shrinks_the_result_set() {
    let points = vec![
        point(PointIdKind::Num(1), 900_000, "a"),
        point(PointIdKind::Num(2), 600_000, "b"),
        point(PointIdKind::Num(3), 300_000, "c"),
    ];
    let low = search_results_from_points(&points, 10, 300_000);
    let high = search_results_from_points(&points, 10, 600_000);
    let low_ids: Vec<&str> = low.iter().map(|r| r.id.as_str()).collect();
    for r in &high {
        assert!(low_ids.contains(&r.id.as_str()));
    }
    assert!(high.len() <= low.len());
}

#[test]
fn empty_corpus_search_returns_nothing() {
    let points: Vec<ScoredPoint> = Vec::new();
    let results = search_results_from_points(&points, 10, 500_000);
    assert!(results.is_empty());
}

fn doc(id: &str, content: &str, dim: usize) -> VectorDocument {
    VectorDocument {
        id: id.to_string(),
        embedding: vec![1_000_000; dim],
        metadata: sample_metadata(content),
    }
}

#[test]
fn upsert_same_batch_twice_leaves_count_unchanged() {
    let mut c = CollectionModel::new(3);
    let batch = vec![doc("a", "v1", 3), doc("b", "v1", 3)];
    let batch_again = vec![doc("a", "v1", 3), doc("b", "v1", 3)];
    c.insert_documents(batch);
    assert_eq!(c.collection_count(), 2);
    c.insert_documents(batch_again);
    assert_eq!(c.collection_count(), 2);
}

#[test]
fn upsert_overwrites_and_search_sees_the_new_content() {
    let mut c = CollectionModel::new(2);
    c.insert_documents(vec![doc("a", "v1", 2)]);
    c.insert_documents(vec![doc("a", "v2", 2)]);
    assert_eq!(c.collection_count(), 1);
    let stored = &c.docs[0];
    assert_eq!(stored.metadata.content, "v2");
    let points = vec![ScoredPoint {
        id: parse_point_id(&stored.id),
        score: 900_000,
        payload: metadata_to_payload(&stored.metadata),
    }];
    let results = search_results_from_points(&points, 10, 500_000);
    assert_eq!(results.len(), 1);
    assert_eq!(results[0].content, "v2");
}

#[test]
fn delete_removes_listed_ids_and_ignores_unknown_ones() {
    let mut c = CollectionModel::new(2);
    c.insert_documents(vec![doc("a", "x", 2), doc("b", "y", 2), doc("c", "z", 2)]);
    c.delete_documents(&vec!["b".to_string(), "nope".to_string()]);
    assert_eq!(c.collection_count(), 2);
    let ids: Vec<&str> = c.docs.iter().map(|d| d.id.as_str()).collect();
    assert_eq!(ids, vec!["a", "c"]);
}

#[test]
fn missing_collection_errors_map_to_false() {
    assert!(error_indicates_missing_collection(
        "Collection `code` doesn't exist!"
    ));
    assert!(!error_indicates_missing_collection("connection refused"));
}
