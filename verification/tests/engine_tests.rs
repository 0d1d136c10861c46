//! The in-memory store engine: conditional create and update semantics,
//! point lookups, deletes, attribute-equality queries and their paging.

use tilescore::attr::{AttrValue, Record};
use tilescore::engine::InMemoryStore;
use tilescore::errors::StoreError;
use tilescore::store::{
    DeleteCondition, DeleteRequest, GetRequest, PutCondition, PutRequest, QueryRequest, TableKind,
    WriteOperation, read_version,
};

fn requirement_record(id: &str, city: &str) -> Record {
    let mut rec = Record::new();
    rec.push("RequirementId", AttrValue::S(id.to_string()));
    rec.push("CityCode", AttrValue::S(city.to_string()));
    rec
}

fn requirement_key(id: &str) -> Record {
    let mut rec = Record::new();
    rec.push("RequirementId", AttrValue::S(id.to_string()));
    rec
}

fn put(table: TableKind, item: Record, condition: PutCondition) -> WriteOperation {
    WriteOperation::Put(PutRequest {
        table,
        item,
        condition,
    })
}

fn get_string(rec: &Record, name: &str) -> String {
    match rec.get(name) {
        Some(AttrValue::S(s)) => s.clone(),
        _ => panic!("expected a string attribute"),
    }
}

#[test]
fn conditional_create_fresh_key_has_version_one() {
    let mut store = InMemoryStore::new();
    let op = put(
        TableKind::Requirements,
        requirement_record("r-1", "ADL"),
        PutCondition::MustNotExist,
    );
    assert!(store.write_single(op).is_ok());
    let stored = store
        .read_single(&GetRequest {
            table: TableKind::Requirements,
            key: requirement_key("r-1"),
        })
        .unwrap()
        .unwrap();
    assert_eq!(read_version(&stored), Some(1));
    assert_eq!(get_string(&stored, "CityCode"), "ADL".to_string());
}

#[test]
fn conditional_create_existing_key_fails() {
    let mut store = InMemoryStore::new();
    let first = put(
        TableKind::Requirements,
        requirement_record("r-1", "ADL"),
        PutCondition::MustNotExist,
    );
    assert!(store.write_single(first).is_ok());
    let second = put(
        TableKind::Requirements,
        requirement_record("r-1", "SYD"),
        PutCondition::MustNotExist,
    );
    assert_eq!(
        store.write_single(second),
        Err(StoreError::ItemAlreadyExists)
    );
    // the stored record is untouched
    let stored = store
        .read_single(&GetRequest {
            table: TableKind::Requirements,
            key: requirement_key("r-1"),
        })
        .unwrap()
        .unwrap();
    assert_eq!(get_string(&stored, "CityCode"), "ADL".to_string());
}

#[test]
fn conditional_update_versions() {
    let mut store = InMemoryStore::new();
    let create = put(
        TableKind::Requirements,
        requirement_record("r-1", "ADL"),
        PutCondition::MustNotExist,
    );
    assert!(store.write_single(create).is_ok());

    // updating an absent key fails with ItemNotFound
    let absent = put(
        TableKind::Requirements,
        requirement_record("r-2", "ADL"),
        PutCondition::DeclaredVersion(2),
    );
    assert_eq!(store.write_single(absent), Err(StoreError::ItemNotFound));

    // declaring anything but v + 1 fails with VersionMismatch
    for wrong in [1, 3, 0, -5] {
        let op = put(
            TableKind::Requirements,
            requirement_record("r-1", "SYD"),
            PutCondition::DeclaredVersion(wrong),
        );
        assert_eq!(store.write_single(op), Err(StoreError::VersionMismatch));
    }

    // declaring exactly v + 1 succeeds and stores that version
    let ok = put(
        TableKind::Requirements,
        requirement_record("r-1", "SYD"),
        PutCondition::DeclaredVersion(2),
    );
    assert!(store.write_single(ok).is_ok());
    let stored = store
        .read_single(&GetRequest {
            table: TableKind::Requirements,
            key: requirement_key("r-1"),
        })
        .unwrap()
        .unwrap();
    assert_eq!(read_version(&stored), Some(2));
    assert_eq!(get_string(&stored, "CityCode"), "SYD".to_string());
}

#[test]
fn concurrent_writers_one_wins() {
    // serialized writers all declaring version v + 1 over the same base:
    // exactly one succeeds, the rest fail with VersionMismatch
    let mut store = InMemoryStore::new();
    let create = put(
        TableKind::Requirements,
        requirement_record("r-1", "ADL"),
        PutCondition::MustNotExist,
    );
    assert!(store.write_single(create).is_ok());

    let mut oks = 0;
    let mut mismatches = 0;
    for writer in 0..8 {
        let op = put(
            TableKind::Requirements,
            requirement_record("r-1", &format!("city-{}", writer)),
            PutCondition::DeclaredVersion(2),
        );
        match store.write_single(op) {
            Ok(()) => oks += 1,
            Err(StoreError::VersionMismatch) => mismatches += 1,
            Err(other) => panic!("unexpected error {:?}", other),
        }
    }
    assert_eq!(oks, 1);
    assert_eq!(mismatches, 7);
}

#[test]
fn conditional_delete() {
    let mut store = InMemoryStore::new();
    let create = put(
        TableKind::Requirements,
        requirement_record("r-1", "ADL"),
        PutCondition::MustNotExist,
    );
    assert!(store.write_single(create).is_ok());

    let wrong = WriteOperation::Delete(DeleteRequest {
        table: TableKind::Requirements,
        key: requirement_key("r-1"),
        condition: DeleteCondition::ExpectedVersion(5),
    });
    assert_eq!(store.write_single(wrong), Err(StoreError::VersionMismatch));

    let absent = WriteOperation::Delete(DeleteRequest {
        table: TableKind::Requirements,
        key: requirement_key("nope"),
        condition: DeleteCondition::ExpectedVersion(1),
    });
    assert_eq!(store.write_single(absent), Err(StoreError::ItemNotFound));

    let right = WriteOperation::Delete(DeleteRequest {
        table: TableKind::Requirements,
        key: requirement_key("r-1"),
        condition: DeleteCondition::ExpectedVersion(1),
    });
    assert!(store.write_single(right).is_ok());
    let gone = store
        .read_single(&GetRequest {
            table: TableKind::Requirements,
            key: requirement_key("r-1"),
        })
        .unwrap();
    assert!(gone.is_none());

    // unconditional delete of an absent key is a quiet no-op
    let quiet = WriteOperation::Delete(DeleteRequest {
        table: TableKind::Requirements,
        key: requirement_key("r-1"),
        condition: DeleteCondition::Unconditional,
    });
    assert!(store.write_single(quiet).is_ok());
}

#[test]
fn batch_stops_at_first_failure_without_rollback() {
    let mut store = InMemoryStore::new();
    let ops = vec![
        put(
            TableKind::Requirements,
            requirement_record("a", "ADL"),
            PutCondition::MustNotExist,
        ),
        put(
            TableKind::Requirements,
            requirement_record("a", "SYD"),
            PutCondition::MustNotExist,
        ),
        put(
            TableKind::Requirements,
            requirement_record("b", "ADL"),
            PutCondition::MustNotExist,
        ),
    ];
    assert_eq!(store.write(ops), Err(StoreError::ItemAlreadyExists));
    // the first put stays applied; the one after the failure never ran
    assert!(store
        .read_single(&GetRequest {
            table: TableKind::Requirements,
            key: requirement_key("a"),
        })
        .unwrap()
        .is_some());
    assert!(store
        .read_single(&GetRequest {
            table: TableKind::Requirements,
            key: requirement_key("b"),
        })
        .unwrap()
        .is_none());
}

fn distance_record(src: &str, dst: &str, city: &str) -> Record {
    let mut rec = Record::new();
    rec.push("SourceIndex", AttrValue::S(src.to_string()));
    rec.push("DestinationIndex", AttrValue::S(dst.to_string()));
    rec.push("CityCode", AttrValue::S(city.to_string()));
    rec
}

fn seed_distances(store: &mut InMemoryStore, rows: &[(&str, &str, &str)]) {
    for (src, dst, city) in rows {
        let op = put(
            TableKind::SpatialDistances,
            distance_record(src, dst, city),
            PutCondition::Unconditional,
        );
        assert!(store.write_single(op).is_ok());
    }
}

fn query_sources(store: &InMemoryStore, field: &str, value: &str) -> Vec<(String, String)> {
    let response = store
        .query(&QueryRequest {
            table: TableKind::SpatialDistances,
            index_name: None,
            field: field.to_string(),
            value: AttrValue::S(value.to_string()),
            limit: None,
            exclusive_start_key: None,
        })
        .unwrap();
    assert_eq!(response.count, response.items.len());
    response
        .items
        .iter()
        .map(|rec| (get_string(rec, "SourceIndex"), get_string(rec, "DestinationIndex")))
        .collect()
}

#[test]
fn query_returns_exactly_the_matching_set() {
    // the same rows inserted in two different orders select the same set
    let rows = [
        ("A", "B", "ADL"),
        ("A", "C", "ADL"),
        ("B", "C", "SYD"),
        ("C", "A", "ADL"),
    ];
    let mut forward = InMemoryStore::new();
    seed_distances(&mut forward, &rows);
    let mut backward = InMemoryStore::new();
    let mut reversed = rows;
    reversed.reverse();
    seed_distances(&mut backward, &reversed);

    for store in [&forward, &backward] {
        let mut hits = query_sources(store, "CityCode", "ADL");
        hits.sort();
        assert_eq!(
            hits,
            vec![
                ("A".to_string(), "B".to_string()),
                ("A".to_string(), "C".to_string()),
                ("C".to_string(), "A".to_string()),
            ]
        );
        let mut by_source = query_sources(store, "SourceIndex", "A");
        by_source.sort();
        assert_eq!(
            by_source,
            vec![
                ("A".to_string(), "B".to_string()),
                ("A".to_string(), "C".to_string()),
            ]
        );
        assert_eq!(query_sources(store, "SourceIndex", "Z"), vec![]);
    }
}

#[test]
fn query_pages_walk_the_whole_match_set() {
    let mut store = InMemoryStore::new();
    seed_distances(
        &mut store,
        &[
            ("A", "B", "ADL"),
            ("A", "C", "ADL"),
            ("A", "D", "ADL"),
            ("B", "A", "ADL"),
            ("A", "E", "ADL"),
        ],
    );
    let mut seen: Vec<(String, String)> = Vec::new();
    let mut start: Option<Record> = None;
    let mut pages = 0;
    loop {
        let response = store
            .query(&QueryRequest {
                table: TableKind::SpatialDistances,
                index_name: None,
                field: "SourceIndex".to_string(),
                value: AttrValue::S("A".to_string()),
                limit: Some(2),
                exclusive_start_key: start.take(),
            })
            .unwrap();
        assert!(response.items.len() <= 2);
        for rec in &response.items {
            seen.push((get_string(rec, "SourceIndex"), get_string(rec, "DestinationIndex")));
        }
        pages += 1;
        match response.last_evaluated_key {
            Some(key) => start = Some(key),
            None => break,
        }
    }
    assert_eq!(pages, 2);
    seen.sort();
    assert_eq!(
        seen,
        vec![
            ("A".to_string(), "B".to_string()),
            ("A".to_string(), "C".to_string()),
            ("A".to_string(), "D".to_string()),
            ("A".to_string(), "E".to_string()),
        ]
    );
}

#[test]
fn put_without_key_field_reports_missing_field() {
    let mut store = InMemoryStore::new();
    let mut rec = Record::new();
    rec.push("CityCode", AttrValue::S("ADL".to_string()));
    let op = put(TableKind::Requirements, rec, PutCondition::Unconditional);
    assert_eq!(store.write_single(op), Err(StoreError::MissingField));
}

#[test]
fn put_with_wrong_key_tag_reports_type_mismatch() {
    let mut store = InMemoryStore::new();
    let mut rec = Record::new();
    rec.push("RequirementId", AttrValue::N("7".to_string()));
    let op = put(TableKind::Requirements, rec, PutCondition::Unconditional);
    assert_eq!(store.write_single(op), Err(StoreError::TypeMismatch));
}

#[test]
fn error_texts_and_classification() {
    let cases = [
        (StoreError::MissingField, "missing field", false),
        (StoreError::TypeMismatch, "type mismatch", false),
        (StoreError::InvalidCursor, "invalid cursor", false),
        (StoreError::ItemAlreadyExists, "item already exists", false),
        (StoreError::ItemNotFound, "item not found", true),
        (StoreError::VersionMismatch, "version mismatch", false),
        (StoreError::UnsupportedOperation, "unsupported operation", false),
        (StoreError::RequirementNotFound, "requirement not found", true),
        (StoreError::BackendUnavailable, "backend unavailable", false),
    ];
    for (error, text, not_found) in cases {
        assert_eq!(error.message(), text);
        assert_eq!(error.is_not_found(), not_found);
        assert_eq!(tilescore::errors::ErrorResponse::of(&error).error, text.to_string());
    }
}
