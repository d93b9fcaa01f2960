//! Behavioural tests: codec round trips, predicate filtering,
//! bulk update, delete, and each error kind.

use rusqlite::Connection;
use smoldb::{Example, ExampleIndicies, Storable, Store, StoreError, User, UserIndicies};

fn sample_user(name: &str) -> User {
    User {
        id: 7,
        name: name.to_string(),
        email: "who@example.org".to_string(),
        description: "a sample".to_string(),
    }
}

fn example(id: i64, name: &str) -> Example {
    Example {
        id,
        name: name.to_string(),
        description: format!("record {}", name),
    }
}

#[test]
fn round_trip_user() {
    let r = sample_user("Ada");
    let bytes = r.encode();
    assert_eq!(User::decode(&bytes), Some(r));
}

#[test]
fn round_trip_example() {
    let r = example(-42, "héllo 😀");
    let bytes = r.encode();
    assert_eq!(Example::decode(&bytes), Some(r));

    let r = example(i64::MAX, "");
    let bytes = r.encode();
    assert_eq!(Example::decode(&bytes), Some(r));
}

#[test]
fn round_trip_empty_strings() {
    let r = User {
        id: i64::MIN,
        name: String::new(),
        email: String::new(),
        description: String::new(),
    };
    let bytes = r.encode();
    assert_eq!(User::decode(&bytes), Some(r));
}

#[test]
fn decode_rejects_junk() {
    assert_eq!(User::decode(&vec![1u8, 2, 3]), None);
    assert_eq!(User::decode(&Vec::new()), None);
    // An Example payload has three fields, a User payload four.
    let bytes = example(1, "x").encode();
    assert_eq!(User::decode(&bytes), None);
}

#[test]
fn select_on_empty_table() {
    let mut conn = Connection::open_in_memory().unwrap();
    Store::<Example>::create_table(&mut conn, "t").unwrap();
    let rows: Vec<Example> = conn.select("t", &[]).unwrap();
    assert_eq!(&rows, &[]);
}

#[test]
fn predicate_filters_rows() {
    let mut conn = Connection::open_in_memory().unwrap();
    Store::<Example>::create_table(&mut conn, "t").unwrap();
    conn.insert("t", &example(1, "a")).unwrap();
    conn.insert("t", &example(1, "b")).unwrap();
    conn.insert("t", &example(2, "a")).unwrap();

    let rows: Vec<Example> = conn.select("t", &[ExampleIndicies::Id(1)]).unwrap();
    assert_eq!(rows.len(), 2);
    assert!(rows.iter().all(|r| r.id == 1));

    let rows: Vec<Example> = conn
        .select("t", &[ExampleIndicies::Name("a".to_string())])
        .unwrap();
    assert_eq!(rows.len(), 2);
    assert!(rows.iter().all(|r| r.name == "a"));

    // A value matching nothing is an empty result, not an error.
    let rows: Vec<Example> = conn.select("t", &[ExampleIndicies::Id(9)]).unwrap();
    assert_eq!(&rows, &[]);
}

#[test]
fn multi_predicate_intersection() {
    let mut conn = Connection::open_in_memory().unwrap();
    Store::<Example>::create_table(&mut conn, "t").unwrap();
    conn.insert("t", &example(1, "a")).unwrap();
    conn.insert("t", &example(1, "b")).unwrap();
    conn.insert("t", &example(2, "a")).unwrap();

    // Both predicates must hold: the intersection, not the union.
    let rows: Vec<Example> = conn
        .select(
            "t",
            &[ExampleIndicies::Id(1), ExampleIndicies::Name("a".to_string())],
        )
        .unwrap();
    assert_eq!(&rows, &[example(1, "a")]);
}

#[test]
fn update_then_select() {
    let mut conn = Connection::open_in_memory().unwrap();
    Store::<User>::create_table(&mut conn, "t").unwrap();
    conn.insert("t", &sample_user("old")).unwrap();
    conn.insert("t", &sample_user("other")).unwrap();

    let replacement = sample_user("new");
    conn.update("t", &[UserIndicies::Name("old".to_string())], &replacement)
        .unwrap();

    let rows: Vec<User> = conn
        .select("t", &[UserIndicies::Name("new".to_string())])
        .unwrap();
    assert_eq!(&rows, &[replacement]);

    let rows: Vec<User> = conn
        .select("t", &[UserIndicies::Name("old".to_string())])
        .unwrap();
    assert_eq!(&rows, &[]);

    let rows: Vec<User> = conn
        .select("t", &[UserIndicies::Name("other".to_string())])
        .unwrap();
    assert_eq!(&rows, &[sample_user("other")]);
}

#[test]
fn update_overwrites_every_match() {
    let mut conn = Connection::open_in_memory().unwrap();
    Store::<Example>::create_table(&mut conn, "t").unwrap();
    conn.insert("t", &example(1, "x")).unwrap();
    conn.insert("t", &example(2, "x")).unwrap();

    // Both rows match: both become duplicates of the replacement.
    let replacement = example(9, "y");
    conn.update("t", &[ExampleIndicies::Name("x".to_string())], &replacement)
        .unwrap();

    let rows: Vec<Example> = conn.select("t", &[]).unwrap();
    assert_eq!(&rows, &[replacement.clone(), replacement]);
}

#[test]
fn delete_matching_and_all() {
    let mut conn = Connection::open_in_memory().unwrap();
    Store::<Example>::create_table(&mut conn, "t").unwrap();
    conn.insert("t", &example(1, "a")).unwrap();
    conn.insert("t", &example(2, "b")).unwrap();
    conn.insert("t", &example(3, "b")).unwrap();

    // Delete by predicate removes exactly the matching rows.
    Store::<Example>::delete(&mut conn, "t", &[ExampleIndicies::Name("b".to_string())]).unwrap();
    let rows: Vec<Example> = conn.select("t", &[]).unwrap();
    assert_eq!(&rows, &[example(1, "a")]);

    // Deleting with no match succeeds and removes nothing.
    Store::<Example>::delete(&mut conn, "t", &[ExampleIndicies::Id(9)]).unwrap();
    let rows: Vec<Example> = conn.select("t", &[]).unwrap();
    assert_eq!(rows.len(), 1);

    // Delete with no predicates empties the table.
    Store::<Example>::delete(&mut conn, "t", &[]).unwrap();
    let rows: Vec<Example> = conn.select("t", &[]).unwrap();
    assert_eq!(&rows, &[]);
}

#[test]
fn create_existing_table_is_schema_error() {
    let mut conn = Connection::open_in_memory().unwrap();
    Store::<Example>::create_table(&mut conn, "t").unwrap();
    let r = Store::<Example>::create_table(&mut conn, "t");
    assert!(matches!(r, Err(StoreError::Schema(_))));
}

#[test]
fn missing_table_is_engine_error() {
    let mut conn = Connection::open_in_memory().unwrap();
    let r = conn.insert("missing", &example(1, "a"));
    assert!(matches!(r, Err(StoreError::Engine(_))));
    let r: Result<Vec<Example>, StoreError> = conn.select("missing", &[]);
    assert!(matches!(r, Err(StoreError::Engine(_))));
}

#[test]
fn corrupt_payload_is_decode_error() {
    let mut conn = Connection::open_in_memory().unwrap();
    Store::<Example>::create_table(&mut conn, "t").unwrap();
    // Write a row behind the store's back, with a payload that is not
    // an encoding of any record.
    conn.execute(
        "INSERT INTO t (id, name, __object) VALUES (?1, ?2, ?3);",
        rusqlite::params_from_iter(vec![
            rusqlite::types::Value::Integer(1),
            rusqlite::types::Value::Text("a".to_string()),
            rusqlite::types::Value::Blob(vec![0xde, 0xad, 0xbe, 0xef]),
        ]),
    )
    .unwrap();
    let r: Result<Vec<Example>, StoreError> = conn.select("t", &[]);
    assert!(matches!(r, Err(StoreError::Decode)));
}

#[test]
fn insert_then_select_one() {
    let mut conn = Connection::open_in_memory().unwrap();
    Store::<Example>::create_table(&mut conn, "t").unwrap();
    let r = example(5, "only");
    conn.insert("t", &r).unwrap();
    let rows: Vec<Example> = conn.select("t", &[]).unwrap();
    assert_eq!(&rows, &[r]);
}
