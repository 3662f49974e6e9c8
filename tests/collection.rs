use nanodb::collection::{DbRefCollection, DbRefCollectionError};
use nanodb::db_post_ref::{ChunkSettings, DbPostRef};
use nanodb::post::{Post, PostMessage};
use nanodb::serialized::{DbPostRefSerialized, IndexCollection, PostHashes};

fn rc(hash: &str) -> String {
    hash.to_string()
}

fn some_ref(length: u64, parent: &str) -> DbPostRef {
    DbPostRef {
        chunk_settings: Some(ChunkSettings { chunk_index: 0, offset: 1 }),
        deleted: false,
        length,
        parent_hash: rc(parent),
    }
}

fn some_raw_ref(hash: &str, parent: &str, length: u64) -> DbPostRefSerialized {
    DbPostRefSerialized {
        hash: hash.to_string(),
        reply_to: parent.to_string(),
        offset: 1,
        length,
        deleted: false,
        chunk_name: Some("0.db3".to_string()),
    }
}

/// Ref without reclaimed space
fn some_raw_deleted_ref(hash: &str, parent: &str, length: u64) -> DbPostRefSerialized {
    DbPostRefSerialized {
        hash: hash.to_string(),
        reply_to: parent.to_string(),
        offset: 1,
        length,
        deleted: true,
        chunk_name: Some("0.db3".to_string()),
    }
}

/// Ref with reclaimed space
fn some_raw_removed_ref(hash: &str, parent: &str) -> DbPostRefSerialized {
    DbPostRefSerialized {
        hash: hash.to_string(),
        reply_to: parent.to_string(),
        offset: 1,
        length: 0,
        deleted: true,
        chunk_name: None,
    }
}

fn some_post(hash: &str, parent: &str, message: &str) -> Post {
    Post {
        hash: hash.to_string(),
        message: PostMessage::new(message.to_string()),
        reply_to: parent.to_string(),
    }
}

fn message() -> PostMessage {
    PostMessage::new("message".to_string())
}

/// A collection built from a snapshot, with an empty diff log.
fn collection(refs: Vec<DbPostRefSerialized>) -> DbRefCollection {
    DbRefCollection::new(IndexCollection { indexes: refs }, Vec::new()).unwrap()
}

/// A collection built from a snapshot and a diff log holding three records.
fn collection_with_diff(refs: Vec<DbPostRefSerialized>) -> DbRefCollection {
    let diff = vec![
        some_raw_ref("1", "0", 10),
        some_raw_ref("2", "1", 5),
        some_raw_ref("3", "1", 10),
    ];
    DbRefCollection::new(IndexCollection { indexes: refs }, diff).unwrap()
}

fn check_valid_reference(reference: &DbRefCollection) {
    let rcs = vec![rc("1"), rc("2"), rc("3")];

    assert_eq!(reference.ordered(), &rcs);

    assert_eq!(reference.get_ref("1").unwrap(), &some_ref(1, "0"));
    assert_eq!(reference.get_ref("2").unwrap(), &some_ref(5, "1"));
    assert_eq!(reference.get_ref("3").unwrap(), &some_ref(10, "1"));

    assert_eq!(reference.replies("0"), vec![rc("1")]);
    assert_eq!(reference.replies("1"), vec![rc("2"), rc("3")]);

    assert!(reference.replies("2").is_empty());
    assert!(reference.replies("3").is_empty());
}

#[test]
fn new_when_passed_index_collection_should_create_valid_reference() {
    let ref_1 = some_raw_ref("1", "0", 1);
    let ref_2 = some_raw_ref("2", "1", 5);
    let ref_3 = some_raw_ref("3", "1", 10);

    let reference = collection(vec![ref_1, ref_2, ref_3]);
    check_valid_reference(&reference);
}

#[test]
fn mod_when_passed_index_collection_should_create_valid_reference() {
    let ref_1 = some_raw_ref("1", "0", 1);
    let ref_2 = some_raw_ref("2", "1", 5);
    let ref_3 = some_raw_ref("3", "1", 10);

    let reference = DbRefCollection::new(
        IndexCollection { indexes: vec![ref_1, ref_2, ref_3] },
        Vec::new(),
    )
    .unwrap();
    check_valid_reference(&reference);
}

#[test]
fn new_when_contains_deleted_post_should_add_to_deleted() {
    let ref1 = some_raw_ref("1", "0", 1);
    let mut ref2 = some_raw_ref("2", "0", 5);
    ref2.deleted = true;

    let reference = collection(vec![ref1, ref2]);
    let deleted = reference.deleted_hashes();

    assert_eq!(deleted.len(), 1);
    assert!(deleted.contains(&rc("2")));
}

#[test]
fn mod_when_contains_deleted_post_should_add_to_deleted() {
    let ref1 = some_raw_ref("1", "0", 1);
    let mut ref2 = some_raw_ref("2", "0", 5);
    ref2.deleted = true;

    let reference =
        DbRefCollection::new(IndexCollection { indexes: vec![ref1, ref2] }, Vec::new()).unwrap();
    let deleted = reference.deleted_hashes();

    assert_eq!(deleted.len(), 1);
    assert!(deleted.contains(&rc("2")));
}

#[test]
fn new_when_there_is_unused_space_should_add_post_hash_to_free() {
    let mut ref1 = some_raw_ref("1", "0", 0);
    ref1.deleted = true;

    let mut ref2 = some_raw_ref("2", "0", 10);
    ref2.deleted = true;

    let ref3 = some_raw_ref("3", "1", 10);

    let reference = collection(vec![ref1, ref2, ref3]);
    let free = reference.free_hashes();

    assert_eq!(free.len(), 1);
    assert!(free.contains(&rc("2")))
}

#[test]
fn mod_when_there_is_unused_space_should_add_post_hash_to_free() {
    let mut ref1 = some_raw_ref("1", "0", 0);
    ref1.deleted = true;

    let mut ref2 = some_raw_ref("2", "0", 10);
    ref2.deleted = true;

    let ref3 = some_raw_ref("3", "1", 10);

    let reference = DbRefCollection::new(
        IndexCollection { indexes: vec![ref1, ref2, ref3] },
        Vec::new(),
    )
    .unwrap();
    let free = reference.free_hashes();

    assert_eq!(free.len(), 1);
    assert!(free.contains(&rc("2")))
}

#[test]
fn when_creating_new_collection_should_not_add_anything_to_diff() {
    let ref_1 = some_raw_ref("1", "0", 5);
    let ref_2 = some_raw_ref("2", "0", 3);
    let ref_3 = some_raw_ref("3", "1", 10);

    let refr = collection_with_diff(vec![ref_1, ref_2, ref_3]);

    assert!(refr.diff().is_empty());
}

#[test]
fn when_creating_new_collection_should_create_new_data_from_diff() {
    let refr = collection_with_diff(vec![]);
    assert_eq!(refr.get_ref("1").unwrap(), &some_raw_ref("1", "0", 10).split().unwrap().1);
    assert_eq!(refr.get_ref("2").unwrap(), &some_raw_ref("2", "1", 5).split().unwrap().1);
    assert_eq!(refr.get_ref("3").unwrap(), &some_raw_ref("3", "1", 10).split().unwrap().1);
}

#[test]
fn when_creating_new_collection_should_update_existing_data_from_diff() {
    let ref_1 = some_raw_ref("1", "0", 300);

    let refr = collection_with_diff(vec![ref_1]);

    assert_eq!(refr.get_ref("1").unwrap().length, 10);
}

#[test]
fn diff_record_replaces_snapshot_record() {
    let snapshot = vec![some_raw_ref("1", "0", 10)];
    let diff = vec![some_raw_ref("1", "0", 300)];
    let refr = DbRefCollection::new(IndexCollection { indexes: snapshot }, diff).unwrap();
    assert_eq!(refr.get_ref("1").unwrap().length, 300);
    assert_eq!(refr.ordered(), &vec![rc("1")]);
}

#[test]
fn malformed_chunk_name_fails_loading() {
    let mut bad = some_raw_ref("1", "0", 10);
    bad.chunk_name = Some("zero.db3".to_string());
    let result = DbRefCollection::new(IndexCollection { indexes: vec![bad] }, Vec::new());
    assert!(matches!(result, Err(DbRefCollectionError::MalformedRecord)));
}

#[test]
fn find_free_ref_should_not_return_when_chunk_settings_are_none() {
    let ref_1 = some_raw_ref("1", "0", 5);
    let ref_2 = some_raw_ref("2", "0", 5);

    let mut deleted_ref = some_raw_ref("3", "0", 100);
    deleted_ref.deleted = true;
    deleted_ref.chunk_name = None;

    let collection = collection(vec![ref_1, ref_2, deleted_ref]);

    let free_ref_hash = collection.find_free_ref(&[1, 2, 3, 4, 5]);

    assert!(free_ref_hash.is_none());
}

#[test]
fn find_free_ref_should_return_valid_ref_when_there_is_enough_space() {
    let ref_1 = some_raw_ref("1", "0", 5);
    let deleted_ref = some_raw_deleted_ref("2", "0", 10);
    let removed_ref = some_raw_removed_ref("3", "0");

    let collection = collection(vec![ref_1, deleted_ref, removed_ref]);

    let free_hash = collection.find_free_ref(&[1, 2, 3, 4]);

    assert!(free_hash.is_some());
    assert_eq!(free_hash.unwrap(), rc("2"));
}

#[test]
fn find_free_ref_should_find_most_suitable() {
    let ref_1 = some_raw_ref("1", "0", 5);
    let deleted_1 = some_raw_deleted_ref("2", "0", 10);
    let deleted_2 = some_raw_deleted_ref("3", "0", 3);

    let col = collection(vec![ref_1, deleted_1, deleted_2]);

    let free_hash = col.find_free_ref(&[1, 2]);

    assert!(free_hash.is_some());
    assert_eq!(free_hash.unwrap(), rc("3"));
}

#[test]
fn put_post_should_return_empty_chunk_if_no_free_space_was_found() {
    let ref_1 = some_raw_ref("1", "0", 10);
    let ref_2 = some_raw_removed_ref("2", "0");
    let mut col = collection(vec![ref_1, ref_2]);

    let post = Post { hash: "3".to_string(), reply_to: "0".to_string(), message: message() };

    let expected_db_ref =
        DbPostRef { chunk_settings: None, deleted: false, length: 7, parent_hash: rc("0") };

    let (hash, _) = col.put_post(post);
    let db_ref = col.get_ref(&hash).unwrap();

    assert_eq!(db_ref, &expected_db_ref);
}

#[test]
fn put_post_should_return_free_chunk_name_and_offset_if_free_space_found() {
    let ref_1 = some_raw_ref("1", "0", 10);
    let mut deletd_ref = some_raw_deleted_ref("2", "0", 10);
    deletd_ref.chunk_name = Some("1.db3".to_string());
    deletd_ref.offset = 333;

    let removed_ref = some_raw_removed_ref("3", "0");

    let mut col = collection(vec![ref_1, deletd_ref, removed_ref]);

    let post = Post { hash: "4".to_string(), message: message(), reply_to: "0".to_string() };

    let expected_db_ref = DbPostRef {
        chunk_settings: Some(ChunkSettings { chunk_index: 1, offset: 333 }),
        length: 7,
        deleted: false,
        parent_hash: rc("0"),
    };
    let (hash, _) = col.put_post(post);
    let db_ref = col.get_ref(&hash).unwrap();

    assert_eq!(db_ref, &expected_db_ref)
}

#[test]
fn put_post_when_inserts_into_free_space_should_remove_chunk_data_from_free_post_and_set_length_to_0(
) {
    let ref_1 = some_raw_ref("1", "0", 10);
    let mut deleted_ref = some_raw_deleted_ref("2", "0", 10);
    deleted_ref.chunk_name = Some("1.db3".to_string());
    deleted_ref.offset = 123;

    let mut col = collection(vec![ref_1, deleted_ref]);

    let post = Post { hash: "3".to_string(), message: message(), reply_to: "0".to_string() };

    col.put_post(post);

    assert!(matches!(col.get_ref("2").unwrap().chunk_settings, None));
    assert_eq!(col.get_ref("2").unwrap().length, 0);
}

#[test]
fn put_post_should_update_diff() {
    let ref_1 = some_raw_ref("5", "0", 10);
    let mut coll = collection_with_diff(vec![ref_1]);
    let post = some_post("20", "1", "Test");
    let mut expected_ref = some_raw_ref("20", "1", 4);
    expected_ref.offset = 0;
    expected_ref.length = 4;
    expected_ref.chunk_name = None;

    coll.put_post(post);

    assert_eq!(coll.diff()[0], expected_ref)
}

#[test]
fn upsert_ref_should_update_existing_data() {
    let ref_1 = some_raw_ref("1", "0", 10);
    let mut updated_ref = some_raw_ref("1", "0", 100);
    updated_ref.deleted = true;

    let mut coll = collection(vec![ref_1]);

    coll.upsert_ref(
        &PostHashes { hash: rc("1"), parent: rc("0") },
        updated_ref.split().unwrap().1,
    );

    assert_eq!(coll.get_ref("1").unwrap().deleted, true);
    assert_eq!(coll.get_ref("1").unwrap().length, 100);
    assert!(coll.deleted_hashes().contains(&rc("1")));
}

#[test]
fn best_fit_takes_the_tightest_hole() {
    let live = some_raw_ref("1", "0", 5);
    let mut big = some_raw_deleted_ref("2", "0", 10);
    big.offset = 100;
    let mut small = some_raw_deleted_ref("3", "0", 3);
    small.offset = 200;
    let mut col = collection(vec![live, big, small]);

    col.put_post(some_post("4", "0", "ab"));

    let new_ref = col.get_ref("4").unwrap();
    assert_eq!(new_ref.chunk_settings, Some(ChunkSettings { chunk_index: 0, offset: 200 }));
    assert_eq!(new_ref.length, 2);
    let donor = col.get_ref("3").unwrap();
    assert_eq!(donor.length, 0);
    assert_eq!(donor.chunk_settings, None);
    let untouched = col.get_ref("2").unwrap();
    assert_eq!(untouched.length, 10);
    assert_eq!(untouched.chunk_settings, Some(ChunkSettings { chunk_index: 0, offset: 100 }));
    assert_eq!(col.free_hashes(), vec![rc("2")]);
}

#[test]
fn message_larger_than_every_hole_goes_to_the_tail() {
    let mut col = collection(vec![some_raw_deleted_ref("1", "0", 3)]);
    col.put_post(some_post("2", "0", "four"));
    assert_eq!(col.get_ref("2").unwrap().chunk_settings, None);
    assert_eq!(col.get_ref("1").unwrap().length, 3);
}

#[test]
fn message_exactly_as_long_as_a_hole_fills_it() {
    let mut hole = some_raw_deleted_ref("1", "0", 4);
    hole.offset = 40;
    let mut col = collection(vec![hole, some_raw_deleted_ref("2", "0", 9)]);
    col.put_post(some_post("3", "0", "four"));
    let placed = col.get_ref("3").unwrap();
    assert_eq!(placed.chunk_settings, Some(ChunkSettings { chunk_index: 0, offset: 40 }));
    assert_eq!(placed.length, 4);
    assert_eq!(col.get_ref("1").unwrap().length, 0);
    assert_eq!(col.free_hashes(), vec![rc("2")]);
}

#[test]
fn reclaiming_a_hole_records_the_donor_first() {
    let mut col = collection(vec![some_raw_deleted_ref("1", "0", 10)]);
    col.put_post(some_post("2", "0", "ab"));
    let diff = col.take_diff();
    assert_eq!(diff.len(), 2);
    let mut donor = some_raw_removed_ref("1", "0");
    donor.offset = 0;
    assert_eq!(diff[0], donor);
    assert_eq!(diff[1].hash, "2");
    assert_eq!(diff[1].chunk_name, Some("0.db3".to_string()));
    assert!(col.diff().is_empty());
}

#[test]
fn delete_post_marks_deleted_and_frees_space() {
    let mut col = collection(vec![some_raw_ref("1", "0", 10)]);
    assert_eq!(col.delete_post("1"), Ok(()));
    assert!(col.ref_deleted("1"));
    assert_eq!(col.free_hashes(), vec![rc("1")]);
    assert_eq!(col.delete_post("1"), Err(DbRefCollectionError::PostAlreadyDeleted));
    assert_eq!(col.delete_post("9"), Err(DbRefCollectionError::PostDoesntExist));
    assert_eq!(col.diff().len(), 1);
    assert!(col.diff()[0].deleted);
}

#[test]
fn set_chunk_settings_stamps_and_records() {
    let mut col = collection(vec![]);
    col.put_post(some_post("1", "0", "test"));
    col.set_chunk_settings("1", ChunkSettings { chunk_index: 2, offset: 7 });
    assert_eq!(
        col.get_ref("1").unwrap().chunk_settings,
        Some(ChunkSettings { chunk_index: 2, offset: 7 })
    );
    assert_eq!(col.diff().len(), 2);
    assert_eq!(col.diff()[1].chunk_name, Some("2.db3".to_string()));
    assert_eq!(col.diff()[1].offset, 7);
    assert!(col.ref_exists("1"));
    assert!(!col.ref_exists("2"));
}

#[test]
fn record_round_trips_through_entry() {
    let record = some_raw_deleted_ref("7", "3", 42);
    let (hashes, entry) = record.clone().split().unwrap();
    assert_eq!(hashes.hash, "7");
    assert_eq!(hashes.parent, "3");
    assert_eq!(DbPostRefSerialized::new(&hashes, &entry), record);
}

#[test]
fn upsert_ref_stores_the_entry_as_given() {
    let mut coll = collection(vec![some_raw_ref("1", "0", 10)]);
    let entry = some_ref(3, "0");
    coll.upsert_ref(&PostHashes { hash: rc("2"), parent: rc("9") }, entry.clone());
    assert_eq!(coll.get_ref("2").unwrap(), &entry);
    assert_eq!(coll.replies("0"), vec![rc("1"), rc("2")]);
    assert!(coll.replies("9").is_empty());
}
