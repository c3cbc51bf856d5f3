use data_pipeline::documents::{collect_document_batches, collect_documents, Document};
use data_pipeline::mongo::{
    choose_sync_path, collection_exists, validate_sync_inputs, StoreCollection, SyncPath,
};

fn doc(url: &str, body: &str) -> Document {
    Document {
        url: String::from(url),
        body: String::from(body),
    }
}

#[test]
fn scenario_corrupt_snapshot_is_skipped() {
    // One snapshot with 3 records and one corrupt file: the pass loads
    // the 3 records, counts one warning, and does not fail.
    let good = String::from(
        "[{\"url\":\"https://a\",\"name\":\"a\"},\
         {\"url\":\"https://b\",\"name\":\"b\"},\
         {\"url\":\"https://c\",\"name\":\"c\"}]",
    );
    let corrupt = String::from("[{\"url\":\"https://d\",");
    let texts = vec![good, corrupt];
    let (docs, skipped) = collect_documents(&texts);
    assert_eq!(docs.len(), 3);
    assert_eq!(skipped, 1);
    assert_eq!(docs[0].url, "https://a");
    assert_eq!(docs[1].url, "https://b");
    assert_eq!(docs[2].url, "https://c");
}

#[test]
fn loading_extracts_the_natural_key() {
    let text = String::from("[{\"name\":\"n\",\"url\":\"https://x/y\"},{\"name\":\"m\"}]");
    let (docs, skipped) = collect_documents(&vec![text]);
    assert_eq!(skipped, 0);
    assert_eq!(docs.len(), 2);
    // The key is the record's url field, not the file text.
    assert_eq!(docs[0].url, "https://x/y");
    // A record without a url keys as empty.
    assert_eq!(docs[1].url, "");
    // The body is the record, not the whole file.
    assert!(docs[0].body.contains("\"name\""));
    assert!(!docs[0].body.contains("\"m\""));
}

#[test]
fn batched_loading_keeps_file_order_and_skips_corrupt_files() {
    let texts = vec![
        String::from("[{\"url\":\"u1\"}]"),
        String::from("not json at all"),
        String::from("[{\"url\":\"u2\"},{\"url\":\"u3\"}]"),
    ];
    let (batches, skipped) = collect_document_batches(&texts);
    assert_eq!(skipped, 1);
    assert_eq!(batches.len(), 2);
    assert_eq!(batches[0].len(), 1);
    assert_eq!(batches[1].len(), 2);
    assert_eq!(batches[1][0].url, "u2");
}

#[test]
fn scenario_absent_collection_takes_the_create_path() {
    // Collection `repos` absent: the pass drops (a no-op) and then
    // bulk-inserts every loaded batch.
    let names = vec![String::from("workflows"), String::from("other")];
    assert!(!collection_exists(&names, "repos"));
    assert!(matches!(
        choose_sync_path(&names, "repos"),
        SyncPath::CreateFresh
    ));

    let mut store = StoreCollection::new();
    store.insert_batch(&vec![doc("stale", "{}")]);
    let batches = vec![
        vec![doc("u1", "{\"a\":1}"), doc("u2", "{\"a\":2}")],
        vec![doc("u1", "{\"a\":3}")],
    ];
    store.create_collection(&batches);
    // Everything loaded is inserted in order; the create path does not
    // deduplicate, and the stale contents are gone.
    assert_eq!(store.docs.len(), 3);
    assert_eq!(store.docs[0].url, "u1");
    assert_eq!(store.docs[1].url, "u2");
    assert_eq!(store.docs[2].url, "u1");
}

#[test]
fn scenario_present_collection_takes_the_update_path() {
    // Collection `repos` present, and an incoming record keys like an
    // existing document: the update path replaces that document's fields
    // in place, creating no duplicate.
    let names = vec![String::from("repos")];
    assert!(collection_exists(&names, "repos"));
    assert!(matches!(
        choose_sync_path(&names, "repos"),
        SyncPath::UpdateExisting
    ));

    let mut store = StoreCollection::new();
    store.insert_batch(&vec![doc("x", "{\"old\":true}"), doc("y", "{}")]);
    store.update_collection(&vec![vec![doc("x", "{\"new\":true}")]]);
    assert_eq!(store.docs.len(), 2);
    assert_eq!(store.docs[0], doc("x", "{\"new\":true}"));
    assert_eq!(store.docs[1], doc("y", "{}"));
}

#[test]
fn update_path_is_idempotent() {
    // Running the update path twice with identical snapshot content
    // leaves one document per distinct key, field-for-field equal to the
    // last record with that key.
    let batches = vec![
        vec![doc("a", "{\"v\":1}"), doc("b", "{\"v\":2}")],
        vec![doc("a", "{\"v\":9}"), doc("c", "{\"v\":3}")],
    ];
    let mut store = StoreCollection::new();
    store.update_collection(&batches);
    let after_once: Vec<Document> = store
        .docs
        .iter()
        .map(|d| doc(&d.url, &d.body))
        .collect();
    store.update_collection(&batches);
    assert_eq!(store.docs, after_once);
    assert_eq!(store.docs.len(), 3);
    assert_eq!(store.docs[0], doc("a", "{\"v\":9}"));
    assert_eq!(store.docs[1], doc("b", "{\"v\":2}"));
    assert_eq!(store.docs[2], doc("c", "{\"v\":3}"));
}

#[test]
fn update_path_appends_new_keys() {
    let mut store = StoreCollection::new();
    store.insert_batch(&vec![doc("x", "{}")]);
    store.update_collection(&vec![vec![doc("z", "{\"n\":1}")]]);
    assert_eq!(store.docs.len(), 2);
    assert_eq!(store.docs[1], doc("z", "{\"n\":1}"));
}

#[test]
fn an_empty_store_lists_no_collections() {
    let names: Vec<String> = Vec::new();
    assert!(!collection_exists(&names, "repos"));
    assert!(matches!(
        choose_sync_path(&names, "repos"),
        SyncPath::CreateFresh
    ));
}

#[test]
fn an_empty_snapshot_directory_loads_nothing() {
    let texts: Vec<String> = Vec::new();
    let (docs, skipped) = collect_documents(&texts);
    assert!(docs.is_empty());
    assert_eq!(skipped, 0);
}

#[test]
fn equal_keys_in_one_batch_keep_the_last_record() {
    let mut store = StoreCollection::new();
    store.update_collection(&vec![vec![
        doc("k", "{\"v\":1}"),
        doc("k", "{\"v\":2}"),
        doc("k", "{\"v\":3}"),
    ]]);
    assert_eq!(store.docs.len(), 1);
    assert_eq!(store.docs[0], doc("k", "{\"v\":3}"));
}

#[test]
fn sync_guard_checks_collection_and_directory() {
    assert!(validate_sync_inputs(
        "workflows",
        "workflows",
        "/w/.data/output/github/workflows/"
    ));
    assert!(!validate_sync_inputs(
        "repos",
        "workflows",
        "/w/.data/output/github/workflows/"
    ));
    assert!(!validate_sync_inputs(
        "workflows",
        "workflows",
        "/w/.data/output/github/other/"
    ));
}
