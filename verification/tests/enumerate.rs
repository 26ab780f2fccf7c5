use rusty_von_humboldt::enumerate::list_files_from_store;
use rusty_von_humboldt::enumerate::shuffle_file_list;

fn store_of(n: usize) -> Vec<String> {
    let mut store = Vec::new();
    for i in 0..n {
        store.push(format!("2015/archive-{:05}.json.gz", i));
    }
    store
}

#[test]
fn pagination_reaches_target_exactly() {
    // Pages of at most 500 keys with a continuation token: asking for 1200
    // out of 1250 yields exactly the first 1200 keys, no duplicates.
    let store = store_of(1250);
    let keys = list_files_from_store(&store, "2015".to_string(), 1200);
    assert_eq!(keys.len(), 1200);
    for i in 0..1200 {
        assert_eq!(keys[i], store[i]);
    }
}

#[test]
fn pagination_stops_when_store_is_exhausted() {
    // Fewer keys than requested is not an error.
    let store = store_of(800);
    let keys = list_files_from_store(&store, "2015".to_string(), 1200);
    assert_eq!(keys.len(), 800);
    assert_eq!(keys, store);
}

#[test]
fn pagination_small_request_is_one_page() {
    let store = store_of(30);
    let keys = list_files_from_store(&store, "2015".to_string(), 10);
    assert_eq!(keys.len(), 10);
    assert_eq!(keys[9], store[9]);
}

#[test]
fn shuffle_keeps_every_file() {
    let files = store_of(100);
    let mut shuffled = shuffle_file_list(files.clone());
    assert_eq!(shuffled.len(), 100);
    shuffled.sort();
    let mut original = files;
    original.sort();
    assert_eq!(shuffled, original);
}
