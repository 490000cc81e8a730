use kvlog::store::{File, MemoryStore};

#[test]
fn memory_store_can_set_and_get_a_key_value_pair() {
    let mut store = MemoryStore::new();

    let key_value_pairs = vec![
        ("hello", "world"),
        ("first_name", "john"),
        ("last_name", "smith"),
    ];
    for (key, value) in key_value_pairs {
        store.put(key, value).unwrap();

        let want = value;
        let got = store.get(key).unwrap();

        assert_eq!(want, String::from_utf8_lossy(&got));
    }
}

#[test]
fn gets_return_latest_values_in_any_order() {
    let mut store = MemoryStore::new();
    store.put("hello", "world").unwrap();
    store.put("first_name", "john").unwrap();
    store.put("last_name", "smith").unwrap();

    assert_eq!(store.get("last_name").unwrap(), b"smith".to_vec());
    assert_eq!(store.get("hello").unwrap(), b"world".to_vec());
    assert_eq!(store.get("first_name").unwrap(), b"john".to_vec());
}

#[test]
fn last_write_wins() {
    let mut store = MemoryStore::new();
    store.put("color", "red").unwrap();
    store.put("color", "blue").unwrap();
    assert_eq!(store.get("color").unwrap(), b"blue".to_vec());
}

#[test]
fn get_for_a_key_never_written_is_none() {
    let mut store = MemoryStore::new();
    assert_eq!(store.get("missing"), None);
    store.put("present", "here").unwrap();
    assert_eq!(store.get("missing"), None);
}

#[test]
fn mixed_key_representations_share_a_slot() {
    let mut store = MemoryStore::new();
    store.put(42, "answer").unwrap();
    let got = store.get(vec![0u8, 0, 0, 42]).unwrap();
    assert_eq!(got, b"answer".to_vec());
}

#[test]
fn file_grows_by_appended_bytes() {
    let mut file = File::new(3);
    assert_eq!(file.size(), 0);
    file.append(&[1, 2, 3]);
    file.append(&[4, 5]);
    assert_eq!(file.size(), 5);
}
