use shiritori::game::{Channel, ChannelStore, StoreError};

#[test]
fn register_then_exists() {
    let mut store = ChannelStore::new();
    assert!(!store.channel_exists("123"));
    assert_eq!(store.register("123"), Ok(()));
    assert!(store.channel_exists("123"));
}

#[test]
fn register_twice_keeps_words() {
    let mut store = ChannelStore::new();
    store.register("123").unwrap();
    store.admit_word("123", "cat").unwrap();
    assert_eq!(store.register("123"), Err(StoreError::AlreadyExists));
    // the duplicate registration left the channel's word set untouched
    assert_eq!(store.get_words("123"), Some(vec!["cat".to_string()]));
}

#[test]
fn admit_same_word_twice_is_a_set() {
    let mut store = ChannelStore::new();
    store.register("c").unwrap();
    store.admit_word("c", "cat").unwrap();
    store.admit_word("c", "cat").unwrap();
    assert_eq!(store.get_words("c").unwrap().len(), 1);
}

#[test]
fn admit_into_unknown_channel() {
    let mut store = ChannelStore::new();
    assert_eq!(
        store.admit_word("ghost", "cat"),
        Err(StoreError::UnknownChannel)
    );
}

#[test]
fn contains_word_is_exact_membership() {
    let mut store = ChannelStore::new();
    store.register("c").unwrap();
    store.admit_word("c", "note book").unwrap();
    assert!(store.contains_word("c", "note book"));
    assert!(!store.contains_word("c", "note"));
    assert!(!store.contains_word("c", "book"));
}

#[test]
fn load_installs_record() {
    let mut store = ChannelStore::new();
    let record = Channel {
        channel_id: "c1".to_string(),
        users: vec!["u1".to_string()],
        words: vec!["cat".to_string(), "dog".to_string()],
    };
    assert_eq!(store.load_channel(record), Ok(()));
    assert!(store.channel_exists("c1"));
    assert_eq!(
        store.get_words("c1"),
        Some(vec!["cat".to_string(), "dog".to_string()])
    );
}

#[test]
fn load_overwrites_in_memory_entry() {
    let mut store = ChannelStore::new();
    store.register("c1").unwrap();
    store.admit_word("c1", "old").unwrap();
    let record = Channel {
        channel_id: "c1".to_string(),
        users: vec![],
        words: vec!["new".to_string()],
    };
    store.load_channel(record).unwrap();
    assert_eq!(store.get_words("c1"), Some(vec!["new".to_string()]));
}

#[test]
fn load_rejects_unnormalized_words() {
    let mut store = ChannelStore::new();
    let record = Channel {
        channel_id: "c1".to_string(),
        users: vec![],
        words: vec!["Cat".to_string()],
    };
    assert_eq!(store.load_channel(record), Err(StoreError::ParseError));
    assert!(!store.channel_exists("c1"));
}

#[test]
fn load_rejects_duplicate_words() {
    let mut store = ChannelStore::new();
    let record = Channel {
        channel_id: "c1".to_string(),
        users: vec![],
        words: vec!["cat".to_string(), "cat".to_string()],
    };
    assert_eq!(store.load_channel(record), Err(StoreError::ParseError));
}

#[test]
fn get_words_of_unknown_channel() {
    let store = ChannelStore::new();
    assert_eq!(store.get_words("c"), None);
}
