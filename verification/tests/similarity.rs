use shiritori::distance::within_distance_exec;
use shiritori::event::find_similar;
use shiritori::game::ChannelStore;

fn store_with(channel: &str, words: &[&str]) -> ChannelStore {
    let mut store = ChannelStore::new();
    store.register(channel).unwrap();
    for w in words {
        store.admit_word(channel, w).unwrap();
    }
    store
}

#[test]
fn colour_is_near_color() {
    // edit distance 1 against length 6: ratio 1/6, under the 0.3 default
    let store = store_with("ch", &["colour"]);
    let found = store.find_levenstein_distance("ch", "color", 300).unwrap();
    assert_eq!(found, vec!["colour".to_string()]);
}

#[test]
fn green_is_not_near_color() {
    let store = store_with("ch", &["green"]);
    assert_eq!(store.find_levenstein_distance("ch", "color", 300), None);
}

#[test]
fn distance_query_on_unknown_channel() {
    let store = ChannelStore::new();
    assert_eq!(store.find_levenstein_distance("nowhere", "color", 300), None);
}

#[test]
fn within_distance_pairs() {
    assert!(within_distance_exec("color", "colour", 300));
    assert!(!within_distance_exec("color", "green", 300));
    // identical words are at distance zero
    assert!(within_distance_exec("cat", "cat", 0));
    // kitten -> sitting takes three edits against length seven
    assert!(within_distance_exec("kitten", "sitting", 429));
    assert!(!within_distance_exec("kitten", "sitting", 428));
}

#[test]
fn piece_match_both_directions() {
    let store = store_with("ch", &["book", "notebook stand"]);
    // stored word inside the candidate, and candidate inside a stored word
    let found = store.find_piece_equals("ch", "notebook").unwrap();
    assert_eq!(
        found,
        vec!["book".to_string(), "notebook stand".to_string()]
    );
}

#[test]
fn piece_match_none() {
    let store = store_with("ch", &["cat"]);
    assert_eq!(store.find_piece_equals("ch", "dog"), None);
}

#[test]
fn similar_keeps_duplicates_across_queries() {
    // equal words match by containment and by distance: listed twice
    let store = store_with("ch", &["note book"]);
    let suggestions = find_similar(&store, "ch", "note book", 300);
    assert_eq!(
        suggestions,
        vec!["note book".to_string(), "note book".to_string()]
    );
}

#[test]
fn similar_empty_for_unknown_channel() {
    let store = ChannelStore::new();
    assert!(find_similar(&store, "ch", "note book", 300).is_empty());
}
