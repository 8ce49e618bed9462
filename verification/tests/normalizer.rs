use shiritori::words::{is_normal_exec, normalize};

#[test]
fn accepts_plain_word() {
    assert_eq!(normalize("cat"), Some("cat".to_string()));
}

#[test]
fn hyphen_becomes_space() {
    assert_eq!(normalize("note-book"), Some("note book".to_string()));
}

#[test]
fn lowercases_letters() {
    assert_eq!(normalize("Hello"), Some("hello".to_string()));
}

#[test]
fn collapses_space_runs() {
    assert_eq!(normalize("a   b"), Some("a b".to_string()));
    assert_eq!(normalize("a - b"), Some("a b".to_string()));
}

#[test]
fn normalize_is_idempotent_on_samples() {
    for raw in ["note-book", "Hello", "a   b", "Foo-Bar-baz", "ab"] {
        let once = normalize(raw).unwrap();
        assert_eq!(normalize(&once), Some(once.clone()));
    }
}

#[test]
fn rejects_empty() {
    assert_eq!(normalize(""), None);
}

#[test]
fn rejects_single_letter() {
    assert_eq!(normalize("a"), None);
}

#[test]
fn rejects_digits_and_symbols() {
    assert_eq!(normalize("abc1"), None);
    assert_eq!(normalize("hello!"), None);
    assert_eq!(normalize("ab_cd"), None);
    assert_eq!(normalize("ab.cd"), None);
}

#[test]
fn rejects_non_letter_ends() {
    assert_eq!(normalize(" abc"), None);
    assert_eq!(normalize("abc "), None);
    assert_eq!(normalize("-abc"), None);
    assert_eq!(normalize("abc-"), None);
}

#[test]
fn rejects_non_ascii() {
    assert_eq!(normalize("ことば"), None);
}

#[test]
fn normal_form_check() {
    assert!(is_normal_exec("note book"));
    assert!(is_normal_exec("cat"));
    assert!(!is_normal_exec("Note book"));
    assert!(!is_normal_exec("note  book"));
    assert!(!is_normal_exec("note-book"));
    assert!(!is_normal_exec("a"));
    assert!(!is_normal_exec(" note"));
}
