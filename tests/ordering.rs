use doujinshi_org::order::{sort_paths, text_less};

fn strings(v: &[&str]) -> Vec<String> {
    v.iter().map(|s| s.to_string()).collect()
}

#[test]
fn paths_are_sorted_by_character_and_kept_once() {
    let found = strings(&["data/Book/20.json", "data/Book/1.json", "data/Book/3.json", "data/Book/1.json"]);
    assert_eq!(
        sort_paths(&found),
        strings(&["data/Book/1.json", "data/Book/20.json", "data/Book/3.json"])
    );
    assert_eq!(sort_paths(&vec![]), Vec::<String>::new());
}

#[test]
fn discovery_order_does_not_change_the_listing() {
    let a = strings(&["c", "a", "b", "ab", ""]);
    let b = strings(&["ab", "", "b", "c", "a", "b"]);
    assert_eq!(sort_paths(&a), sort_paths(&b));
    assert_eq!(sort_paths(&a), strings(&["", "a", "ab", "b", "c"]));
}

#[test]
fn texts_order_lexicographically() {
    assert!(text_less("ab", "abc"));
    assert!(!text_less("abc", "ab"));
    assert!(text_less("ab", "b"));
    assert!(!text_less("b", "ab"));
    assert!(!text_less("same", "same"));
    assert!(text_less("", "a"));
    assert!(text_less("Z", "a"));
    assert!(text_less("山", "山田"));
}
