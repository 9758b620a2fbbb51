use knot_nm_dns_update::order::{insert_ascending, same_bytes, same_text, same_texts};

#[test]
fn insertion_agrees_with_sorting() {
    let names = ["b", "a", "", "ab", "\u{1f980}", "\u{ffff}", "b", "B", "a"];
    let mut list: Vec<String> = Vec::new();
    for name in names {
        insert_ascending(&mut list, name.to_string());
    }
    let mut expected: Vec<String> = names.iter().map(|n| n.to_string()).collect();
    expected.sort_unstable();
    expected.dedup();
    assert_eq!(list, expected);
}

#[test]
fn equality() {
    assert!(same_bytes(b"ab", b"ab"));
    assert!(!same_bytes(b"ab", b"a"));
    assert!(!same_bytes(b"ab", b"ac"));
    assert!(same_text("\u{e4}", "\u{e4}"));
    assert!(!same_text("a", "A"));
    let a = ["x".to_string(), "y".to_string()];
    let b = ["y".to_string(), "x".to_string()];
    assert!(same_texts(&a, &a));
    assert!(!same_texts(&a, &b));
    assert!(!same_texts(&a, &a[..1]));
}
