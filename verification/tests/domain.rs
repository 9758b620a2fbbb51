use knot_nm_dns_update::domain::{normalize_domain, read_anti_rfc6761};

#[test]
fn normalizes_case_and_dots() {
    assert_eq!(normalize_domain(" Example.COM.. "), "example.com.");
    assert_eq!(normalize_domain("example.com"), "example.com.");
    assert_eq!(normalize_domain("a.b"), "a.b.");
}

#[test]
fn names_without_labels_are_the_root() {
    for name in ["", ".", "...", "  ", " . ", "\u{3000}.\u{a0}"] {
        assert_eq!(normalize_domain(name), ".");
    }
}

#[test]
fn only_ascii_letters_change_case() {
    assert_eq!(normalize_domain("\u{c4}B\u{df}"), "\u{c4}b\u{df}.");
}

#[test]
fn white_space_before_the_final_dots_stays() {
    assert_eq!(normalize_domain("a ."), "a .");
    assert_eq!(normalize_domain("a. ."), "a. .");
}

#[test]
fn normal_forms_are_stable() {
    for name in ["", "Foo", "foo.bar.", " x .. ", "a. ."] {
        let once = normalize_domain(name);
        assert_eq!(normalize_domain(&once), once);
        assert!(once.ends_with('.'));
    }
}

#[test]
fn white_space_agrees_with_std() {
    for n in 0..=0x10ffffu32 {
        if let Some(c) = char::from_u32(n) {
            assert_eq!(knot_nm_dns_update::text::is_white_space(c), c.is_whitespace());
        }
    }
}

#[test]
fn domain_list_is_sorted_without_repetition() {
    let list = read_anti_rfc6761(
        "# comment\n\nLocal\n  test. # why\r\n#x\nlocal..\n home.arpa\n\u{e9}x\nzz # a # b\n   # only\n",
    );
    assert_eq!(list, ["home.arpa.", "local.", "test.", "zz.", "\u{e9}x."]);
}

#[test]
fn domain_list_without_final_line_feed() {
    assert_eq!(read_anti_rfc6761("b\na"), ["a.", "b."]);
    assert!(read_anti_rfc6761("").is_empty());
    assert!(read_anti_rfc6761("\r\n  \n#\n").is_empty());
}

#[test]
fn domain_list_prefix_sorts_first() {
    assert_eq!(read_anti_rfc6761("ab.c\nab\na-b\n.\n"), [".", "a-b.", "ab.", "ab.c."]);
}

#[test]
fn domain_list_depends_on_its_entries_alone() {
    let list = read_anti_rfc6761("b\na.x\n");
    assert_eq!(list, ["a.x.", "b."]);
    for same in [
        "a.x\nb\n",
        "b\nb\na.x\nb\n",
        "# head\n\nb\n   \na.x\n  # tail",
        "b # note\na.x# note # more\n",
        "B\nA.X.\n",
        "  b\r\n\ta.x..\r\n",
    ] {
        assert_eq!(read_anti_rfc6761(same), list);
    }
    assert_ne!(read_anti_rfc6761("b\n"), list);
    assert_ne!(read_anti_rfc6761("b\na.x\nc\n"), list);
}
