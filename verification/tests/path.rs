use std::path::Path;

use knot_nm_dns_update::path::{file_name, join_path, parent};

#[test]
fn paths_are_joined_as_std_joins_them() {
    for base in ["", "/", "a", "a/", "/a/b", "/a/b/"] {
        for part in ["", "x", "x/y", "/x", "."] {
            let expected = Path::new(base).join(part);
            assert_eq!(join_path(base, part), expected.to_str().unwrap());
        }
    }
}

#[test]
fn parts_of_paths() {
    assert_eq!(parent("/etc/resolv.conf").as_deref(), Some("/etc"));
    assert_eq!(file_name("/etc/resolv.conf").as_deref(), Some("resolv.conf"));
    assert_eq!(parent("a//b/./").as_deref(), Some("a"));
    assert_eq!(file_name("a//b/./").as_deref(), Some("b"));
    assert_eq!(parent("x").as_deref(), Some(""));
    assert_eq!(parent("/x").as_deref(), Some("/"));
    for path in ["", "/", "//", "/."] {
        assert_eq!(parent(path), None);
        assert_eq!(file_name(path), None);
    }
    for path in [".", "..", "a/..", "/.."] {
        assert!(parent(path).is_some());
        assert_eq!(file_name(path), None);
    }
}

#[test]
fn parts_agree_with_std() {
    let mut paths = vec![String::new()];
    let mut from = 0;
    for _ in 0..8 {
        let to = paths.len();
        for i in from..to {
            for c in ['/', '.', 'a'] {
                paths.push(format!("{}{c}", paths[i]));
            }
        }
        from = to;
    }
    for path in &paths {
        let std_path = Path::new(path);
        assert_eq!(parent(path).as_deref(), std_path.parent().map(|p| p.to_str().unwrap()));
        assert_eq!(file_name(path).as_deref(), std_path.file_name().map(|n| n.to_str().unwrap()));
    }
}
