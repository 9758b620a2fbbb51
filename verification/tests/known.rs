use knot_nm_dns_update::config::Config;
use knot_nm_dns_update::known::{
    companion_path, default_hash, default_hash_base64, get_known_path, known_hash,
    matches_known, write_known,
};

const EMPTY_512: [u8; 8] = [0xa6, 0x9f, 0x73, 0xcc, 0xa2, 0x3a, 0x9a, 0xc5];

#[test]
fn digest_of_nothing() {
    let hash = default_hash(b"");
    assert_eq!(hash.len(), 64);
    assert_eq!(&hash[..8], &EMPTY_512);
    assert_eq!(known_hash(b""), hash);
}

#[test]
fn digest_as_text() {
    assert_eq!(
        default_hash_base64(b"abc"),
        "t1GFCxpXFopWk82SS2sJbgj2IYJ0RPcNiE9dAkDScS4Q4RbpGSrzyRp-xXZH45NAVzQLTPQI1aVlkvgnTuxT8A"
    );
}

#[test]
fn companions_of_the_inputs() {
    let cfg = Config::installed();
    assert_eq!(
        get_known_path(cfg.resolv_nm_conf, &cfg),
        "/run/knot-nm-dns-update/known/_iP9kqE7AtEm8msdIRXm1gRUdJyguviovHVr6UcII2Y"
    );
    assert_eq!(
        get_known_path("/run/knot-resolver/last_started", &cfg),
        "/run/knot-nm-dns-update/known/DYPrOi9HqgmoYz5BTRecOokgDrJzPGb4HTcP9_sfXbU"
    );
}

#[test]
fn companions_are_named_alike_in_every_run_directory() {
    let cfg = Config::installed();
    let other = Config { run_dir: "/tmp/r/", resolv_conf: "/x", ..Config::installed() };
    for path in ["", "/", "/a", "/a/", "a file"] {
        let known = get_known_path(path, &cfg);
        let name = known.strip_prefix("/run/knot-nm-dns-update/known/").unwrap();
        assert_eq!(name.len(), 43);
        assert!(name.bytes().all(|b| b.is_ascii_alphanumeric() || b == b'-' || b == b'_'));
        assert_eq!(get_known_path(path, &other), format!("/tmp/r/known/{name}"));
    }
    assert_ne!(get_known_path("/a", &cfg), get_known_path("/a/", &cfg));
}

#[test]
fn encodings_of_all_lengths() {
    let cfg = Config { run_dir: "", ..Config::installed() };
    assert_eq!(companion_path(&[], &cfg), "known/");
    assert_eq!(companion_path(&[0xfb], &cfg), "known/-w");
    assert_eq!(companion_path(&[0xfb, 0xff], &cfg), "known/-_8");
    assert_eq!(companion_path(&[0xfb, 0xff, 0xfe], &cfg), "known/-__-");
    assert_eq!(companion_path(b"Man", &cfg), "known/TWFu");
}

#[test]
fn what_is_recorded_is_recognised() {
    let cfg = Config::installed();
    let file = write_known("/some/file", b"data", &cfg);
    assert_eq!(file.path, get_known_path("/some/file", &cfg));
    assert_eq!(file.contents, default_hash(b"data"));
    assert!(matches_known(Some(b"data"), Some(&file.contents)));
    assert!(!matches_known(Some(b"date"), Some(&file.contents)));
}

#[test]
fn unreadable_files_match_nothing() {
    let hash = default_hash(b"data");
    assert!(!matches_known(None, Some(&hash)));
    assert!(!matches_known(Some(b"data"), None));
    assert!(!matches_known(None, None));
    assert!(!matches_known(Some(b"data"), Some(b"data")));
    assert!(!matches_known(Some(b"data"), Some(&hash[..63])));
}
