use knot_nm_dns_update::addr::{IpAddr, ScopedIp};
use knot_nm_dns_update::resolv::{
    look_at, read_resolv_conf, read_resolv_conf_once, resolv_data, retry_step, usable_nameservers,
    ParsedResolv, ResolvFailure, Retry, RESOLV_RETRY_INTERVAL, RESOLV_RETRY_TIMEOUT,
};

const A: u32 = 0x0102_0304;
const B: u32 = 0x0506_0708;
const LINK_LOCAL: u128 = 0xfe80_0000_0000_0000_0000_0000_0000_0001;

#[test]
fn nameservers_keep_their_order_without_repetition() {
    let conf = b"nameserver 5.6.7.8\nnameserver fe80::1%eth0\nnameserver 1.2.3.4 # x\nnameserver 5.6.7.8\nnameserver fe80::1\n";
    let data = read_resolv_conf_once(conf.to_vec()).unwrap();
    assert_eq!(data.nameservers, [IpAddr::V4(B), IpAddr::V4(A), IpAddr::V6(LINK_LOCAL)]);
    assert!(data.search_domains.is_empty());
    assert_eq!(data.bytes, conf);
}

#[test]
fn last_search_directive_counts() {
    let conf = b"search a b\nsearch\tc d,e ;f g\n domain x\n";
    let data = read_resolv_conf_once(conf.to_vec()).unwrap();
    assert_eq!(data.search_domains, ["c"]);
}

#[test]
fn comments_need_no_utf8() {
    let data = read_resolv_conf_once(b" # \xff\nnameserver 1.2.3.4\n".to_vec()).unwrap();
    assert_eq!(data.nameservers, [IpAddr::V4(A)]);
}

#[test]
fn one_faulty_line_spoils_a_configuration() {
    for bad in ["nameserver", "nameserver 1.2.3", "nameserver 1.2.3.4 x", "bogus", "domain", "options x"] {
        assert!(read_resolv_conf_once(bad.as_bytes().to_vec()).is_err());
        let more = format!("search a\n{bad}\nnameserver 1.2.3.4\n");
        assert!(read_resolv_conf_once(more.into_bytes()).is_err());
    }
}

#[test]
fn search_directives_always_parse() {
    for good in ["search", "search a,b", " search \u{e4} ; x", "search a b c d e f g h"] {
        assert!(read_resolv_conf_once(good.as_bytes().to_vec()).is_ok());
    }
}

#[test]
fn scoped_addresses_are_left_out() {
    let ips = [
        ScopedIp::V6(LINK_LOCAL, Some("eth0".to_string())),
        ScopedIp::V4(A),
        ScopedIp::V6(A as u128, None),
        ScopedIp::V4(A),
    ];
    assert_eq!(usable_nameservers(&ips), [IpAddr::V4(A), IpAddr::V6(A as u128)]);
}

#[test]
fn missing_search_is_none() {
    let parsed = ParsedResolv { nameservers: vec![ScopedIp::V4(A)], search: None };
    let data = resolv_data(parsed, b"x".to_vec());
    assert!(data.search_domains.is_empty());
    assert_eq!(data.nameservers, [IpAddr::V4(A)]);
    let parsed = ParsedResolv { nameservers: vec![], search: Some(vec!["d".to_string()]) };
    assert_eq!(resolv_data(parsed, vec![]).search_domains, ["d"]);
}

#[test]
fn usable_configurations_end_the_wait() {
    let late = RESOLV_RETRY_TIMEOUT as u128 * 2;
    match read_resolv_conf(Some(b"nameserver 1.2.3.4".to_vec()), late) {
        Retry::Done(data) => assert_eq!(data.nameservers, [IpAddr::V4(A)]),
        _ => panic!("not usable"),
    }
}

#[test]
fn waits_are_bounded() {
    let timeout = RESOLV_RETRY_TIMEOUT as u128;
    let interval = RESOLV_RETRY_INTERVAL as u128;
    assert_eq!(timeout, 30_000_000_000);
    assert_eq!(interval, 100_000_000);
    for (elapsed, pause) in [(0, interval), (timeout - interval, interval), (timeout - 1, 1)] {
        match read_resolv_conf(None, elapsed) {
            Retry::Sleep(nanos) => assert_eq!(nanos as u128, pause),
            _ => panic!("no wait"),
        }
    }
}

#[test]
fn reasons_for_giving_up() {
    let timeout = RESOLV_RETRY_TIMEOUT as u128;
    assert!(matches!(read_resolv_conf(None, timeout), Retry::GiveUp(ResolvFailure::Unreadable)));
    assert!(matches!(
        read_resolv_conf(Some(b"bogus".to_vec()), timeout),
        Retry::GiveUp(ResolvFailure::Invalid(_))
    ));
    assert!(matches!(
        read_resolv_conf(Some(b"nameserver fe80::1%eth0".to_vec()), timeout),
        Retry::GiveUp(ResolvFailure::NoNameservers)
    ));
    assert!(matches!(
        retry_step(Err(ResolvFailure::Unreadable), u128::MAX),
        Retry::GiveUp(ResolvFailure::Unreadable)
    ));
}

#[test]
fn looks_at_the_configuration() {
    assert!(matches!(look_at(None), Err(ResolvFailure::Unreadable)));
    assert!(matches!(look_at(Some(b"bogus".to_vec())), Err(ResolvFailure::Invalid(_))));
    assert!(look_at(Some(b"# none\n".to_vec())).unwrap().nameservers.is_empty());
    let data = look_at(Some(b"nameserver 1.2.3.4\nsearch x\n".to_vec())).unwrap();
    assert_eq!(data.nameservers.len(), 1);
    assert_eq!(data.search_domains, ["x"]);
}
