use knot_nm_dns_update::addr::IpAddr;
use knot_nm_dns_update::api::{
    forward_path, get_knot_forward, set_knot_forward, set_knot_forward_reply, ApiError,
};
use knot_nm_dns_update::forward::{
    build_forward_config, canonicalize_forward, checked_server, same_rules, ForwardError,
    ForwardRule,
};
use knot_nm_dns_update::json::{read_json, Json};

const V6_DOC: u128 = 0x2001_0db8_0000_0000_0000_0000_0000_0001;

fn canon(s: &str) -> Result<Vec<ForwardRule>, ForwardError> {
    canonicalize_forward(&read_json(s.as_bytes()).unwrap())
}

fn servers() -> Vec<IpAddr> {
    vec![IpAddr::V4(0xc0000201), IpAddr::V6(V6_DOC)]
}

#[test]
fn configuration_without_domains() {
    let body = set_knot_forward(build_forward_config(&servers(), &[])).unwrap();
    assert_eq!(
        String::from_utf8(body).unwrap(),
        r#"[{"servers":["192.0.2.1","2001:db8::1"],"subtree":"."}]"#
    );
}

#[test]
fn configuration_with_domains() {
    let anti = ["home.arpa.".to_string(), "local.".to_string()];
    let body = set_knot_forward(build_forward_config(&servers()[..1], &anti)).unwrap();
    assert_eq!(
        String::from_utf8(body).unwrap(),
        [
            r#"[{"servers":["192.0.2.1"],"subtree":"."},"#,
            r#"{"options":{"dnssec":false},"servers":["192.0.2.1"],"subtree":["home.arpa.","local."]}]"#,
        ]
        .concat()
    );
}

#[test]
fn addresses_survive_their_text() {
    let mut ips = vec![IpAddr::V4(0), IpAddr::V4(u32::MAX), IpAddr::V4(0x7f00_0001)];
    for bits in [0, 1, V6_DOC, u128::MAX, 0xffff_0102_0304, 0x0102_0304, 1 << 64, 0xfe80 << 112] {
        ips.push(IpAddr::V6(bits));
    }
    let rules = canonicalize_forward(&build_forward_config(&ips, &[])).unwrap();
    assert_eq!(rules[0].servers, ips);
}

#[test]
fn configuration_states_the_wanted_rules() {
    let anti = ["Local".to_string()];
    let rules = canonicalize_forward(&build_forward_config(&servers(), &anti)).unwrap();
    assert_eq!(
        rules,
        vec![
            ForwardRule { subtree: vec![".".to_string()], servers: servers(), dnssec: None },
            ForwardRule { subtree: vec!["local.".to_string()], servers: servers(), dnssec: Some(false) },
        ]
    );
}

#[test]
fn sent_configuration_is_found_in_force() {
    let anti = ["local.".to_string()];
    let body = set_knot_forward(build_forward_config(&servers(), &anti)).unwrap();
    let current = canonicalize_forward(&get_knot_forward(200, &body).unwrap()).unwrap();
    let wanted = canonicalize_forward(&build_forward_config(&servers(), &anti)).unwrap();
    assert!(same_rules(&current, &wanted));
}

#[test]
fn equivalent_rules_compare_equal() {
    let a = canon(r#"[{"subtree":"Example.COM","servers":["2001:DB8:0::1"],"extra":1}]"#).unwrap();
    let b = canon(r#"[{"subtree":["example.com."],"servers":["2001:db8::1"],"options":{"dnssec":"no"}}]"#)
        .unwrap();
    assert!(same_rules(&a, &b));
    assert_eq!(a[0].servers, [IpAddr::V6(V6_DOC)]);
}

#[test]
fn different_rules_compare_unequal() {
    let base = canon(r#"[{"subtree":"a","servers":["1.2.3.4","1.2.3.5"]}]"#).unwrap();
    for other in [
        r#"[]"#,
        r#"[{"subtree":"b","servers":["1.2.3.4","1.2.3.5"]}]"#,
        r#"[{"servers":["1.2.3.4","1.2.3.5"]}]"#,
        r#"[{"subtree":"a","servers":["1.2.3.5","1.2.3.4"]}]"#,
        r#"[{"subtree":"a","servers":["1.2.3.4"]}]"#,
        r#"[{"subtree":"a","servers":["1.2.3.4","1.2.3.5"],"options":{"dnssec":true}}]"#,
    ] {
        assert!(!same_rules(&base, &canon(other).unwrap()));
    }
}

#[test]
fn rules_without_a_subtree() {
    let rules = canon(r#"[{"servers":[],"options":{"dnssec":true}}]"#).unwrap();
    assert_eq!(rules, vec![ForwardRule { subtree: vec![], servers: vec![], dnssec: Some(true) }]);
}

#[test]
fn options_of_another_kind_do_not_count() {
    for options in ["null", "[]", "{}", r#"{"dnssec":0}"#, r#"{"dnssec":null}"#] {
        let doc = format!(r#"[{{"servers":[],"options":{options}}}]"#);
        assert_eq!(canon(&doc).unwrap()[0].dnssec, None);
    }
}

#[test]
fn documents_that_are_no_rules() {
    assert_eq!(canon("{}"), Err(ForwardError::NotAnArray));
    assert_eq!(canon(r#"[{"servers":[]}, 1]"#), Err(ForwardError::RuleNotObject { rule: 1 }));
    assert_eq!(
        canon(r#"[{"subtree":["a",null],"servers":[]}]"#),
        Err(ForwardError::SubtreeNotText { rule: 0, item: 1 })
    );
    assert_eq!(
        canon(r#"[{"subtree":true,"servers":[]}]"#),
        Err(ForwardError::InvalidSubtree { rule: 0, subtree: Json::Bool(true) })
    );
    assert_eq!(canon(r#"[{"subtree":"a"}]"#), Err(ForwardError::MissingServers { rule: 0 }));
    assert_eq!(
        canon(r#"[{"servers":"1.2.3.4"}]"#),
        Err(ForwardError::MissingServers { rule: 0 })
    );
    assert_eq!(
        canon(r#"[{"servers":["1.2.3.4",5]}]"#),
        Err(ForwardError::ServerNotText { rule: 0, item: 1 })
    );
    assert_eq!(
        canon(r#"[{"servers":["1.2.3"]}]"#),
        Err(ForwardError::InvalidServer { rule: 0, text: "1.2.3".to_string() })
    );
}

#[test]
fn first_fault_decides() {
    assert_eq!(
        canon(r#"[{"subtree":1,"servers":[7]}, 2]"#),
        canon(r#"[{"subtree":1}]"#)
    );
    assert_eq!(
        canon(r#"[{"servers":[7]}, 2]"#),
        Err(ForwardError::ServerNotText { rule: 0, item: 0 })
    );
}

#[test]
fn parsed_servers_are_checked() {
    assert_eq!(checked_server(3, "x", Some(IpAddr::V4(1))), Ok(IpAddr::V4(1)));
    assert_eq!(
        checked_server(3, "x", None),
        Err(ForwardError::InvalidServer { rule: 3, text: "x".to_string() })
    );
}

#[test]
fn interface_path() {
    assert_eq!(forward_path(), "/v1/config/forward");
}

#[test]
fn blank_replies_state_no_rules() {
    for body in ["", " \t\r\n\x0c"] {
        assert_eq!(get_knot_forward(200, body.as_bytes()).unwrap(), Json::Array(vec![]));
    }
    assert!(matches!(get_knot_forward(200, b"\x0b"), Err(ApiError::InvalidJson(_))));
}

#[test]
fn replies_are_read() {
    assert_eq!(get_knot_forward(299, b" [true] ").unwrap(), Json::Array(vec![Json::Bool(true)]));
    assert!(matches!(get_knot_forward(200, b"[true"), Err(ApiError::InvalidJson(_))));
}

#[test]
fn refused_requests_carry_the_reply() {
    match get_knot_forward(300, b" no \xff") {
        Err(ApiError::Refused { status, text }) => {
            assert_eq!(status, 300);
            assert_eq!(text, " no \u{fffd}");
        }
        _ => panic!("not refused"),
    }
    match set_knot_forward_reply(199, b" no \n") {
        Err(ApiError::Refused { status, text }) => {
            assert_eq!(status, 199);
            assert_eq!(text, "no");
        }
        _ => panic!("not refused"),
    }
    assert!(set_knot_forward_reply(204, b"whatever").is_ok());
}
