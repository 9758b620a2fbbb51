use knot_nm_dns_update::resolv::read_resolv_conf_once;
use knot_nm_dns_update::search::{
    change_search_domains, rewrite_search, update_search_domains, SearchError,
};

fn domains(names: &[&str]) -> Vec<String> {
    names.iter().map(|n| n.to_string()).collect()
}

#[test]
fn directives_are_replaced_in_place() {
    assert_eq!(
        rewrite_search("a\n  search x y\r\nb\nsearch\nc", &domains(&["p", "q"])),
        "a\nsearch p q\r\nb\nsearch p q\nc"
    );
    assert_eq!(rewrite_search("search x", &domains(&["p"])), "search p");
    assert_eq!(rewrite_search("search x\r", &domains(&["p"])), "search p\r");
}

#[test]
fn directives_vanish_where_no_domains_are_wanted() {
    assert_eq!(rewrite_search("a\nsearch x\r\nb\nsearch", &[]), "a\nb\n");
    assert_eq!(rewrite_search("a", &[]), "a");
    assert_eq!(rewrite_search("", &[]), "");
}

#[test]
fn directives_are_added_at_the_end() {
    assert_eq!(rewrite_search("", &domains(&["p"])), "search p\n");
    assert_eq!(rewrite_search("a", &domains(&["p"])), "a\nsearch p\n");
    assert_eq!(rewrite_search("a\n", &domains(&["p", "q"])), "a\nsearch p q\n");
}

#[test]
fn other_lines_are_left_alone() {
    for line in ["searching a\n", "# search x\n", "; search x\n", "research\n", "Search x\n"] {
        let out = rewrite_search(line, &domains(&["p"]));
        assert_eq!(out, format!("{line}search p\n"));
    }
}

#[test]
fn updates_are_read_back() {
    let wanted = domains(&["p.example", "q"]);
    for conf in [
        "nameserver 1.2.3.4",
        "search old\nnameserver 1.2.3.4\n",
        "nameserver 1.2.3.4\n search a\r\nsearch b\r\n",
        "search\tlost\nsearch kept\n",
    ] {
        let before = read_resolv_conf_once(conf.as_bytes().to_vec()).unwrap();
        let out = update_search_domains(conf.as_bytes().to_vec(), &wanted).unwrap().unwrap();
        let after = read_resolv_conf_once(out.clone().into_bytes()).unwrap();
        assert_eq!(after.search_domains, wanted);
        assert_eq!(after.nameservers, before.nameservers);
        assert_eq!(rewrite_search(&out, &wanted), out);
        assert_eq!(update_search_domains(out.into_bytes(), &wanted).unwrap(), None);
    }
}

#[test]
fn directives_count_whatever_sets_them_off() {
    assert_eq!(
        update_search_domains(b"search\tx.test\n".to_vec(), &domains(&["a.test"])).unwrap().unwrap(),
        "search a.test\n"
    );
    assert_eq!(rewrite_search("search a\nsearch\tb\n", &domains(&["p"])), "search p\nsearch p\n");
    assert_eq!(rewrite_search("\t search # none\r\n", &domains(&["p"])), "search p\r\n");
    assert_eq!(rewrite_search("search;x\nsearch#x\n", &domains(&["p"])), "search p\nsearch p\n");
    assert_eq!(rewrite_search("search\u{3000}x", &domains(&["p"])), "search p");
}

#[test]
fn configurations_that_set_the_domains_stay() {
    let conf = b"  search  p ; note\n".to_vec();
    assert_eq!(update_search_domains(conf, &domains(&["p"])).unwrap(), None);
    assert_eq!(update_search_domains(b"nameserver 1.2.3.4".to_vec(), &[]).unwrap(), None);
    assert_eq!(update_search_domains(b"search a,b\n".to_vec(), &[]).unwrap(), None);
}

#[test]
fn no_directive_is_left_where_no_domains_are_wanted() {
    assert_eq!(update_search_domains(b"search\tx\n".to_vec(), &[]).unwrap().as_deref(), Some(""));
    assert_eq!(
        update_search_domains(b"search a\nsearch\tx\n# end\n".to_vec(), &[]).unwrap().as_deref(),
        Some("# end\n")
    );
}

#[test]
fn faulty_configurations_are_refused() {
    assert!(matches!(
        update_search_domains(b"bogus".to_vec(), &domains(&["p"])),
        Err(SearchError::Invalid(_))
    ));
    assert!(matches!(
        update_search_domains(b"# \xff\n".to_vec(), &domains(&["p"])),
        Err(SearchError::NotUtf8(_))
    ));
    assert_eq!(update_search_domains(b"# \xff\n".to_vec(), &[]).unwrap(), None);
}

#[test]
fn changes_depend_on_the_current_domains() {
    let conf = b"search a\n".to_vec();
    let out = change_search_domains(conf.clone(), &domains(&["a"]), &domains(&["b"])).unwrap();
    assert_eq!(out.as_deref(), Some("search b\n"));
    assert_eq!(change_search_domains(conf, &domains(&["b"]), &domains(&["b"])).unwrap(), None);
}
