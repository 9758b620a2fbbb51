use knot_nm_dns_update::api::ApiError;
use knot_nm_dns_update::config::Config;
use knot_nm_dns_update::forward::{build_forward_config, ForwardError};
use knot_nm_dns_update::json::write_json;
use knot_nm_dns_update::known::{default_hash, get_known_path};
use knot_nm_dns_update::resolv::{read_resolv_conf_once, ResolvData};
use knot_nm_dns_update::search::SearchError;
use knot_nm_dns_update::session::{
    is_older_than, should_delete, Action, ChangedAhead, Event, Failure, Options, Removal, Session,
    RECORD_LIFETIME,
};

const NM: &[u8] = b"search lan\nnameserver 192.0.2.1\n";
const STARTED: &[u8] = b"12345";
const PLAIN: Options = Options { copy_search: false, always_apply: false };

fn desired() -> ResolvData {
    read_resolv_conf_once(NM.to_vec()).unwrap()
}

fn run(options: Options) -> Session<'static> {
    let (session, action) = Session::start(Config::installed(), options, desired());
    assert_reads(&action, "/run/knot-resolver/last_started");
    session
}

fn started_known() -> String {
    let cfg = Config::installed();
    get_known_path(cfg.knot_resolver_last_started, &cfg)
}

fn nm_known() -> String {
    let cfg = Config::installed();
    get_known_path(cfg.resolv_nm_conf, &cfg)
}

fn content(bytes: &[u8]) -> Event {
    Event::Content(Some(bytes.to_vec()))
}

fn assert_reads(action: &Action, path: &str) {
    match action {
        Action::ReadFile(p) => assert_eq!(p, path),
        other => panic!("{other:?}"),
    }
}

fn assert_writes(action: &Action, path: &str, contents: &[u8]) {
    match action {
        Action::Write(file) => {
            assert_eq!(file.path, path);
            assert_eq!(file.contents, contents);
        }
        other => panic!("{other:?}"),
    }
}

/// Takes a run to the point where it asks for the domain list.
fn to_anti_list(session: &mut Session, started: Option<&[u8]>, started_hash: Option<&[u8]>) {
    let action = session.step(Event::Content(started.map(|s| s.to_vec())));
    if started.is_some() {
        assert_reads(&action, &started_known());
        let action = session.step(Event::Content(started_hash.map(|s| s.to_vec())));
        assert_reads(&action, &nm_known());
    } else {
        assert_reads(&action, &nm_known());
    }
    match session.step(Event::Content(None)) {
        Action::ReadText(path) => assert_eq!(path, "/etc/resolv.anti_rfc6761"),
        other => panic!("{other:?}"),
    }
}

fn wanted(domains: &[&str]) -> Vec<u8> {
    let anti: Vec<String> = domains.iter().map(|d| d.to_string()).collect();
    write_json(build_forward_config(&desired().nameservers, &anti)).unwrap()
}

#[test]
fn nothing_to_do() {
    let mut s = run(PLAIN);
    assert_reads(&s.step(content(STARTED)), &started_known());
    assert_reads(&s.step(content(&default_hash(STARTED))), &nm_known());
    assert!(matches!(s.step(content(&default_hash(NM))), Action::UpToDate));
}

#[test]
fn an_unreadable_start_file_counts_as_changed() {
    let mut s = run(PLAIN);
    assert_reads(&s.step(Event::Content(None)), &nm_known());
    assert!(matches!(s.step(content(&default_hash(NM))), Action::ReadText(_)));
}

#[test]
fn always_apply_goes_on() {
    let mut s = run(Options { copy_search: false, always_apply: true });
    s.step(content(STARTED));
    s.step(content(&default_hash(STARTED)));
    assert!(matches!(s.step(content(&default_hash(NM))), Action::ReadText(_)));
}

#[test]
fn new_rules_are_sent_and_recorded() {
    let mut s = run(PLAIN);
    to_anti_list(&mut s, Some(STARTED), None);
    assert!(matches!(s.step(Event::Text(Some("Local\n".to_string()))), Action::GetForward));
    match s.step(Event::Reply(Some((200, b"".to_vec())))) {
        Action::PutForward(body) => assert_eq!(body, wanted(&["local."])),
        other => panic!("{other:?}"),
    }
    assert_writes(&s.step(Event::Reply(Some((204, vec![])))), &nm_known(), &default_hash(NM));
    assert_writes(&s.step(Event::Written(true)), &started_known(), &default_hash(STARTED));
    assert!(matches!(s.step(Event::Written(true)), Action::Applied));
    assert!(matches!(s.step(Event::Written(true)), Action::Fail(Failure::OutOfTurn)));
}

#[test]
fn rules_in_force_are_only_recorded() {
    let mut s = run(PLAIN);
    to_anti_list(&mut s, Some(STARTED), Some(&default_hash(STARTED)));
    s.step(Event::Text(Some("local".to_string())));
    let action = s.step(Event::Reply(Some((200, wanted(&["local."])))));
    assert_writes(&action, &nm_known(), &default_hash(NM));
    match s.step(Event::Written(true)) {
        Action::Stat(path) => assert_eq!(path, started_known()),
        other => panic!("{other:?}"),
    }
    assert!(matches!(s.step(Event::Age(Some((0, 5)))), Action::Applied));
}

#[test]
fn outdated_records_are_removed() {
    for (removal, fails) in [(Removal::Removed, false), (Removal::Missing, false), (Removal::Failed, true)] {
        let mut s = run(PLAIN);
        to_anti_list(&mut s, None, None);
        s.step(Event::Text(Some(String::new())));
        s.step(Event::Reply(Some((200, wanted(&[])))));
        assert!(matches!(s.step(Event::Written(true)), Action::Stat(_)));
        match s.step(Event::Age(None)) {
            Action::Remove(path) => assert_eq!(path, started_known()),
            other => panic!("{other:?}"),
        }
        let end = s.step(Event::Removal(removal));
        assert_eq!(matches!(end, Action::Fail(Failure::Work)), fails);
        assert_eq!(matches!(end, Action::Applied), !fails);
    }
}

#[test]
fn search_domains_are_copied() {
    let options = Options { copy_search: true, always_apply: true };
    let mut s = run(options);
    s.step(Event::Content(None));
    assert_reads(&s.step(Event::Content(None)), "/etc/resolv.conf");
    let action = s.step(content(b"search x\r\noptions edns0"));
    assert_writes(&action, "/etc/resolv.conf", b"search lan\r\noptions edns0");
    assert!(matches!(s.step(Event::Written(true)), Action::ReadText(_)));

    let mut s = run(options);
    s.step(Event::Content(None));
    s.step(Event::Content(None));
    assert!(matches!(s.step(content(b"search lan\n")), Action::ReadText(_)));
}

#[test]
fn search_domains_that_cannot_be_copied_end_the_run() {
    let options = Options { copy_search: true, always_apply: false };
    for bad in [None, Some(&b"bogus"[..]), Some(&b"#\xff"[..])] {
        let mut s = run(options);
        s.step(Event::Content(None));
        s.step(Event::Content(None));
        let end = s.step(Event::Content(bad.map(|b| b.to_vec())));
        match bad {
            None => assert!(matches!(end, Action::Fail(Failure::Work))),
            Some(b"bogus") => {
                assert!(matches!(end, Action::Fail(Failure::Search(SearchError::Invalid(_)))))
            }
            Some(_) => assert!(matches!(end, Action::Fail(Failure::Search(SearchError::NotUtf8(_))))),
        }
    }
    let mut s = run(options);
    s.step(Event::Content(None));
    s.step(Event::Content(None));
    s.step(content(b""));
    assert!(matches!(s.step(Event::Written(false)), Action::Fail(Failure::Work)));
}

#[test]
fn failures_end_the_run() {
    let mut s = run(PLAIN);
    to_anti_list(&mut s, None, None);
    assert!(matches!(s.step(Event::Text(None)), Action::Fail(Failure::Work)));

    let replies: [(Option<(u16, &[u8])>, fn(&Failure) -> bool); 4] = [
        (None, |f| matches!(f, Failure::Work)),
        (Some((500, b"no")), |f| matches!(f, Failure::Api(ApiError::Refused { status: 500, .. }))),
        (Some((200, b"[")), |f| matches!(f, Failure::Api(ApiError::InvalidJson(_)))),
        (Some((200, b"{}")), |f| matches!(f, Failure::Current(ForwardError::NotAnArray))),
    ];
    for (reply, expected) in replies {
        let mut s = run(PLAIN);
        to_anti_list(&mut s, None, None);
        s.step(Event::Text(Some(String::new())));
        match s.step(Event::Reply(reply.map(|(status, body)| (status, body.to_vec())))) {
            Action::Fail(f) => assert!(expected(&f)),
            other => panic!("{other:?}"),
        }
    }
}

#[test]
fn refused_rules_are_not_recorded() {
    for reply in [None, Some((400, b" bad \n".to_vec()))] {
        let refused = reply.is_some();
        let mut s = run(PLAIN);
        to_anti_list(&mut s, None, None);
        s.step(Event::Text(Some(String::new())));
        assert!(matches!(s.step(Event::Reply(Some((200, b"[]".to_vec())))), Action::PutForward(_)));
        match s.step(Event::Reply(reply)) {
            Action::Fail(Failure::Api(ApiError::Refused { status, text })) if refused => {
                assert_eq!((status, text.as_str()), (400, "bad"));
            }
            Action::Fail(Failure::Work) if !refused => {}
            other => panic!("{other:?}"),
        }
    }
}

#[test]
fn unwritten_records_end_the_run() {
    let mut s = run(PLAIN);
    to_anti_list(&mut s, Some(STARTED), None);
    s.step(Event::Text(Some(String::new())));
    s.step(Event::Reply(Some((200, wanted(&[])))));
    assert!(matches!(s.step(Event::Written(true)), Action::Write(_)));
    assert!(matches!(s.step(Event::Written(false)), Action::Fail(Failure::Work)));
}

#[test]
fn ages() {
    assert_eq!(RECORD_LIFETIME, 24 * 60 * 60 * 1_000_000_000);
    assert_eq!(is_older_than(5, 15, 10), Ok(false));
    assert_eq!(is_older_than(5, 16, 10), Ok(true));
    assert_eq!(is_older_than(-5, 6, 10), Ok(true));
    assert_eq!(is_older_than(5, 4, 10), Err(ChangedAhead));
    assert_eq!(is_older_than(i128::MIN, i128::MAX, u64::MAX), Ok(true));
    let day = RECORD_LIFETIME as i128;
    assert!(!should_delete(Some((0, day))));
    assert!(should_delete(Some((0, day + 1))));
    assert!(should_delete(Some((1, 0))));
    assert!(should_delete(None));
}
