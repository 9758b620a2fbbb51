//! One run of the updater, as a machine: it asks for a piece of outside work, is told the outcome,
//! and asks for the next, until the run ends.

use vstd::prelude::*;
use vstd::string::*;
use vstd::utf8::encode_utf8;

use crate::addr::IpAddr;
use crate::api::{
    blank, change_reply, forward_reply, get_knot_forward, set_knot_forward, set_knot_forward_reply,
    ApiError, ApiErrorView,
};
use crate::config::Config;
use crate::domain::{domain_list, read_anti_rfc6761};
use crate::forward::{
    build_forward_config, canonical, canonicalize_forward, forward_config, same_rules,
    wanted_rules, ForwardError, ForwardErrorView,
};
use crate::json::{json_document, json_encoding};
use crate::known::{
    bytes_view, get_known_path, known_path, matches_known, records, sha3_512, write_known, FileWrite,
};
use crate::order::texts_of;
use crate::resolv::{content_view, ResolvData};
use crate::search::{search_update, update_search_domains, SearchError, SearchUpdate};

verus! {

/// What a run is asked to do beyond the usual.
#[derive(Debug, Clone, Copy, PartialEq, Eq, Structural)]
pub struct Options {
    /// Copy NetworkManager's search domains into the system's resolver configuration.
    pub copy_search: bool,
    /// Apply the configuration even where nothing has changed.
    pub always_apply: bool,
}

/// What a run is waiting for.
#[derive(Debug, Clone, Copy, PartialEq, Eq, Structural)]
pub enum Stage {
    /// The contents of the file that Knot Resolver changes when it starts.
    LastStarted,
    /// The contents of that file's companion.
    LastStartedKnown,
    /// The contents of the companion of NetworkManager's configuration.
    NmKnown,
    /// The contents of the system's resolver configuration.
    ResolvConf,
    /// Word that the system's resolver configuration is replaced.
    ResolvConfWritten,
    /// The list of domains that are forwarded without validation.
    AntiList,
    /// Knot Resolver's rules.
    CurrentForward,
    /// Knot Resolver's answer to new rules.
    ForwardSent,
    /// Word that NetworkManager's configuration is recorded.
    NmRecorded,
    /// Word that Knot Resolver's start is recorded.
    LastStartedRecorded,
    /// The age of the record of Knot Resolver's start.
    KnownAge,
    /// Word that the record of Knot Resolver's start is removed.
    KnownRemoved,
    /// Nothing more.
    Finished,
}

/// How an attempt to remove a file ended.
#[derive(Debug, Clone, Copy, PartialEq, Eq, Structural)]
pub enum Removal {
    /// The file is removed.
    Removed,
    /// There was no such file.
    Missing,
    /// The file could not be removed.
    Failed,
}

/// The outcome of a piece of outside work.
#[derive(Debug)]
pub enum Event {
    /// The contents of a file, where it could be read.
    Content(Option<Vec<u8>>),
    /// The text of a file, where it could be read.
    Text(Option<String>),
    /// Whether a file was replaced.
    Written(bool),
    /// The status and the body of a reply, where there was one.
    Reply(Option<(u16, Vec<u8>)>),
    /// When a file was last changed and what time it is now, in nanoseconds since any fixed time,
    /// where that could be found out.
    Age(Option<(i128, i128)>),
    /// How an attempt to remove a file ended.
    Removal(Removal),
}

/// What an `Event` says.
pub enum EventView {
    /// The contents of a file, where it could be read.
    Content(Option<Seq<u8>>),
    /// The text of a file, where it could be read.
    Text(Option<Seq<char>>),
    /// Whether a file was replaced.
    Written(bool),
    /// The status and the body of a reply, where there was one.
    Reply(Option<(int, Seq<u8>)>),
    /// When a file was last changed and what time it is now.
    Age(Option<(int, int)>),
    /// How an attempt to remove a file ended.
    Removal(Removal),
}

impl View for Event {
    type V = EventView;

    open spec fn view(&self) -> EventView {
        match *self {
            Event::Content(c) => EventView::Content(content_view(c)),
            Event::Text(Some(s)) => EventView::Text(Some(s@)),
            Event::Text(None) => EventView::Text(None),
            Event::Written(ok) => EventView::Written(ok),
            Event::Reply(Some(reply)) => EventView::Reply(Some((reply.0 as int, reply.1@))),
            Event::Reply(None) => EventView::Reply(None),
            Event::Age(Some(age)) => EventView::Age(Some((age.0 as int, age.1 as int))),
            Event::Age(None) => EventView::Age(None),
            Event::Removal(r) => EventView::Removal(r),
        }
    }
}

/// Why a run failed.
#[derive(Debug)]
pub enum Failure {
    /// The outside work failed that was asked for last.
    Work,
    /// The search domains could not be put into the system's resolver configuration.
    Search(SearchError),
    /// The exchange with Knot Resolver failed.
    Api(ApiError),
    /// The wanted document states no rules.
    Wanted(ForwardError),
    /// Knot Resolver's document states no rules.
    Current(ForwardError),
    /// The outcome of other work was reported than was asked for.
    OutOfTurn,
}

/// What a `Failure` says, but for the causes that outside code reports.
pub enum FailureView {
    /// The outside work failed that was asked for last.
    Work,
    /// The system's resolver configuration does not parse.
    SearchInvalid,
    /// The system's resolver configuration is not UTF-8.
    SearchNotUtf8,
    /// The exchange with Knot Resolver failed.
    Api(ApiErrorView),
    /// The wanted document states no rules.
    Wanted(ForwardErrorView),
    /// Knot Resolver's document states no rules.
    Current(ForwardErrorView),
    /// The outcome of other work was reported than was asked for.
    OutOfTurn,
}

impl View for Failure {
    type V = FailureView;

    open spec fn view(&self) -> FailureView {
        match *self {
            Failure::Work => FailureView::Work,
            Failure::Search(SearchError::Invalid(_)) => FailureView::SearchInvalid,
            Failure::Search(SearchError::NotUtf8(_)) => FailureView::SearchNotUtf8,
            Failure::Api(e) => FailureView::Api(e@),
            Failure::Wanted(e) => FailureView::Wanted(e@),
            Failure::Current(e) => FailureView::Current(e@),
            Failure::OutOfTurn => FailureView::OutOfTurn,
        }
    }
}

/// What a run asks for.
#[derive(Debug)]
pub enum Action {
    /// Read a file; `Event::Content` answers.
    ReadFile(String),
    /// Read a file as text; `Event::Text` answers.
    ReadText(String),
    /// Replace a file; `Event::Written` answers.
    Write(FileWrite),
    /// Ask Knot Resolver for its rules; `Event::Reply` answers.
    GetForward,
    /// Send Knot Resolver new rules; `Event::Reply` answers.
    PutForward(Vec<u8>),
    /// Find out when a file was last changed; `Event::Age` answers.
    Stat(String),
    /// Remove a file; `Event::Removal` answers.
    Remove(String),
    /// End: nothing had changed.
    UpToDate,
    /// End: the configuration is applied.
    Applied,
    /// End: the run failed.
    Fail(Failure),
}

/// What an `Action` says.
pub enum ActionView {
    /// Read a file.
    ReadFile(Seq<char>),
    /// Read a file as text.
    ReadText(Seq<char>),
    /// Replace a file.
    Write {
        /// The path of the file.
        path: Seq<char>,
        /// All of its contents.
        contents: Seq<u8>,
    },
    /// Ask Knot Resolver for its rules.
    GetForward,
    /// Send Knot Resolver new rules.
    PutForward(Seq<u8>),
    /// Find out when a file was last changed.
    Stat(Seq<char>),
    /// Remove a file.
    Remove(Seq<char>),
    /// End: nothing had changed.
    UpToDate,
    /// End: the configuration is applied.
    Applied,
    /// End: the run failed.
    Fail(FailureView),
}

impl View for Action {
    type V = ActionView;

    open spec fn view(&self) -> ActionView {
        match *self {
            Action::ReadFile(path) => ActionView::ReadFile(path@),
            Action::ReadText(path) => ActionView::ReadText(path@),
            Action::Write(file) => ActionView::Write {
                path: file.path@,
                contents: file.contents@,
            },
            Action::GetForward => ActionView::GetForward,
            Action::PutForward(body) => ActionView::PutForward(body@),
            Action::Stat(path) => ActionView::Stat(path@),
            Action::Remove(path) => ActionView::Remove(path@),
            Action::UpToDate => ActionView::UpToDate,
            Action::Applied => ActionView::Applied,
            Action::Fail(e) => ActionView::Fail(e@),
        }
    }
}

/// A run of the updater.
pub struct Session<'a> {
    /// Where files are.
    pub cfg: Config<'a>,
    /// What the run is asked to do.
    pub options: Options,
    /// NetworkManager's configuration.
    pub desired: ResolvData,
    /// The contents of the file that Knot Resolver changes when it starts, once they were read.
    pub last_started: Option<Vec<u8>>,
    /// Whether Knot Resolver has started since the last run.
    pub last_started_changed: bool,
    /// The domains that are forwarded without validation, once they were read.
    pub anti_rfc6761: Vec<String>,
    /// What the run is waiting for.
    pub stage: Stage,
}

/// What a `Session` says.
pub struct SessionView {
    /// The path of the system's resolver configuration.
    pub resolv_conf: Seq<char>,
    /// The directory of the updater's own state.
    pub run_dir: Seq<char>,
    /// The path of the list of domains that are forwarded without validation.
    pub anti_path: Seq<char>,
    /// The path of the file that Knot Resolver changes when it starts.
    pub started_path: Seq<char>,
    /// The path of NetworkManager's configuration.
    pub nm_path: Seq<char>,
    /// What the run is asked to do.
    pub options: Options,
    /// NetworkManager's configuration itself.
    pub nm: Seq<u8>,
    /// The name servers in it.
    pub servers: Seq<IpAddr>,
    /// The search domains in it.
    pub search: Seq<Seq<char>>,
    /// The contents of the file that Knot Resolver changes when it starts.
    pub last_started: Option<Seq<u8>>,
    /// Whether Knot Resolver has started since the last run.
    pub changed: bool,
    /// The domains that are forwarded without validation.
    pub anti: Seq<Seq<char>>,
    /// What the run is waiting for.
    pub stage: Stage,
}

impl<'a> View for Session<'a> {
    type V = SessionView;

    open spec fn view(&self) -> SessionView {
        SessionView {
            resolv_conf: self.cfg.resolv_conf@,
            run_dir: self.cfg.run_dir@,
            anti_path: self.cfg.resolv_anti_rfc6761@,
            started_path: self.cfg.knot_resolver_last_started@,
            nm_path: self.cfg.resolv_nm_conf@,
            options: self.options,
            nm: self.desired.bytes@,
            servers: self.desired.nameservers@,
            search: texts_of(self.desired.search_domains@),
            last_started: content_view(self.last_started),
            changed: self.last_started_changed,
            anti: texts_of(self.anti_rfc6761@),
            stage: self.stage,
        }
    }
}

/// How long the record of Knot Resolver's start is kept without news, in nanoseconds.
pub const RECORD_LIFETIME: u64 = 86_400_000_000_000;

/// The run goes on with another stage.
pub open spec fn to(s: SessionView, stage: Stage, action: ActionView) -> (SessionView, ActionView) {
    (SessionView { stage, ..s }, action)
}

/// The run fails.
pub open spec fn fails(s: SessionView, why: FailureView) -> (SessionView, ActionView) {
    to(s, Stage::Finished, ActionView::Fail(why))
}

/// The path of the companion of the file that Knot Resolver changes when it starts.
pub open spec fn started_known(s: SessionView) -> Seq<char> {
    known_path(s.run_dir, s.started_path)
}

/// The path of the companion of NetworkManager's configuration.
pub open spec fn nm_known(s: SessionView) -> Seq<char> {
    known_path(s.run_dir, s.nm_path)
}

/// After Knot Resolver's file was read: its companion tells whether the contents are new. A file
/// that cannot be read counts as new.
pub open spec fn after_last_started(s: SessionView, content: Option<Seq<u8>>) -> (
    SessionView,
    ActionView,
) {
    let s = SessionView { last_started: content, ..s };
    if content is Some {
        to(s, Stage::LastStartedKnown, ActionView::ReadFile(started_known(s)))
    } else {
        to(
            SessionView { changed: true, ..s },
            Stage::NmKnown,
            ActionView::ReadFile(nm_known(s)),
        )
    }
}

/// After the companion of Knot Resolver's file was read.
pub open spec fn after_last_started_known(s: SessionView, known: Option<Seq<u8>>) -> (
    SessionView,
    ActionView,
) {
    to(
        SessionView { changed: !records(s.last_started, known), ..s },
        Stage::NmKnown,
        ActionView::ReadFile(nm_known(s)),
    )
}

/// After the companion of NetworkManager's configuration was read: the run ends here, unless that
/// configuration is new, Knot Resolver has started, or the run is to apply it anyway.
pub open spec fn after_nm_known(s: SessionView, known: Option<Seq<u8>>) -> (
    SessionView,
    ActionView,
) {
    if records(Some(s.nm), known) && !s.changed && !s.options.always_apply {
        to(s, Stage::Finished, ActionView::UpToDate)
    } else if s.options.copy_search {
        to(s, Stage::ResolvConf, ActionView::ReadFile(s.resolv_conf))
    } else {
        to(s, Stage::AntiList, ActionView::ReadText(s.anti_path))
    }
}

/// After the system's resolver configuration was read.
pub open spec fn after_resolv_conf(s: SessionView, content: Option<Seq<u8>>) -> (
    SessionView,
    ActionView,
) {
    match content {
        None => fails(s, FailureView::Work),
        Some(bytes) => match search_update(bytes, s.search) {
            SearchUpdate::Invalid => fails(s, FailureView::SearchInvalid),
            SearchUpdate::NotUtf8 => fails(s, FailureView::SearchNotUtf8),
            SearchUpdate::Unchanged => to(s, Stage::AntiList, ActionView::ReadText(s.anti_path)),
            SearchUpdate::Replaced(text) => to(
                s,
                Stage::ResolvConfWritten,
                ActionView::Write { path: s.resolv_conf, contents: encode_utf8(text) },
            ),
        },
    }
}

/// After the list of domains was read.
pub open spec fn after_anti_list(s: SessionView, text: Option<Seq<char>>) -> (
    SessionView,
    ActionView,
) {
    match text {
        None => fails(s, FailureView::Work),
        Some(text) => to(
            SessionView { anti: domain_list(text), ..s },
            Stage::CurrentForward,
            ActionView::GetForward,
        ),
    }
}

/// NetworkManager's configuration is recorded.
pub open spec fn record_nm(s: SessionView) -> (SessionView, ActionView) {
    to(
        s,
        Stage::NmRecorded,
        ActionView::Write { path: nm_known(s), contents: sha3_512(s.nm) },
    )
}

/// After Knot Resolver told its rules: new ones are sent only where they differ.
pub open spec fn after_current_forward(s: SessionView, reply: Option<(int, Seq<u8>)>) -> (
    SessionView,
    ActionView,
) {
    match reply {
        None => fails(s, FailureView::Work),
        Some((status, body)) => match forward_reply(status, body) {
            Err(e) => fails(s, FailureView::Api(e)),
            Ok(current) => match canonical(current) {
                Err(e) => fails(s, FailureView::Current(e)),
                Ok(rules) => if rules == wanted_rules(s.servers, s.anti) {
                    record_nm(s)
                } else {
                    to(
                        s,
                        Stage::ForwardSent,
                        ActionView::PutForward(json_encoding(forward_config(s.servers, s.anti))),
                    )
                },
            },
        },
    }
}

/// After Knot Resolver answered new rules.
pub open spec fn after_forward_sent(s: SessionView, reply: Option<(int, Seq<u8>)>) -> (
    SessionView,
    ActionView,
) {
    match reply {
        None => fails(s, FailureView::Work),
        Some((status, body)) => match change_reply(status, body) {
            Err(e) => fails(s, FailureView::Api(e)),
            Ok(_) => record_nm(s),
        },
    }
}

/// After NetworkManager's configuration was recorded: a new start of Knot Resolver is recorded
/// too, and otherwise the record of the last one is looked after.
pub open spec fn after_nm_recorded(s: SessionView, written: bool) -> (SessionView, ActionView) {
    if !written {
        fails(s, FailureView::Work)
    } else if s.last_started is Some && s.changed {
        to(
            s,
            Stage::LastStartedRecorded,
            ActionView::Write {
                path: started_known(s),
                contents: sha3_512(s.last_started->0),
            },
        )
    } else {
        to(s, Stage::KnownAge, ActionView::Stat(started_known(s)))
    }
}

/// Whether a file was last changed more than `time_ago` before now. It is an error for that time
/// to lie ahead.
pub open spec fn older_than(modified: int, now: int, time_ago: int) -> Result<bool, ()> {
    if modified > now {
        Err(())
    } else {
        Ok(now - modified > time_ago)
    }
}

/// Whether a record of the given age is to be removed: it is kept only where it is known to be
/// young.
pub open spec fn outdated(age: Option<(int, int)>) -> bool {
    match age {
        None => true,
        Some((modified, now)) => older_than(modified, now, RECORD_LIFETIME as int) != Ok::<bool, ()>(
            false,
        ),
    }
}

/// After the age of the record was found out.
pub open spec fn after_known_age(s: SessionView, age: Option<(int, int)>) -> (
    SessionView,
    ActionView,
) {
    if outdated(age) {
        to(s, Stage::KnownRemoved, ActionView::Remove(started_known(s)))
    } else {
        to(s, Stage::Finished, ActionView::Applied)
    }
}

/// How a run goes on, once the outcome is known of the work that it asked for.
pub open spec fn next(s: SessionView, e: EventView) -> (SessionView, ActionView) {
    match (s.stage, e) {
        (Stage::LastStarted, EventView::Content(content)) => after_last_started(s, content),
        (Stage::LastStartedKnown, EventView::Content(known)) => after_last_started_known(s, known),
        (Stage::NmKnown, EventView::Content(known)) => after_nm_known(s, known),
        (Stage::ResolvConf, EventView::Content(content)) => after_resolv_conf(s, content),
        (Stage::ResolvConfWritten, EventView::Written(true)) => to(
            s,
            Stage::AntiList,
            ActionView::ReadText(s.anti_path),
        ),
        (Stage::ResolvConfWritten, EventView::Written(false)) => fails(s, FailureView::Work),
        (Stage::AntiList, EventView::Text(text)) => after_anti_list(s, text),
        (Stage::CurrentForward, EventView::Reply(reply)) => after_current_forward(s, reply),
        (Stage::ForwardSent, EventView::Reply(reply)) => after_forward_sent(s, reply),
        (Stage::NmRecorded, EventView::Written(written)) => after_nm_recorded(s, written),
        (Stage::LastStartedRecorded, EventView::Written(true)) => to(
            s,
            Stage::Finished,
            ActionView::Applied,
        ),
        (Stage::LastStartedRecorded, EventView::Written(false)) => fails(s, FailureView::Work),
        (Stage::KnownAge, EventView::Age(age)) => after_known_age(s, age),
        (Stage::KnownRemoved, EventView::Removal(Removal::Failed)) => fails(s, FailureView::Work),
        (Stage::KnownRemoved, EventView::Removal(_)) => to(
            s,
            Stage::Finished,
            ActionView::Applied,
        ),
        _ => fails(s, FailureView::OutOfTurn),
    }
}

/// A file was changed at a time that lies ahead.
#[derive(Debug, Clone, Copy, PartialEq, Eq, Structural)]
pub struct ChangedAhead;

/// Whether a file was last changed more than `time_ago` before now.
pub fn is_older_than(modified: i128, now: i128, time_ago: u64) -> (r: Result<bool, ChangedAhead>)
    ensures
        match r {
            Ok(older) => older_than(modified as int, now as int, time_ago as int) == Ok::<_, ()>(
                older,
            ),
            Err(_) => older_than(modified as int, now as int, time_ago as int) is Err,
        },
{
    if modified > now {
        return Err(ChangedAhead);
    }
    match now.checked_sub(modified) {
        Some(age) => Ok(age > time_ago as i128),
        None => Ok(true),
    }
}

/// Whether a record of the given age is to be removed.
pub fn should_delete(age: Option<(i128, i128)>) -> (r: bool)
    ensures
        r == outdated(
            match age {
                Some(age) => Some((age.0 as int, age.1 as int)),
                None => None,
            },
        ),
{
    match age {
        None => true,
        Some((modified, now)) => match is_older_than(modified, now, RECORD_LIFETIME) {
            Ok(older) => older,
            Err(_) => true,
        },
    }
}

impl<'a> Session<'a> {
    /// Starts a run with NetworkManager's configuration.
    pub fn start(cfg: Config<'a>, options: Options, desired: ResolvData) -> (r: (Self, Action))
        ensures
            r.0.cfg == cfg,
            r.0.options == options,
            r.0.desired == desired,
            r.0@.last_started is None,
            !r.0@.changed,
            r.0@.anti == Seq::<Seq<char>>::empty(),
            r.0@.stage == Stage::LastStarted,
            r.1@ == ActionView::ReadFile(cfg.knot_resolver_last_started@),
    {
        let anti_rfc6761: Vec<String> = Vec::new();
        assert(texts_of(anti_rfc6761@) == Seq::<Seq<char>>::empty());
        let action = Action::ReadFile(cfg.knot_resolver_last_started.to_owned());
        let session = Session {
            cfg,
            options,
            desired,
            last_started: None,
            last_started_changed: false,
            anti_rfc6761,
            stage: Stage::LastStarted,
        };
        (session, action)
    }

    /// Goes on with another stage.
    fn go(&mut self, stage: Stage, action: Action) -> (r: Action)
        ensures
            (final(self)@, r@) == to(old(self)@, stage, action@),
            final(self).cfg == old(self).cfg,
            final(self).desired == old(self).desired,
    {
        self.stage = stage;
        action
    }

    /// Fails.
    fn fail(&mut self, why: Failure) -> (r: Action)
        ensures
            (final(self)@, r@) == fails(old(self)@, why@),
    {
        self.go(Stage::Finished, Action::Fail(why))
    }

    /// Asks for the companion of NetworkManager's configuration.
    fn read_nm_known(&mut self) -> (r: Action)
        ensures
            (final(self)@, r@) == to(
                old(self)@,
                Stage::NmKnown,
                ActionView::ReadFile(nm_known(old(self)@)),
            ),
    {
        let path = get_known_path(self.cfg.resolv_nm_conf, &self.cfg);
        self.go(Stage::NmKnown, Action::ReadFile(path))
    }

    /// Asks for the list of domains that are forwarded without validation.
    fn read_anti_list(&mut self) -> (r: Action)
        ensures
            (final(self)@, r@) == to(
                old(self)@,
                Stage::AntiList,
                ActionView::ReadText(old(self)@.anti_path),
            ),
    {
        let path = self.cfg.resolv_anti_rfc6761.to_owned();
        self.go(Stage::AntiList, Action::ReadText(path))
    }

    /// Asks to record NetworkManager's configuration.
    fn record_nm_conf(&mut self) -> (r: Action)
        ensures
            (final(self)@, r@) == record_nm(old(self)@),
    {
        let file = write_known(self.cfg.resolv_nm_conf, self.desired.bytes.as_slice(), &self.cfg);
        self.go(Stage::NmRecorded, Action::Write(file))
    }

    /// Goes on after Knot Resolver's file was read.
    fn on_last_started(&mut self, content: Option<Vec<u8>>) -> (r: Action)
        ensures
            (final(self)@, r@) == after_last_started(old(self)@, content_view(content)),
    {
        let readable = content.is_some();
        self.last_started = content;
        if readable {
            let path = get_known_path(self.cfg.knot_resolver_last_started, &self.cfg);
            self.go(Stage::LastStartedKnown, Action::ReadFile(path))
        } else {
            self.last_started_changed = true;
            self.read_nm_known()
        }
    }

    /// Goes on after the companion of Knot Resolver's file was read.
    fn on_last_started_known(&mut self, known: Option<Vec<u8>>) -> (r: Action)
        ensures
            (final(self)@, r@) == after_last_started_known(old(self)@, content_view(known)),
    {
        let matches = matches_known(borrowed(&self.last_started), borrowed(&known));
        self.last_started_changed = !matches;
        self.read_nm_known()
    }

    /// Goes on after the companion of NetworkManager's configuration was read.
    fn on_nm_known(&mut self, known: Option<Vec<u8>>) -> (r: Action)
        ensures
            (final(self)@, r@) == after_nm_known(old(self)@, content_view(known)),
    {
        let matches = matches_known(Some(self.desired.bytes.as_slice()), borrowed(&known));
        if matches && !self.last_started_changed && !self.options.always_apply {
            self.go(Stage::Finished, Action::UpToDate)
        } else if self.options.copy_search {
            let path = self.cfg.resolv_conf.to_owned();
            self.go(Stage::ResolvConf, Action::ReadFile(path))
        } else {
            self.read_anti_list()
        }
    }

    /// Goes on after the system's resolver configuration was read.
    fn on_resolv_conf(&mut self, content: Option<Vec<u8>>) -> (r: Action)
        ensures
            (final(self)@, r@) == after_resolv_conf(old(self)@, content_view(content)),
    {
        match content {
            None => self.fail(Failure::Work),
            Some(bytes) => match update_search_domains(
                bytes,
                self.desired.search_domains.as_slice(),
            ) {
                Err(e) => self.fail(Failure::Search(e)),
                Ok(None) => self.read_anti_list(),
                Ok(Some(text)) => {
                    let file = FileWrite {
                        path: self.cfg.resolv_conf.to_owned(),
                        contents: text.as_str().as_bytes_vec(),
                    };
                    self.go(Stage::ResolvConfWritten, Action::Write(file))
                },
            },
        }
    }

    /// Goes on after the list of domains was read.
    fn on_anti_list(&mut self, text: Option<String>) -> (r: Action)
        ensures
            (final(self)@, r@) == after_anti_list(
                old(self)@,
                match text {
                    Some(s) => Some(s@),
                    None => None,
                },
            ),
    {
        match text {
            None => self.fail(Failure::Work),
            Some(text) => {
                self.anti_rfc6761 = read_anti_rfc6761(text.as_str());
                self.go(Stage::CurrentForward, Action::GetForward)
            },
        }
    }

    /// Goes on after Knot Resolver told its rules.
    fn on_current_forward(&mut self, reply: Option<(u16, Vec<u8>)>) -> (r: Action)
        ensures
            (final(self)@, r@) == after_current_forward(
                old(self)@,
                match reply {
                    Some(reply) => Some((reply.0 as int, reply.1@)),
                    None => None,
                },
            ),
            r matches Action::PutForward(body) ==> sent_config(old(self)@, body@),
    {
        let (status, body) = match reply {
            None => return self.fail(Failure::Work),
            Some(reply) => reply,
        };
        let wanted = build_forward_config(
            self.desired.nameservers.as_slice(),
            self.anti_rfc6761.as_slice(),
        );
        let current = match get_knot_forward(status, body.as_slice()) {
            Err(e) => return self.fail(Failure::Api(e)),
            Ok(current) => current,
        };
        let wanted_canonical = match canonicalize_forward(&wanted) {
            Err(e) => return self.fail(Failure::Wanted(e)),
            Ok(rules) => rules,
        };
        let current_canonical = match canonicalize_forward(&current) {
            Err(e) => return self.fail(Failure::Current(e)),
            Ok(rules) => rules,
        };
        if same_rules(current_canonical.as_slice(), wanted_canonical.as_slice()) {
            return self.record_nm_conf();
        }
        match set_knot_forward(wanted) {
            Err(e) => self.fail(Failure::Api(e)),
            Ok(body) => self.go(Stage::ForwardSent, Action::PutForward(body)),
        }
    }

    /// Goes on after Knot Resolver answered new rules.
    fn on_forward_sent(&mut self, reply: Option<(u16, Vec<u8>)>) -> (r: Action)
        ensures
            (final(self)@, r@) == after_forward_sent(
                old(self)@,
                match reply {
                    Some(reply) => Some((reply.0 as int, reply.1@)),
                    None => None,
                },
            ),
    {
        match reply {
            None => self.fail(Failure::Work),
            Some((status, body)) => match set_knot_forward_reply(status, body.as_slice()) {
                Err(e) => self.fail(Failure::Api(e)),
                Ok(_) => self.record_nm_conf(),
            },
        }
    }

    /// Goes on after NetworkManager's configuration was recorded.
    fn on_nm_recorded(&mut self, written: bool) -> (r: Action)
        ensures
            (final(self)@, r@) == after_nm_recorded(old(self)@, written),
    {
        if !written {
            return self.fail(Failure::Work);
        }
        let path = self.cfg.knot_resolver_last_started;
        match &self.last_started {
            Some(data) if self.last_started_changed => {
                let file = write_known(path, data.as_slice(), &self.cfg);
                self.go(Stage::LastStartedRecorded, Action::Write(file))
            },
            _ => {
                let known = get_known_path(path, &self.cfg);
                self.go(Stage::KnownAge, Action::Stat(known))
            },
        }
    }

    /// Goes on after the age of the record of Knot Resolver's start was found out.
    fn on_known_age(&mut self, age: Option<(i128, i128)>) -> (r: Action)
        ensures
            (final(self)@, r@) == after_known_age(
                old(self)@,
                match age {
                    Some(age) => Some((age.0 as int, age.1 as int)),
                    None => None,
                },
            ),
    {
        if should_delete(age) {
            let known = get_known_path(self.cfg.knot_resolver_last_started, &self.cfg);
            self.go(Stage::KnownRemoved, Action::Remove(known))
        } else {
            self.go(Stage::Finished, Action::Applied)
        }
    }

    /// Goes on with the run, given the outcome of the work that it asked for.
    pub fn step(&mut self, event: Event) -> (r: Action)
        ensures
            (final(self)@, r@) == next(old(self)@, event@),
            r matches Action::PutForward(body) ==> sent_config(old(self)@, body@),
    {
        match (self.stage, event) {
            (Stage::LastStarted, Event::Content(content)) => self.on_last_started(content),
            (Stage::LastStartedKnown, Event::Content(known)) => self.on_last_started_known(known),
            (Stage::NmKnown, Event::Content(known)) => self.on_nm_known(known),
            (Stage::ResolvConf, Event::Content(content)) => self.on_resolv_conf(content),
            (Stage::ResolvConfWritten, Event::Written(true)) => self.read_anti_list(),
            (Stage::ResolvConfWritten, Event::Written(false)) => self.fail(Failure::Work),
            (Stage::AntiList, Event::Text(text)) => self.on_anti_list(text),
            (Stage::CurrentForward, Event::Reply(reply)) => self.on_current_forward(reply),
            (Stage::ForwardSent, Event::Reply(reply)) => self.on_forward_sent(reply),
            (Stage::NmRecorded, Event::Written(written)) => self.on_nm_recorded(written),
            (Stage::LastStartedRecorded, Event::Written(true)) => self.go(
                Stage::Finished,
                Action::Applied,
            ),
            (Stage::LastStartedRecorded, Event::Written(false)) => self.fail(Failure::Work),
            (Stage::KnownAge, Event::Age(age)) => self.on_known_age(age),
            (Stage::KnownRemoved, Event::Removal(Removal::Failed)) => self.fail(Failure::Work),
            (Stage::KnownRemoved, Event::Removal(_)) => self.go(Stage::Finished, Action::Applied),
            _ => self.fail(Failure::OutOfTurn),
        }
    }
}

/// Whether `body` is JSON text for the wanted rules, which read back as just those rules.
pub open spec fn sent_config(s: SessionView, body: Seq<u8>) -> bool {
    &&& !blank(body)
    &&& json_document(body) == Some(forward_config(s.servers, s.anti))
    &&& canonical(forward_config(s.servers, s.anti)) == Ok::<_, ForwardErrorView>(
        wanted_rules(s.servers, s.anti),
    )
}

/// Contents that may be missing, borrowed.
fn borrowed(content: &Option<Vec<u8>>) -> (r: Option<&[u8]>)
    ensures
        bytes_view(r) == content_view(*content),
{
    match content {
        Some(bytes) => Some(bytes.as_slice()),
        None => None,
    }
}

} // verus!
