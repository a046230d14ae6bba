//! One reconciliation cycle as a state machine. The caller performs each
//! action that it hands out (a lookup or a request) and reports what came of
//! it as the next event; the machine decides what to do next.
use vstd::prelude::*;

use crate::api::{
    credentials_body, credentials_body_for, edit_url, edit_url_for, is_success, outcome_of_status,
    retrieve_url, retrieve_url_for, update_body, update_body_for, Credentials, Outcome,
};
use crate::records::{
    lemma_labels_len, list_a_record_subdomains, record_views, string_views, subdomain_labels, Record,
    RecordView,
};
use crate::text::{normalize_ip, trimmed};

verus! {

/// Why a cycle was abandoned.
#[derive(PartialEq, Eq, Structural, Debug, Clone, Copy)]
pub enum CycleError {
    /// The address lookup or a request could not be completed.
    Network,
    /// The provider's record list could not be read.
    Api,
}

impl CycleError {
    /// A line that tells an operator what went wrong.
    pub fn message(&self) -> (r: String)
        ensures
            r@ == match *self {
                CycleError::Network => "Unable to reach the network service..."@,
                CycleError::Api => "Unable to obtain records... Is the API enabled in porkbun for the domain?"@,
            },
    {
        match self {
            CycleError::Network => String::from_str("Unable to reach the network service..."),
            CycleError::Api => String::from_str(
                "Unable to obtain records... Is the API enabled in porkbun for the domain?",
            ),
        }
    }
}

/// Where a cycle stands: what it waits for, or how it ended.
#[derive(PartialEq, Eq, Structural, Debug, Clone, Copy)]
pub enum Phase {
    AwaitIp,
    AwaitRecords,
    AwaitRoot,
    /// Waiting for the answer to the update of the subdomain at this index.
    AwaitSubdomain(usize),
    Finished(Outcome),
    Failed(CycleError),
}

/// What came of the last action.
#[derive(Debug)]
pub enum Event {
    /// The lookup service answered with this text.
    IpFetched(String),
    /// The provider listed these records.
    RecordsFetched(Vec<Record>),
    /// The provider's answer to the listing was not a record list.
    RecordsUnreadable,
    /// The provider answered an update with this status.
    Status(u16),
    /// The lookup or the request could not be completed.
    TransportFailed,
}

pub enum EventView {
    IpFetched(Seq<char>),
    RecordsFetched(Seq<RecordView>),
    RecordsUnreadable,
    Status(u16),
    TransportFailed,
}

impl View for Event {
    type V = EventView;

    open spec fn view(&self) -> EventView {
        match self {
            Event::IpFetched(s) => EventView::IpFetched(s@),
            Event::RecordsFetched(rs) => EventView::RecordsFetched(record_views(rs@)),
            Event::RecordsUnreadable => EventView::RecordsUnreadable,
            Event::Status(st) => EventView::Status(*st),
            Event::TransportFailed => EventView::TransportFailed,
        }
    }
}

/// What the caller is to do next.
#[derive(Debug)]
pub enum Action {
    /// Look up the public address.
    FetchIp,
    /// POST `body` to `url` to list the domain's records.
    ListRecords { url: String, body: String },
    /// POST `body` to `url` to point the domain's own A record at the address.
    UpdateRoot { url: String, body: String },
    /// POST `body` to `url` to point the A record of subdomain `label` at the address.
    UpdateSubdomain { label: String, url: String, body: String },
    /// The cycle is over.
    Done(Outcome),
    /// The cycle was abandoned.
    Fail(CycleError),
    /// The event was not one the cycle waited for; nothing changed.
    Ignore,
}

pub enum ActionView {
    FetchIp,
    ListRecords { url: Seq<char>, body: Seq<char> },
    UpdateRoot { url: Seq<char>, body: Seq<char> },
    UpdateSubdomain { label: Seq<char>, url: Seq<char>, body: Seq<char> },
    Done(Outcome),
    Fail(CycleError),
    Ignore,
}

impl View for Action {
    type V = ActionView;

    open spec fn view(&self) -> ActionView {
        match self {
            Action::FetchIp => ActionView::FetchIp,
            Action::ListRecords { url, body } => ActionView::ListRecords { url: url@, body: body@ },
            Action::UpdateRoot { url, body } => ActionView::UpdateRoot { url: url@, body: body@ },
            Action::UpdateSubdomain { label, url, body } => ActionView::UpdateSubdomain {
                label: label@,
                url: url@,
                body: body@,
            },
            Action::Done(o) => ActionView::Done(*o),
            Action::Fail(e) => ActionView::Fail(*e),
            Action::Ignore => ActionView::Ignore,
        }
    }
}

pub struct CycleView {
    pub site: Seq<char>,
    pub secret: Seq<char>,
    pub key: Seq<char>,
    pub phase: Phase,
    pub ip: Seq<char>,
    pub subdomains: Seq<Seq<char>>,
}

/// The state in which a cycle for `site` starts.
pub open spec fn initial(site: Seq<char>, secret: Seq<char>, key: Seq<char>) -> CycleView {
    CycleView {
        site,
        secret,
        key,
        phase: Phase::AwaitIp,
        ip: Seq::empty(),
        subdomains: Seq::empty(),
    }
}

/// The update of the subdomain at index `k`.
pub open spec fn subdomain_action(s: CycleView, k: int) -> ActionView {
    ActionView::UpdateSubdomain {
        label: s.subdomains[k],
        url: edit_url(s.site, s.subdomains[k]),
        body: update_body(s.secret, s.key, s.ip),
    }
}

/// Go on with the subdomain at index `k`, or end the cycle as updated where
/// none is left.
pub open spec fn advance(s: CycleView, k: int) -> (CycleView, ActionView) {
    if k < s.subdomains.len() {
        (CycleView { phase: Phase::AwaitSubdomain(k as usize), ..s }, subdomain_action(s, k))
    } else {
        (CycleView { phase: Phase::Finished(Outcome::Updated), ..s }, ActionView::Done(Outcome::Updated))
    }
}

pub open spec fn abandon(s: CycleView, e: CycleError) -> (CycleView, ActionView) {
    (CycleView { phase: Phase::Failed(e), ..s }, ActionView::Fail(e))
}

/// The next state and the action that an event brings about.
pub open spec fn step_spec(s: CycleView, e: EventView) -> (CycleView, ActionView) {
    match s.phase {
        Phase::AwaitIp => match e {
            EventView::IpFetched(raw) => (
                CycleView { phase: Phase::AwaitRecords, ip: trimmed(raw), ..s },
                ActionView::ListRecords {
                    url: retrieve_url(s.site),
                    body: credentials_body(s.secret, s.key),
                },
            ),
            EventView::TransportFailed => abandon(s, CycleError::Network),
            _ => (s, ActionView::Ignore),
        },
        Phase::AwaitRecords => match e {
            EventView::RecordsFetched(rs) => (
                CycleView { phase: Phase::AwaitRoot, subdomains: subdomain_labels(rs), ..s },
                ActionView::UpdateRoot {
                    url: edit_url(s.site, Seq::empty()),
                    body: update_body(s.secret, s.key, s.ip),
                },
            ),
            EventView::RecordsUnreadable => abandon(s, CycleError::Api),
            EventView::TransportFailed => abandon(s, CycleError::Network),
            _ => (s, ActionView::Ignore),
        },
        Phase::AwaitRoot => match e {
            EventView::Status(st) => if is_success(st) {
                advance(s, 0)
            } else {
                (
                    CycleView { phase: Phase::Finished(Outcome::Unchanged), ..s },
                    ActionView::Done(Outcome::Unchanged),
                )
            },
            EventView::TransportFailed => abandon(s, CycleError::Network),
            _ => (s, ActionView::Ignore),
        },
        Phase::AwaitSubdomain(k) => match e {
            EventView::Status(_) => advance(s, k + 1),
            EventView::TransportFailed => abandon(s, CycleError::Network),
            _ => (s, ActionView::Ignore),
        },
        _ => (s, ActionView::Ignore),
    }
}

/// One reconciliation cycle for a site.
pub struct Cycle {
    site: String,
    credentials: Credentials,
    phase: Phase,
    ip: String,
    subdomains: Vec<String>,
}

impl View for Cycle {
    type V = CycleView;

    closed spec fn view(&self) -> CycleView {
        CycleView {
            site: self.site@,
            secret: self.credentials.secret_api_key@,
            key: self.credentials.api_key@,
            phase: self.phase,
            ip: self.ip@,
            subdomains: string_views(self.subdomains@),
        }
    }
}

impl Cycle {
    /// A cycle for `site`, and its first action: to look up the address.
    pub fn start(site: &str, credentials: &Credentials) -> (r: (Cycle, Action))
        ensures
            r.0@ == initial(site@, credentials.secret_api_key@, credentials.api_key@),
            r.1@ == ActionView::FetchIp,
    {
        let c = Cycle {
            site: String::from_str(site),
            credentials: Credentials::new(
                credentials.secret_api_key.clone(),
                credentials.api_key.clone(),
            ),
            phase: Phase::AwaitIp,
            ip: String::new(),
            subdomains: Vec::new(),
        };
        assert(string_views(c.subdomains@) =~= Seq::<Seq<char>>::empty());
        (c, Action::FetchIp)
    }

    pub fn phase(&self) -> (r: Phase)
        ensures
            r == self@.phase,
    {
        self.phase
    }

    /// The address this cycle points the records at, once it is known.
    pub fn ip(&self) -> (r: &String)
        ensures
            r@ == self@.ip,
    {
        &self.ip
    }

    fn abandon_with(&mut self, e: CycleError) -> (a: Action)
        ensures
            (final(self)@, a@) == abandon(old(self)@, e),
    {
        self.phase = Phase::Failed(e);
        Action::Fail(e)
    }

    fn advance_to(&mut self, k: usize) -> (a: Action)
        requires
            k <= old(self)@.subdomains.len(),
        ensures
            (final(self)@, a@) == advance(old(self)@, k as int),
    {
        if k < self.subdomains.len() {
            self.phase = Phase::AwaitSubdomain(k);
            let label = self.subdomains[k].clone();
            let url = edit_url_for(self.site.as_str(), label.as_str());
            let body = update_body_for(&self.credentials, self.ip.as_str());
            Action::UpdateSubdomain { label, url, body }
        } else {
            self.phase = Phase::Finished(Outcome::Updated);
            Action::Done(Outcome::Updated)
        }
    }

    /// Takes in what came of the last action and hands out the next one.
    pub fn step(&mut self, event: Event) -> (a: Action)
        ensures
            (final(self)@, a@) == step_spec(old(self)@, event@),
    {
        match self.phase {
            Phase::AwaitIp => match event {
                Event::IpFetched(raw) => {
                    self.ip = normalize_ip(raw.as_str());
                    self.phase = Phase::AwaitRecords;
                    let url = retrieve_url_for(self.site.as_str());
                    let body = credentials_body_for(&self.credentials);
                    Action::ListRecords { url, body }
                },
                Event::TransportFailed => self.abandon_with(CycleError::Network),
                _ => Action::Ignore,
            },
            Phase::AwaitRecords => match event {
                Event::RecordsFetched(records) => {
                    self.subdomains = list_a_record_subdomains(&records);
                    self.phase = Phase::AwaitRoot;
                    proof {
                        reveal_strlit("");
                    }
                    let url = edit_url_for(self.site.as_str(), "");
                    let body = update_body_for(&self.credentials, self.ip.as_str());
                    Action::UpdateRoot { url, body }
                },
                Event::RecordsUnreadable => self.abandon_with(CycleError::Api),
                Event::TransportFailed => self.abandon_with(CycleError::Network),
                _ => Action::Ignore,
            },
            Phase::AwaitRoot => match event {
                Event::Status(st) => match outcome_of_status(st) {
                    Outcome::Updated => self.advance_to(0),
                    Outcome::Unchanged => {
                        self.phase = Phase::Finished(Outcome::Unchanged);
                        Action::Done(Outcome::Unchanged)
                    },
                },
                Event::TransportFailed => self.abandon_with(CycleError::Network),
                _ => Action::Ignore,
            },
            Phase::AwaitSubdomain(k) => match event {
                Event::Status(_) => {
                    let n = self.subdomains.len();
                    if k < n {
                        self.advance_to(k + 1)
                    } else {
                        self.advance_to(n)
                    }
                },
                Event::TransportFailed => self.abandon_with(CycleError::Network),
                _ => Action::Ignore,
            },
            _ => Action::Ignore,
        }
    }
}

/// The state that `es` lead to from `s`, and the actions handed out on the way.
pub open spec fn run(s: CycleView, es: Seq<EventView>) -> (CycleView, Seq<ActionView>)
    decreases es.len(),
{
    if es.len() == 0 {
        (s, Seq::empty())
    } else {
        let next = step_spec(s, es[0]);
        let rest = run(next.0, es.drop_first());
        (rest.0, seq![next.1] + rest.1)
    }
}

pub open spec fn statuses(sts: Seq<u16>) -> Seq<EventView> {
    sts.map_values(|st: u16| EventView::Status(st))
}

/// A cycle that has ended hands out nothing but `Ignore`.
proof fn lemma_ended_run(s: CycleView, es: Seq<EventView>)
    requires
        s.phase is Finished || s.phase is Failed,
    ensures
        run(s, es).1.len() == es.len(),
        forall|i: int| 0 <= i < es.len() ==> #[trigger] run(s, es).1[i] == ActionView::Ignore,
    decreases es.len(),
{
    if es.len() > 0 {
        lemma_ended_run(s, es.drop_first());
        let acts = run(s, es).1;
        assert forall|i: int| 0 <= i < es.len() implies #[trigger] acts[i] == ActionView::Ignore by {
            if i > 0 {
                assert(acts[i] == run(s, es.drop_first()).1[i - 1]);
            }
        }
    }
}

/// From the update of subdomain `j`, one status per remaining subdomain
/// brings the updates of the later subdomains in order, then the end.
proof fn lemma_subdomain_run(s: CycleView, j: int, sts: Seq<u16>)
    requires
        0 <= j < s.subdomains.len() <= usize::MAX,
        s.phase == Phase::AwaitSubdomain(j as usize),
        sts.len() == s.subdomains.len() - j,
    ensures
        run(s, statuses(sts)).1 =~= Seq::new(
            (s.subdomains.len() - j - 1) as nat,
            |i: int| subdomain_action(s, j + 1 + i),
        ).push(ActionView::Done(Outcome::Updated)),
    decreases s.subdomains.len() - j,
{
    let n = s.subdomains.len();
    let es = statuses(sts);
    assert(es.drop_first() =~= statuses(sts.drop_first()));
    assert(es[0] == EventView::Status(sts[0]));
    let next = step_spec(s, es[0]);
    assert(run(s, es).1 == seq![next.1] + run(next.0, statuses(sts.drop_first())).1);
    if j + 1 < n {
        lemma_subdomain_run(next.0, j + 1, sts.drop_first());
        assert forall|x: int| #[trigger] subdomain_action(next.0, x) == subdomain_action(s, x) by {}
        assert(seq![next.1] + run(next.0, statuses(sts.drop_first())).1 =~= Seq::new(
            (n - j - 1) as nat,
            |i: int| subdomain_action(s, j + 1 + i),
        ).push(ActionView::Done(Outcome::Updated)));
    } else {
        assert(sts.drop_first().len() == 0);
        assert(statuses(sts.drop_first()) =~= Seq::<EventView>::empty());
    }
}

/// The events of a cycle whose lookup answers `raw`, whose listing answers
/// `rs` and whose update of the domain's own record answers `status`.
pub open spec fn cycle_events(raw: Seq<char>, rs: Seq<RecordView>, status: u16) -> Seq<EventView> {
    seq![EventView::IpFetched(raw), EventView::RecordsFetched(rs), EventView::Status(status)]
}

proof fn lemma_run_prefix(
    site: Seq<char>,
    secret: Seq<char>,
    key: Seq<char>,
    raw: Seq<char>,
    rs: Seq<RecordView>,
    status: u16,
    rest: Seq<EventView>,
)
    ensures
        ({
            let s0 = initial(site, secret, key);
            let s2 = CycleView {
                phase: Phase::AwaitRoot,
                ip: trimmed(raw),
                subdomains: subdomain_labels(rs),
                ..s0
            };
            let after = step_spec(s2, EventView::Status(status));
            let r = run(s0, cycle_events(raw, rs, status) + rest);
            &&& r.1 == seq![
                ActionView::ListRecords {
                    url: retrieve_url(site),
                    body: credentials_body(secret, key),
                },
                ActionView::UpdateRoot {
                    url: edit_url(site, Seq::empty()),
                    body: update_body(secret, key, trimmed(raw)),
                },
                after.1,
            ] + run(after.0, rest).1
            &&& after.0.subdomains == subdomain_labels(rs)
        }),
{
    let s0 = initial(site, secret, key);
    let es = cycle_events(raw, rs, status) + rest;
    let s1 = step_spec(s0, es[0]).0;
    let s2 = step_spec(s1, EventView::RecordsFetched(rs)).0;
    assert(es.drop_first() =~= seq![EventView::RecordsFetched(rs), EventView::Status(status)]
        + rest);
    assert(es.drop_first().drop_first() =~= seq![EventView::Status(status)] + rest);
    assert(es.drop_first().drop_first().drop_first() =~= rest);
    let r3 = run(s2, es.drop_first().drop_first());
    let r2 = run(s1, es.drop_first());
    assert(r2.1 =~= seq![step_spec(s1, EventView::RecordsFetched(rs)).1] + r3.1);
    assert(run(s0, es).1 =~= seq![step_spec(s0, es[0]).1] + r2.1);
    assert(r3.1 =~= seq![step_spec(s2, EventView::Status(status)).1] + run(
        step_spec(s2, EventView::Status(status)).0,
        rest,
    ).1);
}

/// When the update of the domain's own record comes back with any status but
/// a 2xx one, the cycle ends as unchanged and no subdomain is updated,
/// whatever events follow.
pub proof fn lemma_unchanged_root_updates_no_subdomain(
    site: Seq<char>,
    secret: Seq<char>,
    key: Seq<char>,
    raw: Seq<char>,
    rs: Seq<RecordView>,
    status: u16,
    rest: Seq<EventView>,
)
    requires
        !is_success(status),
    ensures
        ({
            let acts = run(initial(site, secret, key), cycle_events(raw, rs, status) + rest).1;
            &&& acts[2] == ActionView::Done(Outcome::Unchanged)
            &&& forall|i: int| 0 <= i < acts.len() ==> !(#[trigger] acts[i] is UpdateSubdomain)
        }),
{
    lemma_run_prefix(site, secret, key, raw, rs, status, rest);
    let s0 = initial(site, secret, key);
    let s2 = CycleView {
        phase: Phase::AwaitRoot,
        ip: trimmed(raw),
        subdomains: subdomain_labels(rs),
        ..s0
    };
    let after = step_spec(s2, EventView::Status(status));
    lemma_ended_run(after.0, rest);
    let acts = run(s0, cycle_events(raw, rs, status) + rest).1;
    assert forall|i: int| 0 <= i < acts.len() implies !(#[trigger] acts[i] is UpdateSubdomain) by {
        if i >= 3 {
            assert(acts[i] == run(after.0, rest).1[i - 3]);
        }
    }
}

/// When the update of the domain's own record comes back with a 2xx status,
/// and each later update is answered, the cycle updates every subdomain of
/// the listing exactly once, in the order of the listing, at its own
/// endpoint and with the same body as the domain's own record, then ends as
/// updated.
pub proof fn lemma_updated_root_updates_each_subdomain(
    site: Seq<char>,
    secret: Seq<char>,
    key: Seq<char>,
    raw: Seq<char>,
    rs: Seq<RecordView>,
    status: u16,
    sts: Seq<u16>,
)
    requires
        is_success(status),
        rs.len() <= usize::MAX,
        sts.len() == subdomain_labels(rs).len(),
    ensures
        ({
            let labels = subdomain_labels(rs);
            let n = labels.len() as int;
            let acts = run(initial(site, secret, key), cycle_events(raw, rs, status) + statuses(sts)).1;
            &&& acts.len() == n + 3
            &&& acts[0] is ListRecords
            &&& acts[1] is UpdateRoot
            &&& forall|i: int|
                0 <= i < n ==> #[trigger] acts[i + 2] == ActionView::UpdateSubdomain {
                    label: labels[i],
                    url: edit_url(site, labels[i]),
                    body: update_body(secret, key, trimmed(raw)),
                }
            &&& acts[n + 2] == ActionView::Done(Outcome::Updated)
        }),
{
    let rest = statuses(sts);
    lemma_run_prefix(site, secret, key, raw, rs, status, rest);
    let s0 = initial(site, secret, key);
    let s2 = CycleView {
        phase: Phase::AwaitRoot,
        ip: trimmed(raw),
        subdomains: subdomain_labels(rs),
        ..s0
    };
    let after = step_spec(s2, EventView::Status(status));
    let n = subdomain_labels(rs).len() as int;
    lemma_labels_len(rs);
    let acts = run(s0, cycle_events(raw, rs, status) + rest).1;
    if n > 0 {
        lemma_subdomain_run(after.0, 0, sts);
        assert forall|i: int| 0 <= i < n implies #[trigger] acts[i + 2]
            == subdomain_action(s2, i) by {
            if i > 0 {
                assert(acts[i + 2] == run(after.0, rest).1[i - 1]);
            }
        }
    } else {
        assert(rest =~= Seq::<EventView>::empty());
    }
}

} // verus!
