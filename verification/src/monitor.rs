//! The monitor engine: one fetch-check cycle per site. The caller fetches
//! page bodies; the engine composes extractor, noise filter, hash
//! comparison, differencer and snapshot store, mutates the site record in
//! place, and reports one event per check.

use vstd::prelude::*;

use crate::diffs::{compute_diff, diff_spec};
use crate::extract::{effective_selector, extract_content, extract_spec, fragments_of,
    selector_ok};
use crate::filter::{filter_noise, filter_spec};
use crate::hashing::{compute_hash, hash_of};
use crate::site::{SiteView, WatchedSite};
use crate::store::Storage;
use crate::text::{chars_vec, join_nl, lemma_lines_deep_view, lines_of, split_lines, str_eq};

use vstd::string::StringExecFns;

verus! {

/// The normalized content a page body yields under a selector: extracted
/// visible text with the noise filtered out; the unit hashed and diffed.
pub open spec fn normalized_of(body: Seq<char>, sel: Seq<char>) -> Seq<char> {
    filter_spec(extract_spec(fragments_of(body, sel)))
}

/// Message carried by the error event when a record's selector is not CSS.
pub open spec fn invalid_selector_msg() -> Seq<char> {
    "Invalid selector"@
}

/// The outcome of one check, at the ghost level.
pub enum CheckEvent {
    /// Content unchanged, or a first observation establishing the baseline.
    Unchanged,
    /// Content changed; the report text.
    Changed(Seq<char>),
    /// The fetch or the extraction failed; the message.
    Failed(Seq<char>),
}

/// The ghost image of one check: the record and the stored snapshots
/// afterwards, and the event reported.
pub struct CheckResult {
    pub site: SiteView,
    pub snaps: Map<Seq<char>, Seq<char>>,
    pub event: CheckEvent,
}

/// The view of a fetch outcome: the page body, or the failure message.
pub open spec fn fetch_view(fetched: Result<String, String>) -> Result<Seq<char>, Seq<char>> {
    match fetched {
        Ok(b) => Ok(b@),
        Err(e) => Err(e@),
    }
}

/// What one check does, as a function of the record, the stored
/// snapshots, the fetch outcome and the clock reading. A failure leaves
/// record and store untouched; a first observation stores the baseline
/// and reports no change; a hash match touches only `last_checked`; a
/// mismatch diffs against the prior snapshot before overwriting it.
pub open spec fn check_model(
    s: SiteView,
    snaps: Map<Seq<char>, Seq<char>>,
    fetched: Result<Seq<char>, Seq<char>>,
    now: int,
) -> CheckResult {
    match fetched {
        Result::Err(e) => CheckResult { site: s, snaps, event: CheckEvent::Failed(e) },
        Result::Ok(body) => {
            let sel = effective_selector(s.css_selector);
            if !selector_ok(sel) {
                CheckResult { site: s, snaps, event: CheckEvent::Failed(invalid_selector_msg()) }
            } else {
                let n = normalized_of(body, sel);
                let h = hash_of(n);
                match s.last_hash {
                    Option::None => CheckResult {
                        site: SiteView { last_hash: Some(h), last_checked: Some(now), ..s },
                        snaps: snaps.insert(s.id, n),
                        event: CheckEvent::Unchanged,
                    },
                    Option::Some(lh) => {
                        if lh == h {
                            CheckResult {
                                site: SiteView { last_checked: Some(now), ..s },
                                snaps,
                                event: CheckEvent::Unchanged,
                            }
                        } else {
                            let old_snap = if snaps.dom().contains(s.id) {
                                snaps[s.id]
                            } else {
                                Seq::empty()
                            };
                            CheckResult {
                                site: SiteView {
                                    last_hash: Some(h),
                                    last_checked: Some(now),
                                    last_change: Some(now),
                                    ..s
                                },
                                snaps: snaps.insert(s.id, n),
                                event: CheckEvent::Changed(diff_spec(old_snap, n)),
                            }
                        }
                    },
                }
            }
        },
    }
}

/// Why a check failed. Per-site errors become events; they never abort
/// the surrounding tick.
#[derive(Debug, Clone)]
pub enum CheckError {
    /// The fetch failed; the transport's message.
    Network(String),
    /// The record's selector does not parse as CSS.
    InvalidSelector,
}

impl CheckError {
    /// The message this error carries into an error event.
    pub open spec fn msg_view(&self) -> Seq<char> {
        match self {
            CheckError::Network(m) => m@,
            CheckError::InvalidSelector => invalid_selector_msg(),
        }
    }

    /// The human-readable message, for logs and events.
    pub fn message(&self) -> (r: String)
        ensures
            r@ == self.msg_view(),
    {
        match self {
            CheckError::Network(m) => m.clone(),
            CheckError::InvalidSelector => {
                let r = String::from_str("Invalid selector");
                r
            },
        }
    }
}

/// How a check's exec result corresponds to the model's event.
pub open spec fn event_matches(r: Result<Option<String>, CheckError>, e: CheckEvent) -> bool {
    match e {
        CheckEvent::Unchanged => r is Ok && r.unwrap() is None,
        CheckEvent::Changed(d) => r is Ok && r.unwrap() is Some && r.unwrap().unwrap()@ == d,
        CheckEvent::Failed(m) => r is Err && r.unwrap_err().msg_view() == m,
    }
}

/// The monitor engine. It owns the snapshot store; its view is the map of
/// stored snapshots by site id.
pub struct Monitor {
    storage: Storage,
}

impl View for Monitor {
    type V = Map<Seq<char>, Seq<char>>;

    closed spec fn view(&self) -> Map<Seq<char>, Seq<char>> {
        self.storage@
    }
}

impl Monitor {
    /// An engine with an empty snapshot store.
    pub fn new() -> (m: Monitor)
        ensures
            m@ == Map::<Seq<char>, Seq<char>>::empty(),
    {
        Monitor { storage: Storage::new() }
    }

    /// Seeds the store with a previously persisted snapshot, so that the
    /// next diff compares against what an earlier run saved.
    pub fn restore_snapshot(&mut self, site_id: &str, content: &str)
        ensures
            final(self)@ == old(self)@.insert(site_id@, content@),
    {
        self.storage.save_snapshot(site_id, content);
    }

    /// The stored snapshot for a site id, or the empty string if none.
    pub fn snapshot(&self, site_id: &str) -> (r: String)
        ensures
            r@ == if self@.dom().contains(site_id@) {
                self@[site_id@]
            } else {
                Seq::<char>::empty()
            },
    {
        self.storage.get_snapshot(site_id)
    }

    /// One fetch-check cycle for one site: extract under the record's
    /// selector, filter, hash, compare with the record's last hash, diff
    /// against the prior snapshot on a mismatch, store the new snapshot,
    /// and stamp the record. Returns `Ok(Some(report))` exactly when a
    /// change was detected, `Ok(None)` when not (a first check only
    /// establishes the baseline), and the error otherwise, leaving record
    /// and store untouched. Everything follows `check_model`.
    pub fn check_site(
        &mut self,
        site: &mut WatchedSite,
        fetched: &Result<String, String>,
        now: i64,
    ) -> (r: Result<Option<String>, CheckError>)
        ensures
            ({
                let m = check_model(old(site)@, old(self)@, fetch_view(*fetched), now as int);
                &&& final(site)@ == m.site
                &&& final(self)@ == m.snaps
                &&& event_matches(r, m.event)
            }),
            old(site)@.wf() && (old(site)@.last_change is Some ==> old(
                site,
            )@.last_change.unwrap() <= now as int) ==> final(site)@.wf(),
    {
        let body = match fetched {
            Ok(b) => b,
            Err(e) => {
                return Err(CheckError::Network(e.clone()));
            },
        };
        let sel_opt: Option<&str> = match &site.css_selector {
            Some(s) => Some(s.as_str()),
            None => None,
        };
        let extracted = match extract_content(body.as_str(), sel_opt) {
            Ok(t) => t,
            Err(_) => {
                return Err(CheckError::InvalidSelector);
            },
        };
        let normalized = filter_noise(extracted.as_str());
        let hash = compute_hash(normalized.as_str());
        let same: Option<bool> = match &site.last_hash {
            None => None,
            Some(lh) => Some(str_eq(lh.as_str(), hash.as_str())),
        };
        match same {
            None => {
                self.storage.save_snapshot(site.id.as_str(), normalized.as_str());
                site.last_hash = Some(hash);
                site.last_checked = Some(now);
                Ok(None)
            },
            Some(true) => {
                site.last_checked = Some(now);
                Ok(None)
            },
            Some(false) => {
                let old_snap = self.storage.get_snapshot(site.id.as_str());
                let report = compute_diff(old_snap.as_str(), normalized.as_str());
                self.storage.save_snapshot(site.id.as_str(), normalized.as_str());
                site.last_hash = Some(hash);
                site.last_checked = Some(now);
                site.last_change = Some(now);
                Ok(Some(report))
            },
        }
    }
}

/// A first check never reports a change: with no hash recorded, any
/// successfully fetched content only establishes the baseline snapshot
/// and hash, whatever the content is.
pub proof fn lemma_first_check_baseline(
    s: SiteView,
    snaps: Map<Seq<char>, Seq<char>>,
    body: Seq<char>,
    now: int,
)
    requires
        s.last_hash is None,
        selector_ok(effective_selector(s.css_selector)),
    ensures
        ({
            let m = check_model(s, snaps, Ok(body), now);
            let n = normalized_of(body, effective_selector(s.css_selector));
            &&& m.event is Unchanged
            &&& m.snaps == snaps.insert(s.id, n)
            &&& m.site.last_hash == Some(hash_of(n))
            &&& m.site.last_checked == Some(now)
        }),
{
}

/// Checking twice with byte-identical normalized content: the second
/// check reports no change and writes nothing to the store, whatever the
/// record held before the first.
pub proof fn lemma_stable_no_op(
    s: SiteView,
    snaps: Map<Seq<char>, Seq<char>>,
    b1: Seq<char>,
    b2: Seq<char>,
    t1: int,
    t2: int,
)
    requires
        selector_ok(effective_selector(s.css_selector)),
        normalized_of(b1, effective_selector(s.css_selector)) == normalized_of(
            b2,
            effective_selector(s.css_selector),
        ),
    ensures
        ({
            let m1 = check_model(s, snaps, Ok(b1), t1);
            let m2 = check_model(m1.site, m1.snaps, Ok(b2), t2);
            &&& m2.event is Unchanged
            &&& m2.snaps == m1.snaps
            &&& m2.site == SiteView { last_checked: Some(t2), ..m1.site }
        }),
{
}

/// One event per checked record, as the embedding loop consumes them.
#[derive(Debug, Clone)]
pub enum MonitorEvent {
    /// A check completed without a detected change.
    SiteChecked { site_id: String, changed: bool },
    /// A change was detected; the report text.
    SiteChanged { site_id: String, diff: String },
    /// The check failed; the message.
    Error { site_id: String, error: String },
}

/// The ghost image of an event.
pub enum EventView {
    Checked { site_id: Seq<char>, changed: bool },
    Changed { site_id: Seq<char>, diff: Seq<char> },
    Error { site_id: Seq<char>, error: Seq<char> },
}

impl View for MonitorEvent {
    type V = EventView;

    open spec fn view(&self) -> EventView {
        match self {
            MonitorEvent::SiteChecked { site_id, changed } => EventView::Checked {
                site_id: site_id@,
                changed: *changed,
            },
            MonitorEvent::SiteChanged { site_id, diff } => EventView::Changed {
                site_id: site_id@,
                diff: diff@,
            },
            MonitorEvent::Error { site_id, error } => EventView::Error {
                site_id: site_id@,
                error: error@,
            },
        }
    }
}

/// The event a check outcome yields for a record.
pub open spec fn event_of(e: CheckEvent, id: Seq<char>) -> EventView {
    match e {
        CheckEvent::Unchanged => EventView::Checked { site_id: id, changed: false },
        CheckEvent::Changed(d) => EventView::Changed { site_id: id, diff: d },
        CheckEvent::Failed(m) => EventView::Error { site_id: id, error: m },
    }
}

/// The ghost image of one tick across a batch of records.
pub struct TickResult {
    pub sites: Seq<SiteView>,
    pub snaps: Map<Seq<char>, Seq<char>>,
    pub events: Seq<EventView>,
}

/// What one tick does: each record checked in order against the store
/// state its predecessors left, one event per record.
pub open spec fn tick_model(
    sites: Seq<SiteView>,
    snaps: Map<Seq<char>, Seq<char>>,
    bodies: Seq<Result<Seq<char>, Seq<char>>>,
    now: int,
) -> TickResult
    decreases sites.len(),
{
    if sites.len() == 0 {
        TickResult { sites: Seq::empty(), snaps, events: Seq::empty() }
    } else {
        let first = check_model(sites[0], snaps, bodies[0], now);
        let rest = tick_model(sites.drop_first(), first.snaps, bodies.drop_first(), now);
        TickResult {
            sites: seq![first.site] + rest.sites,
            snaps: rest.snaps,
            events: seq![event_of(first.event, sites[0].id)] + rest.events,
        }
    }
}

/// The views of a batch of records.
pub open spec fn site_views(ss: Seq<WatchedSite>) -> Seq<SiteView> {
    ss.map_values(|s: WatchedSite| s@)
}

/// The views of a batch of fetch outcomes.
pub open spec fn fetch_views(bs: Seq<Result<String, String>>) -> Seq<
    Result<Seq<char>, Seq<char>>,
> {
    bs.map_values(|b: Result<String, String>| fetch_view(b))
}

/// The views of a batch of events.
pub open spec fn event_views(es: Seq<MonitorEvent>) -> Seq<EventView> {
    es.map_values(|e: MonitorEvent| e@)
}

/// The relation one tick establishes between the state before and after.
pub open spec fn tick_post(
    sites0: Seq<SiteView>,
    snaps0: Map<Seq<char>, Seq<char>>,
    bodies: Seq<Result<Seq<char>, Seq<char>>>,
    now: int,
    sites1: Seq<SiteView>,
    snaps1: Map<Seq<char>, Seq<char>>,
    events: Seq<EventView>,
) -> bool {
    let m = tick_model(sites0, snaps0, bodies, now);
    &&& sites1 == m.sites
    &&& snaps1 == m.snaps
    &&& events == m.events
}

impl Monitor {
    /// One scheduler tick over a batch: checks every record in order,
    /// with per-site failure isolation. A failed fetch yields an error
    /// event for that record and leaves it and the store untouched, and
    /// every remaining record is still checked; one event comes back per
    /// record, in order.
    pub fn run_tick(
        &mut self,
        sites: &mut Vec<WatchedSite>,
        bodies: &Vec<Result<String, String>>,
        now: i64,
    ) -> (events: Vec<MonitorEvent>)
        requires
            old(sites)@.len() == bodies@.len(),
        ensures
            events@.len() == old(sites)@.len(),
            final(sites)@.len() == old(sites)@.len(),
            tick_post(
                site_views(old(sites)@),
                old(self)@,
                fetch_views(bodies@),
                now as int,
                site_views(final(sites)@),
                final(self)@,
                event_views(events@),
            ),
    {
        let ghost whole: TickResult = tick_model(
            site_views(old(sites)@),
            old(self)@,
            fetch_views(bodies@),
            now as int,
        );
        let n: usize = sites.len();
        let mut events: Vec<MonitorEvent> = Vec::new();
        let mut i: usize = 0;
        proof {
            lemma_tick_model_len(
                site_views(old(sites)@),
                old(self)@,
                fetch_views(bodies@),
                now as int,
            );
            assert(sites@.skip(0) =~= sites@);
            assert(site_views(sites@.take(0)) =~= whole.sites.take(0));
            assert(event_views(events@) =~= whole.events.take(0));
            assert(site_views(sites@.skip(0)) =~= site_views(old(sites)@));
            assert(fetch_views(bodies@.skip(0)) =~= fetch_views(bodies@));
            assert(whole.sites.skip(0) =~= whole.sites);
            assert(whole.events.skip(0) =~= whole.events);
        }
        while i < n
            invariant
                n == sites@.len(),
                n == bodies@.len(),
                n == old(sites)@.len(),
                i <= n,
                whole == tick_model(
                    site_views(old(sites)@),
                    old(self)@,
                    fetch_views(bodies@),
                    now as int,
                ),
                whole.sites.len() == n,
                whole.events.len() == n,
                events@.len() == i,
                sites@.skip(i as int) == old(sites)@.skip(i as int),
                site_views(sites@.take(i as int)) == whole.sites.take(i as int),
                event_views(events@) == whole.events.take(i as int),
                tick_model(
                    site_views(sites@.skip(i as int)),
                    self@,
                    fetch_views(bodies@.skip(i as int)),
                    now as int,
                ) == (TickResult {
                    sites: whole.sites.skip(i as int),
                    snaps: whole.snaps,
                    events: whole.events.skip(i as int),
                }),
            decreases n - i,
        {
            let ghost pre_sites: Seq<WatchedSite> = sites@;
            let ghost pre_snaps: Map<Seq<char>, Seq<char>> = self@;
            let ghost sv: Seq<SiteView> = site_views(pre_sites.skip(i as int));
            let ghost fv: Seq<Result<Seq<char>, Seq<char>>> = fetch_views(
                bodies@.skip(i as int),
            );
            let ghost first: CheckResult = check_model(sv[0], pre_snaps, fv[0], now as int);
            proof {
                lemma_tick_model_len(
                    site_views(old(sites)@),
                    old(self)@,
                    fetch_views(bodies@),
                    now as int,
                );
                assert(sv.len() == n - i);
                assert(sv[0] == pre_sites[i as int]@);
                assert(fv[0] == fetch_view(bodies@[i as int]));
                assert(sv.drop_first() =~= site_views(pre_sites.skip(i as int + 1)));
                assert(fv.drop_first() =~= fetch_views(bodies@.skip(i as int + 1)));
            }
            let mut s = sites.remove(i);
            let r = self.check_site(&mut s, &bodies[i], now);
            let ev = match r {
                Ok(None) => MonitorEvent::SiteChecked { site_id: s.id.clone(), changed: false },
                Ok(Some(d)) => MonitorEvent::SiteChanged { site_id: s.id.clone(), diff: d },
                Err(e) => MonitorEvent::Error { site_id: s.id.clone(), error: e.message() },
            };
            proof {
                assert(s@ == first.site);
                assert(self@ == first.snaps);
                assert(s@.id == pre_sites[i as int]@.id);
                assert(ev@ == event_of(first.event, pre_sites[i as int]@.id));
            }
            let ghost pre_events: Seq<MonitorEvent> = events@;
            events.push(ev);
            sites.insert(i, s);
            proof {
                assert(sites@ =~= pre_sites.update(i as int, s));
            }
            i += 1;
            proof {
                let ghost rest: TickResult = tick_model(
                    site_views(pre_sites.skip(i as int)),
                    first.snaps,
                    fetch_views(bodies@.skip(i as int)),
                    now as int,
                );
                assert(whole.sites.skip(i - 1) =~= seq![first.site] + rest.sites);
                assert(whole.events.skip(i - 1) =~= seq![event_of(
                    first.event,
                    pre_sites[i - 1]@.id,
                )] + rest.events);
                assert(whole.snaps == rest.snaps);
                assert((seq![first.site] + rest.sites).drop_first() =~= rest.sites);
                lemma_skip_succ(whole.sites, i - 1);
                assert(whole.sites.skip(i - 1).drop_first() =~= whole.sites.skip(i as int));
                assert(whole.sites.skip(i as int) == rest.sites);
                assert((seq![event_of(first.event, pre_sites[i - 1]@.id)]
                    + rest.events).drop_first() =~= rest.events);
                lemma_skip_succ(whole.events, i - 1);
                assert(whole.events.skip(i - 1).drop_first() =~= whole.events.skip(i as int));
                assert(whole.events.skip(i as int) == rest.events);
                assert(whole.sites[i - 1] == whole.sites.skip(i - 1)[0]);
                assert(whole.sites[i - 1] == first.site);
                assert(whole.events[i - 1] == whole.events.skip(i - 1)[0]);
                assert(whole.events[i - 1] == event_of(first.event, pre_sites[i - 1]@.id));
                assert(sites@.skip(i as int) =~= pre_sites.skip(i as int));
                lemma_skip_succ(pre_sites, i - 1);
                lemma_skip_succ(old(sites)@, i - 1);
                assert(pre_sites.skip(i - 1).drop_first() == old(sites)@.skip(i - 1).drop_first());
                assert(sites@.skip(i as int) =~= old(sites)@.skip(i as int));
                assert(site_views(sites@.skip(i as int)) =~= site_views(
                    pre_sites.skip(i as int),
                ));
                assert(site_views(sites@.take(i as int)) =~= whole.sites.take(i as int));
                assert(event_views(events@) =~= whole.events.take(i as int));
            }
        }
        proof {
            assert(sites@.take(n as int) =~= sites@);
            assert(whole.sites.take(n as int) =~= whole.sites);
            assert(whole.events.take(n as int) =~= whole.events);
            assert(site_views(sites@.skip(n as int)) =~= Seq::<SiteView>::empty());
            assert(event_views(events@) =~= whole.events);
        }
        events
    }
}

/// Dropping the head of a suffix moves the suffix one step right.
proof fn lemma_skip_succ<A>(s: Seq<A>, k: int)
    requires
        0 <= k < s.len(),
    ensures
        s.skip(k).drop_first() == s.skip(k + 1),
{
    assert forall|m: int|
        0 <= m < s.skip(k).drop_first().len() implies s.skip(k).drop_first()[m] == s.skip(
        k + 1,
    )[m] by {
        assert(s.skip(k).drop_first()[m] == s.skip(k)[m + 1]);
        assert(s.skip(k)[m + 1] == s[k + 1 + m]);
        assert(s.skip(k + 1)[m] == s[k + 1 + m]);
    }
    assert(s.skip(k).drop_first() =~= s.skip(k + 1));
}

/// A tick yields exactly one updated record and one event per record.
pub proof fn lemma_tick_model_len(
    sites: Seq<SiteView>,
    snaps: Map<Seq<char>, Seq<char>>,
    bodies: Seq<Result<Seq<char>, Seq<char>>>,
    now: int,
)
    ensures
        tick_model(sites, snaps, bodies, now).sites.len() == sites.len(),
        tick_model(sites, snaps, bodies, now).events.len() == sites.len(),
    decreases sites.len(),
{
    if sites.len() > 0 {
        let first = check_model(sites[0], snaps, bodies[0], now);
        lemma_tick_model_len(sites.drop_first(), first.snaps, bodies.drop_first(), now);
    }
}

/// Failure isolation: a failed fetch for one record leaves the store and
/// that record untouched and yields an error event for it, and every
/// other record's outcome is exactly what a tick without that record
/// would have produced.
pub proof fn lemma_tick_isolation(
    sites: Seq<SiteView>,
    snaps: Map<Seq<char>, Seq<char>>,
    bodies: Seq<Result<Seq<char>, Seq<char>>>,
    now: int,
    j: int,
)
    requires
        bodies.len() == sites.len(),
        0 <= j < sites.len(),
        bodies[j] is Err,
    ensures
        ({
            let whole = tick_model(sites, snaps, bodies, now);
            let without = tick_model(sites.remove(j), snaps, bodies.remove(j), now);
            &&& whole.sites[j] == sites[j]
            &&& whole.events[j] is Error
            &&& whole.sites.remove(j) == without.sites
            &&& whole.snaps == without.snaps
            &&& whole.events.remove(j) == without.events
        }),
    decreases sites.len(),
{
    let whole = tick_model(sites, snaps, bodies, now);
    let without = tick_model(sites.remove(j), snaps, bodies.remove(j), now);
    let first = check_model(sites[0], snaps, bodies[0], now);
    if j == 0 {
        assert(first.site == sites[0] && first.snaps == snaps && first.event is Failed);
        assert(sites.remove(0) =~= sites.drop_first());
        assert(bodies.remove(0) =~= bodies.drop_first());
        let rest = tick_model(sites.drop_first(), snaps, bodies.drop_first(), now);
        assert(whole.sites == seq![sites[0]] + rest.sites);
        assert(whole.sites[0] == sites[0]);
        assert(whole.events[0] == event_of(first.event, sites[0].id));
        assert(whole.sites.remove(0) =~= rest.sites);
        assert(whole.events.remove(0) =~= rest.events);
    } else {
        let rest = tick_model(sites.drop_first(), first.snaps, bodies.drop_first(), now);
        assert(whole.sites == seq![first.site] + rest.sites);
        assert(whole.events == seq![event_of(first.event, sites[0].id)] + rest.events);
        assert(whole.snaps == rest.snaps);
        lemma_tick_model_len(sites.drop_first(), first.snaps, bodies.drop_first(), now);
        lemma_tick_model_len(
            sites.drop_first().remove(j - 1),
            first.snaps,
            bodies.drop_first().remove(j - 1),
            now,
        );
        assert(sites.drop_first().len() == sites.len() - 1);
        assert(bodies.drop_first().len() == bodies.len() - 1);
        assert(sites.drop_first()[j - 1] == sites[j]);
        assert(bodies.drop_first()[j - 1] == bodies[j]);
        lemma_tick_isolation(sites.drop_first(), first.snaps, bodies.drop_first(), now, j - 1);
        let rest_without = tick_model(
            sites.drop_first().remove(j - 1),
            first.snaps,
            bodies.drop_first().remove(j - 1),
            now,
        );
        assert(sites.remove(j).drop_first() =~= sites.drop_first().remove(j - 1));
        assert(bodies.remove(j).drop_first() =~= bodies.drop_first().remove(j - 1));
        assert(sites.remove(j)[0] == sites[0]);
        assert(bodies.remove(j)[0] == bodies[0]);
        assert(without.sites == seq![first.site] + rest_without.sites);
        assert(without.events == seq![event_of(first.event, sites[0].id)] + rest_without.events);
        assert(whole.sites[j] == rest.sites[j - 1]);
        assert(whole.events[j] == rest.events[j - 1]);
        assert(whole.sites.remove(j) =~= seq![first.site] + rest.sites.remove(j - 1));
        assert(whole.events.remove(j) =~= seq![event_of(first.event, sites[0].id)]
            + rest.events.remove(j - 1));
    }
}

/// What chrono renders for a Unix timestamp under the fixed UTC format
/// `%Y-%m-%d %H:%M:%S UTC`: a function of the timestamp alone.
pub uninterp spec fn utc_display_of(ts: i64) -> Seq<char>;

/// Relies on chrono's `DateTime::from_timestamp` and UTC formatting: the
/// rendering depends on the timestamp alone; a timestamp outside chrono's
/// range renders as the empty string.
#[verifier::external_body]
fn format_utc(ts: i64) -> (r: String)
    ensures
        r@ == utc_display_of(ts),
{
    match chrono::DateTime::from_timestamp(ts, 0) {
        Some(t) => t.format("%Y-%m-%d %H:%M:%S UTC").to_string(),
        None => String::new(),
    }
}

/// Relies on chrono's `Utc::now`; nothing is promised of the clock's
/// reading.
#[verifier::external_body]
fn now_unix() -> (r: i64) {
    chrono::Utc::now().timestamp()
}

/// The first twenty lines of a report, with a truncation marker when more
/// follow: the lossy summary handed to the notification transport.
pub open spec fn truncated_diff(d: Seq<char>) -> Seq<char> {
    let ls = lines_of(d);
    if ls.len() <= 20 {
        join_nl(ls)
    } else {
        join_nl(ls.take(20)) + "\n\n<i>... (truncated)</i>"@
    }
}

/// The message body sent for a detected change: site name, URL, the
/// check's UTC timestamp, and the truncated report.
pub open spec fn notification_text(
    name: Seq<char>,
    url: Seq<char>,
    time_str: Seq<char>,
    diff: Seq<char>,
) -> Seq<char> {
    "\u{1f504} <b>Change detected!</b>\n\n<b>Site:</b> "@ + name + "\n<b>URL:</b> "@ + url
        + "\n<b>Time:</b> "@ + time_str + "\n\n<b>Changes:</b>\n"@ + truncated_diff(diff)
}

/// Truncates a report to its first twenty lines for the transport,
/// marking the cut when lines were dropped.
pub fn format_diff_for_telegram(diff: &str) -> (r: String)
    ensures
        r@ == truncated_diff(diff@),
{
    let cv = chars_vec(diff);
    let mut ls = split_lines(&cv);
    if ls.len() <= 20 {
        crate::filter::join_lines(&ls)
    } else {
        let ghost full: Seq<Seq<char>> = ls.deep_view();
        ls.truncate(20);
        proof {
            lemma_lines_deep_view(&ls);
            assert(ls.deep_view() =~= full.take(20));
        }
        let mut out = crate::filter::join_lines(&ls);
        out.append("\n\n<i>... (truncated)</i>");
        out
    }
}

/// Formats the notification for one detected change, stamping the given
/// check time.
pub fn format_notification(name: &str, url: &str, ts: i64, diff: &str) -> (r: String)
    ensures
        r@ == notification_text(name@, url@, utc_display_of(ts), diff@),
{
    let mut out = String::from_str("\u{1f504} <b>Change detected!</b>\n\n<b>Site:</b> ");
    out.append(name);
    out.append("\n<b>URL:</b> ");
    out.append(url);
    out.append("\n<b>Time:</b> ");
    let t = format_utc(ts);
    out.append(t.as_str());
    out.append("\n\n<b>Changes:</b>\n");
    let d = format_diff_for_telegram(diff);
    out.append(d.as_str());
    proof {
        assert(out@ =~= notification_text(name@, url@, utc_display_of(ts), diff@));
    }
    out
}

impl Monitor {
    /// One tick stamped with the clock's current reading: the same batch
    /// semantics as `run_tick`, at whatever instant the clock reported.
    pub fn run_tick_now(
        &mut self,
        sites: &mut Vec<WatchedSite>,
        bodies: &Vec<Result<String, String>>,
    ) -> (events: Vec<MonitorEvent>)
        requires
            old(sites)@.len() == bodies@.len(),
        ensures
            events@.len() == old(sites)@.len(),
            exists|t: int|
                #[trigger] tick_post(
                    site_views(old(sites)@),
                    old(self)@,
                    fetch_views(bodies@),
                    t,
                    site_views(final(sites)@),
                    final(self)@,
                    event_views(events@),
                ),
    {
        let now = now_unix();
        let events = self.run_tick(sites, bodies, now);
        proof {
            assert(tick_post(
                site_views(old(sites)@),
                old(self)@,
                fetch_views(bodies@),
                now as int,
                site_views(sites@),
                self@,
                event_views(events@),
            ));
        }
        events
    }
}

} // verus!
