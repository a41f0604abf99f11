use vstd::prelude::*;
use vstd::set_lib::lemma_len_subset;
use vstd::string::StringSliceAdditionalSpecFns;

use crate::database::{
    find_probe, probe_named, probe_wf, Service, ServiceDatabase, ServiceProbe,
};
use crate::evaluate::{evaluate_rules, matches_of, spec_select};
use crate::port::Protocol;
use crate::search::{first_index, lemma_first_index};
use crate::selector::{lemma_top_probes_in_range, spec_top_probes, top_probes};
use crate::text::bytes_equal;

verus! {

/// What keeps a probe from running twice in one detection: its name and
/// transport.
#[derive(Debug, Copy, Clone)]
pub struct ProbeKey {
    pub probename: &'static str,
    pub protocol: Protocol,
}

/// The key of a probe, as values.
pub open spec fn key_of(p: ServiceProbe) -> (Seq<u8>, Protocol) {
    (p.probename.spec_bytes(), p.protocol)
}

/// What came of running a probe: no connection could be set up, sending or
/// receiving failed, or the peer answered with these bytes (perhaps none).
#[derive(Debug)]
pub enum ProbeOutcome {
    Unreachable,
    SendFailed,
    ReceiveFailed,
    Received(Vec<u8>),
}

/// What the detection asks for next: run the probe at this position of the
/// database (connect, send its payload if it has one, read once), or stop with
/// a classification or none.
#[derive(Debug, Copy, Clone, PartialEq, Eq, Structural)]
pub enum Action {
    Probe(usize),
    Finished(Option<Service>),
}

/// The state of one detection against one port.
#[derive(Debug)]
pub struct Detection {
    /// The port of the target.
    pub port: u16,
    /// The probes to try, by position in the database: the most likely ones
    /// first, then every probe in database order.
    pub plan: Vec<usize>,
    /// How much of the plan has been taken.
    pub next: usize,
    /// The keys of the probes taken so far, fallbacks included; a UDP probe
    /// is taken without being run.
    pub tried: Vec<ProbeKey>,
    /// The probe whose outcome is awaited.
    pub current: Option<usize>,
}

/// A detection as values.
pub struct DetectionView {
    pub port: u16,
    pub plan: Seq<usize>,
    pub next: int,
    pub tried: Seq<(Seq<u8>, Protocol)>,
    pub current: Option<usize>,
}

pub open spec fn key_view(k: ProbeKey) -> (Seq<u8>, Protocol) {
    (k.probename.spec_bytes(), k.protocol)
}

impl View for Detection {
    type V = DetectionView;

    open spec fn view(&self) -> DetectionView {
        DetectionView {
            port: self.port,
            plan: self.plan@,
            next: self.next as int,
            tried: self.tried@.map_values(|k: ProbeKey| key_view(k)),
            current: self.current,
        }
    }
}

/// `key` is the key of a probe of `probes`.
pub open spec fn is_probe_key(probes: Seq<ServiceProbe>, key: (Seq<u8>, Protocol)) -> bool {
    exists|j: int| 0 <= j < probes.len() && key_of(#[trigger] probes[j]) == key
}

impl DetectionView {
    /// The state refers to probes of `probes` only, and no key is tried twice.
    pub open spec fn wf(&self, probes: Seq<ServiceProbe>) -> bool {
        &&& 0 <= self.next <= self.plan.len()
        &&& forall|k: int| 0 <= k < self.plan.len() ==> (#[trigger] self.plan[k]) < probes.len()
        &&& self.current matches Some(i) ==> i < probes.len()
        &&& self.tried.no_duplicates()
        &&& forall|k: int| 0 <= k < self.tried.len() ==> is_probe_key(probes, #[trigger] self.tried[k])
    }
}

/// The position of the probe that `p` falls back to.
pub open spec fn fallback_index(probes: Seq<ServiceProbe>, p: ServiceProbe) -> Option<int> {
    match p.fallback {
        Some(n) => first_index(probes, probe_named(n.spec_bytes())),
        None => None,
    }
}

/// Taking the next probe of the plan. A probe whose key was tried is passed
/// over; any other is marked tried, and is run if it is a TCP probe, while a
/// UDP probe yields nothing and the plan goes on. At the end of the plan the
/// detection finishes without a classification.
pub open spec fn spec_advance(probes: Seq<ServiceProbe>, v: DetectionView) -> (DetectionView, Action)
    decreases v.plan.len() - v.next,
{
    if v.next < 0 || v.next >= v.plan.len() {
        (DetectionView { current: None, ..v }, Action::Finished(None))
    } else {
        let i = v.plan[v.next];
        let key = key_of(probes[i as int]);
        if v.tried.contains(key) {
            spec_advance(probes, DetectionView { next: v.next + 1, ..v })
        } else if probes[i as int].protocol == Protocol::Tcp {
            (
                DetectionView { next: v.next + 1, tried: v.tried.push(key), current: Some(i), ..v },
                Action::Probe(i),
            )
        } else {
            spec_advance(probes, DetectionView { next: v.next + 1, tried: v.tried.push(key), ..v })
        }
    }
}

/// Falling back after the probe `i` got no usable response: its fallback
/// probe is run in its place, unless there is none, its key was tried, or it
/// is not a TCP probe (then marked tried); in those cases the plan goes on.
pub open spec fn spec_fall_back(probes: Seq<ServiceProbe>, v: DetectionView, i: usize) -> (DetectionView, Action) {
    match fallback_index(probes, probes[i as int]) {
        None => spec_advance(probes, v),
        Some(f) => {
            let key = key_of(probes[f]);
            if v.tried.contains(key) {
                spec_advance(probes, v)
            } else if probes[f].protocol == Protocol::Tcp {
                (
                    DetectionView { tried: v.tried.push(key), current: Some(f as usize), ..v },
                    Action::Probe(f as usize),
                )
            } else {
                spec_advance(probes, DetectionView { tried: v.tried.push(key), ..v })
            }
        },
    }
}

/// The step that the outcome of the running probe leads to. A probe that
/// could not connect gives up without its fallback. A failed send or receive,
/// or an empty response, falls back. A response is classified by the probe's
/// rules; a classification finishes the detection, none goes on with the plan.
pub open spec fn spec_on_outcome(
    db: ServiceDatabase,
    v: DetectionView,
    outcome: ProbeOutcome,
) -> (DetectionView, Action) {
    let probes = db.probes@;
    match v.current {
        None => spec_advance(probes, v),
        Some(i) => {
            let w = DetectionView { current: None, ..v };
            match outcome {
                ProbeOutcome::Unreachable => spec_advance(probes, w),
                ProbeOutcome::SendFailed => spec_fall_back(probes, w, i),
                ProbeOutcome::ReceiveFailed => spec_fall_back(probes, w, i),
                ProbeOutcome::Received(bytes) => if bytes@.len() == 0 {
                    spec_fall_back(probes, w, i)
                } else {
                    let p = probes[i as int];
                    match spec_select(db.names@, p.rules@, matches_of(p.rules@, bytes@), p.protocol, v.port) {
                        Some(s) => (w, Action::Finished(Some(s))),
                        None => spec_advance(probes, w),
                    }
                },
            }
        },
    }
}

/// The plan for a port: the probes most likely to succeed, then every probe
/// of the database in order.
pub open spec fn spec_plan(db: ServiceDatabase, port: u16) -> Seq<usize> {
    spec_top_probes(db, port) + Seq::new(db.probes@.len(), |i: int| i as usize)
}

proof fn lemma_push_key(probes: Seq<ServiceProbe>, tried: Seq<(Seq<u8>, Protocol)>, i: int)
    requires
        tried.no_duplicates(),
        forall|k: int| 0 <= k < tried.len() ==> is_probe_key(probes, #[trigger] tried[k]),
        0 <= i < probes.len(),
        !tried.contains(key_of(probes[i])),
    ensures
        tried.push(key_of(probes[i])).no_duplicates(),
        forall|k: int|
            0 <= k < tried.len() + 1 ==> is_probe_key(probes, #[trigger] tried.push(key_of(probes[i]))[k]),
{
    let t = tried.push(key_of(probes[i]));
    assert forall|a: int, b: int| 0 <= a < t.len() && 0 <= b < t.len() && a != b implies t[a] != t[b] by {
        if a == tried.len() {
            assert(t[b] == tried[b]);
        } else if b == tried.len() {
            assert(t[a] == tried[a]);
        } else {
            assert(t[a] == tried[a] && t[b] == tried[b]);
        }
    }
    assert forall|k: int| 0 <= k < t.len() implies is_probe_key(probes, #[trigger] t[k]) by {
        if k == tried.len() {
            assert(key_of(probes[i]) == t[k]);
        } else {
            assert(t[k] == tried[k]);
        }
    }
}

impl Detection {
    /// A detection against `port`, before any probe has run.
    pub fn new(db: &ServiceDatabase, port: u16) -> (r: Detection)
        requires
            db.wf(),
        ensures
            r@ == (DetectionView {
                port,
                plan: spec_plan(*db, port),
                next: 0,
                tried: seq![],
                current: None,
            }),
            r@.wf(db.probes@),
    {
        let mut plan = top_probes(db, port);
        let ghost top = plan@;
        let mut i: usize = 0;
        while i < db.probes.len()
            invariant
                0 <= i <= db.probes@.len(),
                top == spec_top_probes(*db, port),
                plan@ == top + Seq::new(i as nat, |k: int| k as usize),
                forall|k: int| 0 <= k < plan@.len() ==> (#[trigger] plan@[k]) < db.probes@.len(),
            decreases db.probes@.len() - i,
        {
            plan.push(i);
            i = i + 1;
            assert(plan@ =~= top + Seq::new(i as nat, |k: int| k as usize));
        }
        let r = Detection { port, plan, next: 0, tried: Vec::new(), current: None };
        assert(r@.tried =~= seq![]);
        r
    }

    /// Whether a probe with the key of `probe` has run.
    fn has_tried(&self, probe: &ServiceProbe) -> (r: bool)
        ensures
            r == self@.tried.contains(key_of(*probe)),
    {
        let ghost key = key_of(*probe);
        let mut k: usize = 0;
        while k < self.tried.len()
            invariant
                0 <= k <= self.tried@.len(),
                key == key_of(*probe),
                forall|m: int| 0 <= m < k ==> self@.tried[m] != key,
            decreases self.tried@.len() - k,
        {
            let t = self.tried[k];
            if bytes_equal(t.probename.as_bytes(), probe.probename.as_bytes()) && t.protocol == probe.protocol {
                assert(self@.tried[k as int] == key);
                return true;
            }
            k = k + 1;
        }
        false
    }

    /// Forgets the running probe.
    fn clear_current(&mut self, probes: Ghost<Seq<ServiceProbe>>)
        requires
            old(self)@.wf(probes@),
        ensures
            final(self)@ == (DetectionView { current: None, ..old(self)@ }),
            final(self)@.wf(probes@),
    {
        self.current = None;
        assert(self@.tried =~= old(self)@.tried);
        assert(self@ == (DetectionView { current: None, ..old(self)@ }));
    }

    /// Marks the key of `probe` as tried.
    fn mark_tried(&mut self, probe: &ServiceProbe)
        ensures
            final(self)@ == (DetectionView { tried: old(self)@.tried.push(key_of(*probe)), ..old(self)@ }),
    {
        self.tried.push(ProbeKey { probename: probe.probename, protocol: probe.protocol });
        assert(self@.tried =~= old(self)@.tried.push(key_of(*probe)));
    }

    /// Takes the next probe of the plan.
    fn advance(&mut self, db: &ServiceDatabase) -> (r: Action)
        requires
            old(self)@.wf(db.probes@),
        ensures
            final(self)@.wf(db.probes@),
            (final(self)@, r) == spec_advance(db.probes@, old(self)@),
    {
        loop
            invariant
                self@.wf(db.probes@),
                spec_advance(db.probes@, self@) == spec_advance(db.probes@, old(self)@),
            decreases self@.plan.len() - self@.next,
        {
            if self.next >= self.plan.len() {
                self.clear_current(Ghost(db.probes@));
                return Action::Finished(None);
            }
            let i = self.plan[self.next];
            let probe = db.probes[i];
            self.next = self.next + 1;
            if !self.has_tried(&probe) {
                proof {
                    lemma_push_key(db.probes@, self@.tried, i as int);
                }
                self.mark_tried(&probe);
                match probe.protocol {
                    Protocol::Tcp => {
                        self.current = Some(i);
                        return Action::Probe(i);
                    },
                    _ => {},
                }
            }
        }
    }

    /// Starts the detection: the first probe to run, or the end.
    pub fn start(&mut self, db: &ServiceDatabase) -> (r: Action)
        requires
            old(self)@.wf(db.probes@),
        ensures
            final(self)@.wf(db.probes@),
            (final(self)@, r) == spec_advance(db.probes@, old(self)@),
    {
        self.advance(db)
    }

    /// Falls back from the probe `i`.
    fn fall_back(&mut self, db: &ServiceDatabase, i: usize) -> (r: Action)
        requires
            old(self)@.wf(db.probes@),
            i < db.probes@.len(),
        ensures
            final(self)@.wf(db.probes@),
            (final(self)@, r) == spec_fall_back(db.probes@, old(self)@, i),
    {
        let probe = db.probes[i];
        match probe.fallback {
            None => self.advance(db),
            Some(n) => match find_probe(db.probes, n) {
                None => self.advance(db),
                Some(f) => {
                    let fallback = db.probes[f];
                    if self.has_tried(&fallback) {
                        self.advance(db)
                    } else {
                        proof {
                            lemma_push_key(db.probes@, self@.tried, f as int);
                        }
                        self.mark_tried(&fallback);
                        match fallback.protocol {
                            Protocol::Tcp => {
                                self.current = Some(f);
                                Action::Probe(f)
                            },
                            _ => self.advance(db),
                        }
                    }
                },
            },
        }
    }

    /// The step after the running probe had `outcome`.
    pub fn on_outcome(&mut self, db: &ServiceDatabase, outcome: ProbeOutcome) -> (r: Action)
        requires
            db.wf(),
            old(self)@.wf(db.probes@),
        ensures
            final(self)@.wf(db.probes@),
            (final(self)@, r) == spec_on_outcome(*db, old(self)@, outcome),
    {
        match self.current {
            None => self.advance(db),
            Some(i) => {
                self.clear_current(Ghost(db.probes@));
                match outcome {
                    ProbeOutcome::Unreachable => self.advance(db),
                    ProbeOutcome::SendFailed => self.fall_back(db, i),
                    ProbeOutcome::ReceiveFailed => self.fall_back(db, i),
                    ProbeOutcome::Received(bytes) => {
                        if bytes.len() == 0 {
                            self.fall_back(db, i)
                        } else {
                            let probe = db.probes[i];
                            assert(probe_wf(db.names@.len() as int, db.probes@, probe));
                            match evaluate_rules(db, probe.rules, probe.protocol, self.port, bytes.as_slice()) {
                                Some(s) => Action::Finished(Some(s)),
                                None => self.advance(db),
                            }
                        }
                    },
                }
            },
        }
    }
}

/// A detection never holds more tried keys than the database has probes.
pub proof fn lemma_tried_bounded(probes: Seq<ServiceProbe>, v: DetectionView)
    requires
        v.wf(probes),
    ensures
        v.tried.len() <= probes.len(),
{
    let keys = probes.map_values(|p: ServiceProbe| key_of(p));
    assert forall|x: (Seq<u8>, Protocol)| v.tried.to_set().contains(x) implies keys.to_set().contains(x) by {
        let k = choose|k: int| 0 <= k < v.tried.len() && v.tried[k] == x;
        assert(is_probe_key(probes, v.tried[k]));
        let j = choose|j: int| 0 <= j < probes.len() && key_of(probes[j]) == x;
        assert(keys[j] == x);
    }
    v.tried.unique_seq_to_set();
    keys.lemma_cardinality_of_set();
    lemma_len_subset(v.tried.to_set(), keys.to_set());
}

/// Every probe that a step asks to run has a key that was not tried before,
/// and the step marks it tried: the tried keys only grow, by one with each
/// probe run. With `lemma_tried_bounded` this bounds the probes of one
/// detection by the probes of the database, even where fallbacks form a
/// cycle.
pub proof fn lemma_runs_are_fresh(db: ServiceDatabase, v: DetectionView, outcome: ProbeOutcome)
    requires
        v.wf(db.probes@),
    ensures
        ({
            let (w, a) = spec_on_outcome(db, v, outcome);
            &&& v.tried.is_prefix_of(w.tried)
            &&& a matches Action::Probe(i) ==> {
                &&& !v.tried.contains(key_of(db.probes@[i as int]))
                &&& w.tried.contains(key_of(db.probes@[i as int]))
                &&& v.tried.len() < w.tried.len()
            }
        }),
{
    let probes = db.probes@;
    assert(probes.len() == db.probes.len());
    let w0 = DetectionView { current: None, ..v };
    lemma_advance_fresh(probes, v);
    lemma_advance_fresh(probes, w0);
    match v.current {
        Some(i) => {
            lemma_fall_back_fresh(probes, w0, i);
        },
        None => {},
    }
}

proof fn lemma_advance_fresh(probes: Seq<ServiceProbe>, v: DetectionView)
    ensures
        ({
            let (w, a) = spec_advance(probes, v);
            &&& v.tried.is_prefix_of(w.tried)
            &&& a matches Action::Probe(i) ==> {
                &&& !v.tried.contains(key_of(probes[i as int]))
                &&& w.tried.contains(key_of(probes[i as int]))
                &&& v.tried.len() < w.tried.len()
            }
        }),
    decreases v.plan.len() - v.next,
{
    if 0 <= v.next < v.plan.len() {
        let i = v.plan[v.next];
        let key = key_of(probes[i as int]);
        if v.tried.contains(key) {
            lemma_advance_fresh(probes, DetectionView { next: v.next + 1, ..v });
        } else if probes[i as int].protocol == Protocol::Tcp {
            assert(v.tried.push(key)[v.tried.len() as int] == key);
        } else {
            let u = DetectionView { next: v.next + 1, tried: v.tried.push(key), ..v };
            lemma_advance_fresh(probes, u);
            let (w, a) = spec_advance(probes, u);
            if let Action::Probe(j) = a {
                let kj = key_of(probes[j as int]);
                if v.tried.contains(kj) {
                    let m = choose|m: int| 0 <= m < v.tried.len() && v.tried[m] == kj;
                    assert(u.tried[m] == kj);
                }
            }
        }
    }
}

proof fn lemma_fall_back_fresh(probes: Seq<ServiceProbe>, v: DetectionView, i: usize)
    requires
        i < probes.len() <= usize::MAX,
    ensures
        ({
            let (w, a) = spec_fall_back(probes, v, i);
            &&& v.tried.is_prefix_of(w.tried)
            &&& a matches Action::Probe(j) ==> {
                &&& !v.tried.contains(key_of(probes[j as int]))
                &&& w.tried.contains(key_of(probes[j as int]))
                &&& v.tried.len() < w.tried.len()
            }
        }),
{
    lemma_advance_fresh(probes, v);
    if let Some(n) = probes[i as int].fallback {
        lemma_first_index(probes, probe_named(n.spec_bytes()));
    }
    match fallback_index(probes, probes[i as int]) {
        None => {},
        Some(f) => {
            let key = key_of(probes[f]);
            if !v.tried.contains(key) {
                let u = DetectionView { tried: v.tried.push(key), ..v };
                assert(u.tried[v.tried.len() as int] == key);
                lemma_advance_fresh(probes, u);
                let (w, a) = spec_advance(probes, u);
                if let Action::Probe(j) = a {
                    let kj = key_of(probes[j as int]);
                    if v.tried.contains(kj) {
                        let m = choose|m: int| 0 <= m < v.tried.len() && v.tried[m] == kj;
                        assert(u.tried[m] == kj);
                    }
                }
            }
        },
    }
}

proof fn lemma_clear_current_wf(probes: Seq<ServiceProbe>, v: DetectionView)
    requires
        v.wf(probes),
    ensures
        (DetectionView { current: None, ..v }).wf(probes),
{
}

proof fn lemma_advance_wf(probes: Seq<ServiceProbe>, v: DetectionView)
    requires
        v.wf(probes),
    ensures
        spec_advance(probes, v).0.wf(probes),
    decreases v.plan.len() - v.next,
{
    if 0 <= v.next < v.plan.len() {
        let i = v.plan[v.next];
        let key = key_of(probes[i as int]);
        if v.tried.contains(key) {
            lemma_advance_wf(probes, DetectionView { next: v.next + 1, ..v });
        } else {
            lemma_push_key(probes, v.tried, i as int);
            if probes[i as int].protocol != Protocol::Tcp {
                lemma_advance_wf(probes, DetectionView { next: v.next + 1, tried: v.tried.push(key), ..v });
            }
        }
    }
}

proof fn lemma_fall_back_wf(probes: Seq<ServiceProbe>, v: DetectionView, i: usize)
    requires
        v.wf(probes),
        i < probes.len() <= usize::MAX,
    ensures
        spec_fall_back(probes, v, i).0.wf(probes),
{
    lemma_advance_wf(probes, v);
    if let Some(n) = probes[i as int].fallback {
        lemma_first_index(probes, probe_named(n.spec_bytes()));
    }
    match fallback_index(probes, probes[i as int]) {
        None => {},
        Some(f) => {
            let key = key_of(probes[f]);
            if !v.tried.contains(key) {
                lemma_push_key(probes, v.tried, f);
                lemma_advance_wf(probes, DetectionView { tried: v.tried.push(key), ..v });
            }
        },
    }
}

/// Each step keeps a detection well formed.
pub proof fn lemma_on_outcome_wf(db: ServiceDatabase, v: DetectionView, outcome: ProbeOutcome)
    requires
        v.wf(db.probes@),
    ensures
        spec_on_outcome(db, v, outcome).0.wf(db.probes@),
{
    let probes = db.probes@;
    assert(probes.len() == db.probes.len());
    let w = DetectionView { current: None, ..v };
    lemma_clear_current_wf(probes, v);
    lemma_advance_wf(probes, v);
    lemma_advance_wf(probes, w);
    if let Some(i) = v.current {
        lemma_fall_back_wf(probes, w, i);
    }
}

/// How many probe runs a detection in state `v` asks for when it is handed
/// `outcomes` one after another.
pub open spec fn probe_runs(db: ServiceDatabase, v: DetectionView, outcomes: Seq<ProbeOutcome>) -> nat
    decreases outcomes.len(),
{
    if outcomes.len() == 0 {
        0
    } else {
        let (w, a) = spec_on_outcome(db, v, outcomes[0]);
        let here: nat = if a is Probe {
            1
        } else {
            0
        };
        here + probe_runs(db, w, outcomes.drop_first())
    }
}

/// Whatever outcomes it is handed, a detection asks for no more probe runs
/// than the database has probes not yet tried: every run is of a fresh probe
/// key, fallback cycles included.
pub proof fn lemma_probe_runs_bounded(db: ServiceDatabase, v: DetectionView, outcomes: Seq<ProbeOutcome>)
    requires
        v.wf(db.probes@),
    ensures
        probe_runs(db, v, outcomes) + v.tried.len() <= db.probes@.len(),
    decreases outcomes.len(),
{
    lemma_tried_bounded(db.probes@, v);
    if outcomes.len() > 0 {
        let (w, a) = spec_on_outcome(db, v, outcomes[0]);
        lemma_runs_are_fresh(db, v, outcomes[0]);
        lemma_on_outcome_wf(db, v, outcomes[0]);
        lemma_probe_runs_bounded(db, w, outcomes.drop_first());
    }
}

proof fn lemma_plan_in_range(db: ServiceDatabase, port: u16)
    ensures
        forall|k: int| 0 <= k < spec_plan(db, port).len() ==> (#[trigger] spec_plan(db, port)[k]) < db.probes@.len(),
{
    lemma_top_probes_in_range(db, port);
    let top = spec_top_probes(db, port);
    let all = Seq::new(db.probes@.len(), |i: int| i as usize);
    assert(db.probes@.len() == db.probes.len());
    assert forall|k: int| 0 <= k < spec_plan(db, port).len() implies (#[trigger] spec_plan(db, port)[k]) < db.probes@.len() by {
        if k >= top.len() {
            assert(spec_plan(db, port)[k] == all[k - top.len()]);
        } else {
            assert(spec_plan(db, port)[k] == top[k]);
        }
    }
}

/// A whole detection, from its start and over any outcomes, runs at most as
/// many probes as the database holds: two probes that fall back to each other
/// are run at most twice in all.
pub proof fn lemma_detection_runs_bounded(db: ServiceDatabase, port: u16, outcomes: Seq<ProbeOutcome>)
    requires
        db.wf(),
    ensures
        ({
            let v = DetectionView { port, plan: spec_plan(db, port), next: 0, tried: seq![], current: None };
            let (w, a) = spec_advance(db.probes@, v);
            (if a is Probe {
                1nat
            } else {
                0nat
            }) + probe_runs(db, w, outcomes) <= db.probes@.len()
        }),
{
    let v = DetectionView { port, plan: spec_plan(db, port), next: 0, tried: seq![], current: None };
    lemma_plan_in_range(db, port);
    assert(v.wf(db.probes@));
    lemma_advance_fresh(db.probes@, v);
    lemma_advance_wf(db.probes@, v);
    let (w, a) = spec_advance(db.probes@, v);
    lemma_probe_runs_bounded(db, w, outcomes);
}

} // verus!
