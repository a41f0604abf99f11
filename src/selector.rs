use vstd::prelude::*;

use crate::database::{ServiceDatabase, ServiceOpenFrequency, ServiceProbe, Service};
use crate::port::Protocol;
use crate::search::{first_index, lemma_first_index, lemma_first_index_at};

verus! {

/// How many of the most frequent services of a port decide the probes that
/// are tried first.
pub const TOP_SERVICES: usize = 6;

/// The positions of the frequency rows of `port`, in table order.
pub open spec fn rows_for_port(freqs: Seq<ServiceOpenFrequency>, port: u16) -> Seq<usize>
    decreases freqs.len(),
{
    if freqs.len() == 0 {
        seq![]
    } else {
        let prev = rows_for_port(freqs.drop_last(), port);
        if freqs.last().service.port == port {
            prev.push((freqs.len() - 1) as usize)
        } else {
            prev
        }
    }
}

/// The place in `rows` of the row with the highest frequency; among equal
/// frequencies, the earliest.
pub open spec fn best_row(freqs: Seq<ServiceOpenFrequency>, rows: Seq<usize>) -> int
    decreases rows.len(),
{
    if rows.len() <= 1 {
        0
    } else {
        let p = best_row(freqs, rows.drop_last());
        if freqs[rows.last() as int].open_frequency > freqs[rows[p] as int].open_frequency {
            rows.len() - 1
        } else {
            p
        }
    }
}

/// The first `n` of `rows` by frequency, highest first, rows of equal
/// frequency in the order in which they come.
pub open spec fn ranked(freqs: Seq<ServiceOpenFrequency>, rows: Seq<usize>, n: nat) -> Seq<usize>
    decreases n,
{
    if n == 0 || rows.len() == 0 {
        seq![]
    } else {
        let p = best_row(freqs, rows);
        seq![rows[p]] + ranked(freqs, rows.remove(p), (n - 1) as nat)
    }
}

/// The predicate "this probe runs over the service's transport and has a rule
/// for the service".
pub open spec fn probe_serves(service: Service) -> spec_fn(ServiceProbe) -> bool {
    |p: ServiceProbe|
        p.protocol == service.protocol && exists|j: int|
            0 <= j < p.rules@.len() && (#[trigger] p.rules@[j]).service_name_index == service.name_index
}

/// The probe chosen for a service: none for a transport other than TCP or
/// UDP, else the first probe that serves it.
pub open spec fn probe_for(probes: Seq<ServiceProbe>, service: Service) -> Option<int> {
    if service.protocol == Protocol::Tcp || service.protocol == Protocol::Udp {
        first_index(probes, probe_serves(service))
    } else {
        None
    }
}

/// The probes chosen for the rows `top`, in their order, each once.
pub open spec fn probes_for_rows(
    probes: Seq<ServiceProbe>,
    freqs: Seq<ServiceOpenFrequency>,
    top: Seq<usize>,
) -> Seq<usize>
    decreases top.len(),
{
    if top.len() == 0 {
        seq![]
    } else {
        let prev = probes_for_rows(probes, freqs, top.drop_last());
        match probe_for(probes, freqs[top.last() as int].service) {
            Some(i) => if prev.contains(i as usize) {
                prev
            } else {
                prev.push(i as usize)
            },
            None => prev,
        }
    }
}

/// The probes tried first against `port`.
pub open spec fn spec_top_probes(db: ServiceDatabase, port: u16) -> Seq<usize> {
    probes_for_rows(
        db.probes@,
        db.frequencies@,
        ranked(db.frequencies@, rows_for_port(db.frequencies@, port), TOP_SERVICES as nat),
    )
}

/// The positions of the frequency rows of `port`, in table order.
fn port_rows(freqs: &[ServiceOpenFrequency], port: u16) -> (r: Vec<usize>)
    ensures
        r@ == rows_for_port(freqs@, port),
        forall|k: int| 0 <= k < r@.len() ==> (#[trigger] r@[k]) < freqs@.len(),
{
    let mut out: Vec<usize> = Vec::new();
    let mut i: usize = 0;
    while i < freqs.len()
        invariant
            0 <= i <= freqs@.len(),
            out@ == rows_for_port(freqs@.take(i as int), port),
            forall|k: int| 0 <= k < out@.len() ==> (#[trigger] out@[k]) < i,
        decreases freqs@.len() - i,
    {
        assert(freqs@.take(i + 1).drop_last() =~= freqs@.take(i as int));
        if freqs[i].service.port == port {
            out.push(i);
        }
        i = i + 1;
    }
    assert(freqs@.take(freqs@.len() as int) =~= freqs@);
    out
}

/// The place in `rows` of the most frequent row, the earliest among equals.
fn best_position(freqs: &[ServiceOpenFrequency], rows: &Vec<usize>) -> (r: usize)
    requires
        rows@.len() > 0,
        forall|k: int| 0 <= k < rows@.len() ==> (#[trigger] rows@[k]) < freqs@.len(),
    ensures
        r == best_row(freqs@, rows@),
        r < rows@.len(),
{
    let mut best: usize = 0;
    let mut k: usize = 1;
    while k < rows.len()
        invariant
            1 <= k <= rows@.len(),
            best < k,
            forall|m: int| 0 <= m < rows@.len() ==> (#[trigger] rows@[m]) < freqs@.len(),
            best == best_row(freqs@, rows@.take(k as int)),
        decreases rows@.len() - k,
    {
        assert(rows@.take(k + 1).drop_last() =~= rows@.take(k as int));
        if freqs[rows[k]].open_frequency > freqs[rows[best]].open_frequency {
            best = k;
        }
        k = k + 1;
    }
    assert(rows@.take(rows@.len() as int) =~= rows@);
    best
}

/// The first `limit` rows of `rows` by frequency, highest first, rows of equal
/// frequency in the order in which they come.
fn rank_rows(freqs: &[ServiceOpenFrequency], rows: Vec<usize>, limit: usize) -> (r: Vec<usize>)
    requires
        forall|k: int| 0 <= k < rows@.len() ==> (#[trigger] rows@[k]) < freqs@.len(),
    ensures
        r@ == ranked(freqs@, rows@, limit as nat),
        forall|k: int| 0 <= k < r@.len() ==> (#[trigger] r@[k]) < freqs@.len(),
{
    let ghost all = rows@;
    let mut rest = rows;
    let mut top: Vec<usize> = Vec::new();
    let mut n: usize = 0;
    while n < limit && rest.len() > 0
        invariant
            n <= limit,
            top@ + ranked(freqs@, rest@, (limit - n) as nat) == ranked(freqs@, all, limit as nat),
            forall|k: int| 0 <= k < rest@.len() ==> (#[trigger] rest@[k]) < freqs@.len(),
            forall|k: int| 0 <= k < top@.len() ==> (#[trigger] top@[k]) < freqs@.len(),
        decreases limit - n,
    {
        let p = best_position(freqs, &rest);
        let ghost old_rest = rest@;
        let row = rest.remove(p);
        let ghost before = top@;
        top.push(row);
        assert(ranked(freqs@, old_rest, (limit - n) as nat) == seq![row] + ranked(
            freqs@,
            rest@,
            (limit - n - 1) as nat,
        ));
        assert(top@ + ranked(freqs@, rest@, (limit - n - 1) as nat) =~= before + ranked(
            freqs@,
            old_rest,
            (limit - n) as nat,
        ));
        assert forall|k: int| 0 <= k < rest@.len() implies (#[trigger] rest@[k]) < freqs@.len() by {
            assert(rest@[k] == old_rest[if k < p {
                k
            } else {
                k + 1
            }]);
        }
        n = n + 1;
    }
    assert(ranked(freqs@, rest@, (limit - n) as nat) =~= seq![]);
    assert(top@ =~= top@ + seq![]);
    top
}

/// Whether `probe` runs over the service's transport and has a rule for it.
fn serves(probe: &ServiceProbe, service: Service) -> (r: bool)
    ensures
        r == probe_serves(service)(*probe),
{
    if probe.protocol != service.protocol {
        return false;
    }
    let mut j: usize = 0;
    while j < probe.rules.len()
        invariant
            0 <= j <= probe.rules@.len(),
            probe.protocol == service.protocol,
            forall|m: int| 0 <= m < j ==> (#[trigger] probe.rules@[m]).service_name_index != service.name_index,
        decreases probe.rules@.len() - j,
    {
        if probe.rules[j].service_name_index == service.name_index {
            assert(probe.rules@[j as int].service_name_index == service.name_index);
            return true;
        }
        j = j + 1;
    }
    false
}

/// The probe chosen for `service`: the first that serves it, where its
/// transport is TCP or UDP.
fn find_probe_for(probes: &[ServiceProbe], service: Service) -> (r: Option<usize>)
    ensures
        match probe_for(probes@, service) {
            Some(i) => r == Some(i as usize) && 0 <= i < probes@.len(),
            None => r is None,
        },
{
    match service.protocol {
        Protocol::Tcp | Protocol::Udp => {},
        Protocol::Sctp => {
            return None;
        },
    }
    let ghost pred = probe_serves(service);
    let mut i: usize = 0;
    while i < probes.len()
        invariant
            0 <= i <= probes@.len(),
            pred == probe_serves(service),
            service.protocol == Protocol::Tcp || service.protocol == Protocol::Udp,
            forall|j: int| 0 <= j < i ==> !pred(#[trigger] probes@[j]),
        decreases probes@.len() - i,
    {
        if serves(&probes[i], service) {
            proof {
                lemma_first_index_at(probes@, pred, i as int);
            }
            return Some(i);
        }
        i = i + 1;
    }
    proof {
        lemma_first_index(probes@, pred);
    }
    None
}

/// Whether `v` holds `x`.
fn holds(v: &Vec<usize>, x: usize) -> (r: bool)
    ensures
        r == v@.contains(x),
{
    let mut i: usize = 0;
    while i < v.len()
        invariant
            0 <= i <= v@.len(),
            forall|j: int| 0 <= j < i ==> v@[j] != x,
        decreases v@.len() - i,
    {
        if v[i] == x {
            return true;
        }
        i = i + 1;
    }
    false
}

/// The positions of the frequency rows of `port`, highest frequency first,
/// rows of equal frequency in table order.
pub fn top_service_detect(db: &ServiceDatabase, port: u16) -> (r: Vec<usize>)
    ensures
        r@ == ranked(
            db.frequencies@,
            rows_for_port(db.frequencies@, port),
            rows_for_port(db.frequencies@, port).len(),
        ),
{
    let rows = port_rows(db.frequencies, port);
    let n = rows.len();
    rank_rows(db.frequencies, rows, n)
}

/// The probes most likely to succeed against `port`, most likely first: for
/// each of the `TOP_SERVICES` most frequent services of the port, the first
/// probe over its transport with a rule for it, each probe once.
pub fn top_probes(db: &ServiceDatabase, port: u16) -> (r: Vec<usize>)
    ensures
        r@ == spec_top_probes(*db, port),
        forall|k: int| 0 <= k < r@.len() ==> (#[trigger] r@[k]) < db.probes@.len(),
{
    let freqs = db.frequencies;
    let rows = port_rows(freqs, port);
    let top = rank_rows(freqs, rows, TOP_SERVICES);
    let mut out: Vec<usize> = Vec::new();
    let mut k: usize = 0;
    while k < top.len()
        invariant
            0 <= k <= top@.len(),
            freqs == db.frequencies,
            top@ == ranked(freqs@, rows_for_port(freqs@, port), TOP_SERVICES as nat),
            forall|m: int| 0 <= m < top@.len() ==> (#[trigger] top@[m]) < freqs@.len(),
            out@ == probes_for_rows(db.probes@, freqs@, top@.take(k as int)),
            forall|m: int| 0 <= m < out@.len() ==> (#[trigger] out@[m]) < db.probes@.len(),
        decreases top@.len() - k,
    {
        assert(top@.take(k + 1).drop_last() =~= top@.take(k as int));
        let service = freqs[top[k]].service;
        match find_probe_for(db.probes, service) {
            Some(i) => {
                if !holds(&out, i) {
                    out.push(i);
                }
            },
            None => {},
        }
        k = k + 1;
    }
    assert(top@.take(top@.len() as int) =~= top@);
    out
}

proof fn lemma_rows_probes_in_range(
    probes: Seq<ServiceProbe>,
    freqs: Seq<ServiceOpenFrequency>,
    top: Seq<usize>,
)
    requires
        probes.len() <= usize::MAX,
    ensures
        forall|k: int|
            0 <= k < probes_for_rows(probes, freqs, top).len() ==> (#[trigger] probes_for_rows(probes, freqs, top)[k])
                < probes.len(),
    decreases top.len(),
{
    if top.len() > 0 {
        let prev = probes_for_rows(probes, freqs, top.drop_last());
        let service = freqs[top.last() as int].service;
        lemma_rows_probes_in_range(probes, freqs, top.drop_last());
        lemma_first_index(probes, probe_serves(service));
        if let Some(i) = probe_for(probes, service) {
            if !prev.contains(i as usize) {
                assert forall|k: int| 0 <= k < prev.len() + 1 implies (#[trigger] prev.push(i as usize)[k]) < probes.len() by {
                    if k < prev.len() {
                        assert(prev.push(i as usize)[k] == prev[k]);
                    }
                }
            }
        }
    }
}

/// Every probe chosen for a port is a probe of the database.
pub proof fn lemma_top_probes_in_range(db: ServiceDatabase, port: u16)
    ensures
        forall|k: int|
            0 <= k < spec_top_probes(db, port).len() ==> (#[trigger] spec_top_probes(db, port)[k])
                < db.probes@.len(),
{
    assert(db.probes@.len() == db.probes.len());
    lemma_rows_probes_in_range(
        db.probes@,
        db.frequencies@,
        ranked(db.frequencies@, rows_for_port(db.frequencies@, port), TOP_SERVICES as nat),
    );
}

} // verus!
