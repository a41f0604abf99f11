use vstd::prelude::*;
use vstd::string::{StringExecFns, StringSliceAdditionalSpecFns};
use vstd::utf8::{decode_utf8, encode_utf8_decode_utf8, valid_utf8};

use crate::pattern::{pattern_matches, pcre2_is_match};
use crate::port::{ports_all_wf, ports_wf, Port, Protocol};
use crate::search::{first_index, lemma_first_index, lemma_first_index_at};
use crate::text::{
    decimal, decimal_text, bytes_cmp, bytes_equal, compare_bytes, lemma_cmp_antisymmetric, lemma_cmp_equal,
    lemma_cmp_transitive, utf8_text,
};

verus! {

/// The most names the table can hold: a service refers to its name by a `u16`.
pub const MAX_SERVICE_NAMES: usize = 0x10000;

/// A classified service: the index of its name in the database's sorted name
/// table, its transport and its port.
#[derive(Debug, Copy, Clone, Hash, PartialEq, Eq, Structural)]
pub struct Service {
    pub name_index: u16,
    pub protocol: Protocol,
    pub port: u16,
}

/// How often a service was seen open on its port, in millionths.
#[derive(Debug, Copy, Clone)]
pub struct ServiceOpenFrequency {
    pub service: Service,
    pub open_frequency: u32,
}

/// How two frequency rows rank: by frequency alone, not by service.
pub open spec fn frequency_order(a: ServiceOpenFrequency, b: ServiceOpenFrequency) -> core::cmp::Ordering {
    if a.open_frequency < b.open_frequency {
        core::cmp::Ordering::Less
    } else if a.open_frequency > b.open_frequency {
        core::cmp::Ordering::Greater
    } else {
        core::cmp::Ordering::Equal
    }
}

impl PartialEq for ServiceOpenFrequency {
    /// Rows rank alike when their frequencies are equal.
    fn eq(&self, other: &ServiceOpenFrequency) -> (r: bool) {
        self.open_frequency == other.open_frequency
    }
}

impl vstd::std_specs::cmp::PartialEqSpecImpl for ServiceOpenFrequency {
    open spec fn obeys_eq_spec() -> bool {
        true
    }

    open spec fn eq_spec(&self, other: &ServiceOpenFrequency) -> bool {
        self.open_frequency == other.open_frequency
    }
}

impl Eq for ServiceOpenFrequency {

}

impl PartialOrd for ServiceOpenFrequency {
    /// Rows rank by frequency; every two rows compare.
    fn partial_cmp(&self, other: &ServiceOpenFrequency) -> (r: Option<core::cmp::Ordering>) {
        if self.open_frequency < other.open_frequency {
            Some(core::cmp::Ordering::Less)
        } else if self.open_frequency > other.open_frequency {
            Some(core::cmp::Ordering::Greater)
        } else {
            Some(core::cmp::Ordering::Equal)
        }
    }
}

impl vstd::std_specs::cmp::PartialOrdSpecImpl for ServiceOpenFrequency {
    open spec fn obeys_partial_cmp_spec() -> bool {
        true
    }

    open spec fn partial_cmp_spec(&self, other: &ServiceOpenFrequency) -> Option<core::cmp::Ordering> {
        Some(frequency_order(*self, *other))
    }
}

/// One `match` or `softmatch` line of a probe: a pattern in nmap's dialect and
/// the service that a response matching it shows.
#[derive(Debug, Copy, Clone, Hash, PartialEq, Eq, PartialOrd, Ord)]
pub struct ServiceProbeMatchRule {
    pub is_soft_match: bool,
    pub service_name_index: u16,
    pub pattern: &'static [u8],
    pub versioninfo: &'static [&'static [u8]],
}

/// A probe: the payload to send, the transport, an optional fallback probe
/// whose rules apply when this one gets no usable response, hints that are
/// carried along, and the ordered rules.
#[derive(Debug, Copy, Clone, Hash, PartialEq, Eq, PartialOrd, Ord)]
pub struct ServiceProbe {
    pub probename: &'static str,
    pub probestring: &'static [u8],
    pub protocol: Protocol,
    pub fallback: Option<&'static str>,
    pub ports: Option<&'static [Port]>,
    pub sslports: Option<&'static [Port]>,
    pub rarity: Option<u8>,
    pub tcpwrappedms: Option<u64>,
    pub totalwaitms: Option<u64>,
    pub rules: &'static [ServiceProbeMatchRule],
}

/// The read-only tables that detection works from.
#[derive(Debug, Copy, Clone)]
pub struct ServiceDatabase {
    pub names: &'static [&'static str],
    pub probes: &'static [ServiceProbe],
    pub frequencies: &'static [ServiceOpenFrequency],
}

/// Why a set of tables was refused.
#[derive(Debug, Copy, Clone, PartialEq, Eq, Structural)]
pub enum DatabaseError {
    /// More names than a `u16` index can reach.
    TooManyNames,
    /// The name at this position does not sort strictly after the one before.
    NamesNotSorted(usize),
    /// The probe at this position is malformed.
    InvalidProbe(usize),
    /// The frequency row at this position names no service of the table.
    InvalidFrequency(usize),
}

/// The name table has at most `MAX_SERVICE_NAMES` names.
pub open spec fn names_fit(names: Seq<&'static str>) -> bool {
    names.len() <= MAX_SERVICE_NAMES
}

/// Each name sorts strictly after the one before it.
pub open spec fn names_ascending(names: Seq<&'static str>) -> bool {
    forall|i: int|
        0 < i < names.len() ==> bytes_cmp(names[i - 1].spec_bytes(), (#[trigger] names[i]).spec_bytes())
            < 0
}

/// The names are strictly sorted, so no name occurs twice.
pub open spec fn names_sorted(names: Seq<&'static str>) -> bool {
    forall|i: int, j: int|
        0 <= i < j < names.len() ==> bytes_cmp(
            (#[trigger] names[i]).spec_bytes(),
            (#[trigger] names[j]).spec_bytes(),
        ) < 0
}

/// The predicate "this probe is called `name`".
pub open spec fn probe_named(name: Seq<u8>) -> spec_fn(ServiceProbe) -> bool {
    |p: ServiceProbe| p.probename.spec_bytes() == name
}

/// The predicate "this name is `name`".
pub open spec fn name_is(name: Seq<u8>) -> spec_fn(&'static str) -> bool {
    |s: &'static str| s.spec_bytes() == name
}

/// The position of `name` in the name table.
pub open spec fn spec_name_index(names: Seq<&'static str>, name: Seq<u8>) -> Option<int> {
    first_index(names, name_is(name))
}

/// The probe that a probe falls back to: the first probe that bears the name
/// of its `fallback` field.
pub open spec fn spec_fallback(probes: Seq<ServiceProbe>, probe: ServiceProbe) -> Option<ServiceProbe> {
    match probe.fallback {
        Some(n) => match first_index(probes, probe_named(n.spec_bytes())) {
            Some(i) => Some(probes[i]),
            None => None,
        },
        None => None,
    }
}

/// Optional port hints are well formed.
pub open spec fn port_hints_wf(ports: Option<&[Port]>) -> bool {
    match ports {
        Some(ps) => ports_wf(ps@),
        None => true,
    }
}

/// A probe of a table of `n_names` names and the probes `probes`: it runs over
/// TCP or UDP, each rule names a service of the table, a fallback names a
/// probe of the table, the rarity lies in 1 to 9 and its port hints are well
/// formed.
pub open spec fn probe_wf(n_names: int, probes: Seq<ServiceProbe>, p: ServiceProbe) -> bool {
    &&& (p.protocol == Protocol::Tcp || p.protocol == Protocol::Udp)
    &&& forall|j: int| 0 <= j < p.rules@.len() ==> (#[trigger] p.rules@[j]).service_name_index < n_names
    &&& match p.fallback {
        Some(n) => exists|q: int| 0 <= q < probes.len() && (#[trigger] probes[q]).probename.spec_bytes() == n.spec_bytes(),
        None => true,
    }
    &&& match p.rarity {
        Some(r) => 1 <= r <= 9,
        None => true,
    }
    &&& port_hints_wf(p.ports)
    &&& port_hints_wf(p.sslports)
}

/// A frequency row names a service of a table of `n_names` names.
pub open spec fn frequency_wf(n_names: int, f: ServiceOpenFrequency) -> bool {
    f.service.name_index < n_names
}

/// The three tables fit together.
pub open spec fn tables_wf(
    names: Seq<&'static str>,
    probes: Seq<ServiceProbe>,
    frequencies: Seq<ServiceOpenFrequency>,
) -> bool {
    &&& names_fit(names)
    &&& names_sorted(names)
    &&& forall|i: int| 0 <= i < probes.len() ==> probe_wf(names.len() as int, probes, #[trigger] probes[i])
    &&& forall|i: int| 0 <= i < frequencies.len() ==> frequency_wf(names.len() as int, #[trigger] frequencies[i])
}

proof fn lemma_ascending_sorted(names: Seq<&'static str>)
    requires
        names_ascending(names),
    ensures
        names_sorted(names),
{
    assert forall|i: int, j: int| 0 <= i < j < names.len() implies bytes_cmp(
        (#[trigger] names[i]).spec_bytes(),
        (#[trigger] names[j]).spec_bytes(),
    ) < 0 by {
        lemma_ascending_pair(names, i, j);
    }
}

proof fn lemma_ascending_pair(names: Seq<&'static str>, i: int, j: int)
    requires
        names_ascending(names),
        0 <= i < j < names.len(),
    ensures
        bytes_cmp(names[i].spec_bytes(), names[j].spec_bytes()) < 0,
    decreases j - i,
{
    if j > i + 1 {
        lemma_ascending_pair(names, i, j - 1);
        assert(bytes_cmp(names[j - 1].spec_bytes(), names[j].spec_bytes()) < 0);
        lemma_cmp_transitive(names[i].spec_bytes(), names[j - 1].spec_bytes(), names[j].spec_bytes());
    } else {
        assert(bytes_cmp(names[j - 1].spec_bytes(), names[j].spec_bytes()) < 0);
    }
}

impl ServiceDatabase {
    pub open spec fn wf(&self) -> bool {
        tables_wf(self.names@, self.probes@, self.frequencies@)
    }

    /// Takes the three tables after checking that they fit together: the
    /// names are at most `MAX_SERVICE_NAMES` and strictly sorted, every probe
    /// is well formed, and every frequency row names a service of the table.
    /// The first failing check, in that order, gives the error.
    pub fn new(
        names: &'static [&'static str],
        probes: &'static [ServiceProbe],
        frequencies: &'static [ServiceOpenFrequency],
    ) -> (r: Result<ServiceDatabase, DatabaseError>)
        ensures
            r is Ok == tables_wf(names@, probes@, frequencies@),
            match r {
                Ok(db) => db.names == names && db.probes == probes && db.frequencies == frequencies,
                Err(DatabaseError::TooManyNames) => !names_fit(names@),
                Err(DatabaseError::NamesNotSorted(i)) => {
                    &&& names_fit(names@)
                    &&& 0 < i < names@.len()
                    &&& bytes_cmp(names@[i - 1].spec_bytes(), names@[i as int].spec_bytes()) >= 0
                    &&& forall|j: int| 0 < j < i ==> bytes_cmp(names@[j - 1].spec_bytes(), (#[trigger] names@[j]).spec_bytes()) < 0
                },
                Err(DatabaseError::InvalidProbe(i)) => {
                    &&& names_fit(names@)
                    &&& names_sorted(names@)
                    &&& i < probes@.len()
                    &&& !probe_wf(names@.len() as int, probes@, probes@[i as int])
                    &&& forall|j: int| 0 <= j < i ==> probe_wf(names@.len() as int, probes@, #[trigger] probes@[j])
                },
                Err(DatabaseError::InvalidFrequency(i)) => {
                    &&& names_fit(names@)
                    &&& names_sorted(names@)
                    &&& forall|j: int| 0 <= j < probes@.len() ==> probe_wf(names@.len() as int, probes@, #[trigger] probes@[j])
                    &&& i < frequencies@.len()
                    &&& !frequency_wf(names@.len() as int, frequencies@[i as int])
                    &&& forall|j: int| 0 <= j < i ==> frequency_wf(names@.len() as int, #[trigger] frequencies@[j])
                },
            },
    {
        if names.len() > MAX_SERVICE_NAMES {
            return Err(DatabaseError::TooManyNames);
        }
        let mut i: usize = 1;
        while i < names.len()
            invariant
                1 <= i,
                names_fit(names@),
                forall|j: int| 0 < j < i && j < names@.len() ==> bytes_cmp(names@[j - 1].spec_bytes(), (#[trigger] names@[j]).spec_bytes()) < 0,
            decreases names@.len() - i,
        {
            if compare_bytes(names[i - 1].as_bytes(), names[i].as_bytes()) >= 0 {
                proof {
                    lemma_ascending_pair_refuted(names@, i as int);
                }
                return Err(DatabaseError::NamesNotSorted(i));
            }
            i = i + 1;
        }
        proof {
            lemma_ascending_sorted(names@);
        }
        let mut k: usize = 0;
        while k < probes.len()
            invariant
                names_fit(names@),
                names_sorted(names@),
                0 <= k <= probes@.len(),
                forall|j: int| 0 <= j < k ==> probe_wf(names@.len() as int, probes@, #[trigger] probes@[j]),
            decreases probes@.len() - k,
        {
            if !check_probe(names.len(), probes, &probes[k]) {
                return Err(DatabaseError::InvalidProbe(k));
            }
            k = k + 1;
        }
        let mut f: usize = 0;
        while f < frequencies.len()
            invariant
                names_fit(names@),
                names_sorted(names@),
                forall|j: int| 0 <= j < probes@.len() ==> probe_wf(names@.len() as int, probes@, #[trigger] probes@[j]),
                0 <= f <= frequencies@.len(),
                forall|j: int| 0 <= j < f ==> frequency_wf(names@.len() as int, #[trigger] frequencies@[j]),
            decreases frequencies@.len() - f,
        {
            if frequencies[f].service.name_index as usize >= names.len() {
                return Err(DatabaseError::InvalidFrequency(f));
            }
            f = f + 1;
        }
        Ok(ServiceDatabase { names, probes, frequencies })
    }
}

impl ServiceDatabase {
    /// The position of `name` in the sorted name table, found by binary search.
    pub fn resolve_service_name(&self, name: &str) -> (r: Option<u16>)
        requires
            self.wf(),
        ensures
            match spec_name_index(self.names@, name.spec_bytes()) {
                Some(i) => r == Some(i as u16),
                None => r is None,
            },
    {
        let names = self.names;
        let key = name.as_bytes();
        let ghost pred = name_is(name.spec_bytes());
        let mut lo: usize = 0;
        let mut hi: usize = names.len();
        while lo < hi
            invariant
                0 <= lo <= hi <= names@.len(),
                names == self.names,
                names_fit(names@),
                names_sorted(names@),
                pred == name_is(name.spec_bytes()),
                key@ == name.spec_bytes(),
                forall|j: int| 0 <= j < lo ==> bytes_cmp(key@, (#[trigger] names@[j]).spec_bytes()) > 0,
                forall|j: int| hi <= j < names@.len() ==> bytes_cmp(key@, (#[trigger] names@[j]).spec_bytes()) < 0,
            decreases hi - lo,
        {
            let mid = lo + (hi - lo) / 2;
            let c = compare_bytes(key, names[mid].as_bytes());
            let ghost m = names@[mid as int].spec_bytes();
            if c == 0 {
                proof {
                    lemma_cmp_equal(key@, m);
                    assert forall|j: int| 0 <= j < mid implies !pred(#[trigger] names@[j]) by {
                        let other = names@[j].spec_bytes();
                        assert(bytes_cmp(other, names@[mid as int].spec_bytes()) < 0);
                        lemma_cmp_equal(other, m);
                    }
                    assert(pred(names@[mid as int]));
                    lemma_first_index_at(names@, pred, mid as int);
                }
                return Some(mid as u16);
            } else if c < 0 {
                proof {
                    assert forall|j: int| mid <= j < names@.len() implies bytes_cmp(key@, (#[trigger] names@[j]).spec_bytes()) < 0 by {
                        if j > mid {
                            lemma_cmp_transitive(key@, m, names@[j].spec_bytes());
                        }
                    }
                }
                hi = mid;
            } else {
                proof {
                    assert forall|j: int| 0 <= j <= mid implies bytes_cmp(key@, (#[trigger] names@[j]).spec_bytes()) > 0 by {
                        if j < mid {
                            let other = names@[j].spec_bytes();
                            lemma_cmp_antisymmetric(key@, m);
                            lemma_cmp_transitive(other, m, key@);
                            lemma_cmp_antisymmetric(other, key@);
                        }
                    }
                }
                lo = mid + 1;
            }
        }
        proof {
            assert forall|j: int| 0 <= j < names@.len() implies !pred(#[trigger] names@[j]) by {
                lemma_cmp_equal(key@, names@[j].spec_bytes());
            }
            lemma_first_index(names@, pred);
        }
        None
    }
}

impl Service {
    /// The service called `name`, on `protocol` and `port`; an error when the
    /// name table does not hold `name`.
    pub fn new(db: &ServiceDatabase, name: &str, protocol: Protocol, port: u16) -> (r: Result<Service, ()>)
        requires
            db.wf(),
        ensures
            match spec_name_index(db.names@, name.spec_bytes()) {
                Some(i) => r == Ok::<Service, ()>(Service { name_index: i as u16, protocol, port }),
                None => r == Err::<Service, ()>(()),
            },
    {
        match db.resolve_service_name(name) {
            Some(i) => Ok(Service { name_index: i, protocol, port }),
            None => Err(()),
        }
    }

    /// The name of this service.
    pub fn service_name(&self, db: &ServiceDatabase) -> (r: &'static str)
        requires
            self.name_index < db.names@.len(),
        ensures
            r == db.names@[self.name_index as int],
    {
        db.names[self.name_index as usize]
    }

    /// The text form of this service: protocol, port and name, as in
    /// `tcp/80 http`.
    pub fn to_string(&self, db: &ServiceDatabase) -> (r: String)
        requires
            self.name_index < db.names@.len(),
        ensures
            r@ == self.protocol.spec_label() + seq!['/'] + decimal(self.port as nat) + seq![' ']
                + db.names@[self.name_index as int]@,
    {
        let mut s = String::from_str(self.protocol.label());
        proof {
            reveal_strlit("/");
            reveal_strlit(" ");
        }
        s.append("/");
        let port = decimal_text(self.port);
        s.append(port.as_str());
        s.append(" ");
        s.append(self.service_name(db));
        s
    }

    /// The position of this service's name in the name table.
    pub fn service_index(&self) -> (r: usize)
        ensures
            r == self.name_index,
    {
        self.name_index as usize
    }
}

/// Whether `rule` matches `subject`: its pattern must be text, and that text
/// must match as a pattern in nmap's dialect.
pub open spec fn rule_matches(rule: ServiceProbeMatchRule, subject: Seq<u8>) -> bool {
    valid_utf8(rule.pattern@) && pattern_matches(decode_utf8(rule.pattern@), subject)
}

/// Every byte string of `infos` is text.
pub open spec fn all_text(infos: Seq<&'static [u8]>) -> bool {
    forall|i: int| 0 <= i < infos.len() ==> valid_utf8((#[trigger] infos[i])@)
}

impl ServiceProbeMatchRule {
    /// The name of the service that this rule shows.
    pub fn service_name(&self, db: &ServiceDatabase) -> (r: &'static str)
        requires
            self.service_name_index < db.names@.len(),
        ensures
            r == db.names@[self.service_name_index as int],
    {
        db.names[self.service_name_index as usize]
    }

    /// Whether the response `subject` matches this rule's pattern; a pattern
    /// that is not text, is malformed or does not compile matches nothing.
    pub fn is_match(&self, subject: &[u8]) -> (r: bool)
        ensures
            r == rule_matches(*self, subject@),
    {
        match utf8_text(self.pattern) {
            Some(text) => {
                proof {
                    encode_utf8_decode_utf8(text@);
                }
                pcre2_is_match(text, subject)
            },
            None => false,
        }
    }

    /// The pattern as text.
    pub fn pattern(&self) -> (r: &'static str)
        requires
            valid_utf8(self.pattern@),
        ensures
            r.spec_bytes() == self.pattern@,
    {
        match utf8_text(self.pattern) {
            Some(text) => text,
            None => "",
        }
    }

    /// The version-information templates as text.
    pub fn version_info(&self) -> (r: Vec<&'static str>)
        requires
            all_text(self.versioninfo@),
        ensures
            r@.len() == self.versioninfo@.len(),
            forall|i: int| 0 <= i < r@.len() ==> (#[trigger] r@[i]).spec_bytes() == self.versioninfo@[i]@,
    {
        let mut out: Vec<&'static str> = Vec::new();
        let mut i: usize = 0;
        while i < self.versioninfo.len()
            invariant
                0 <= i <= self.versioninfo@.len(),
                all_text(self.versioninfo@),
                out@.len() == i,
                forall|j: int| 0 <= j < i ==> (#[trigger] out@[j]).spec_bytes() == self.versioninfo@[j]@,
            decreases self.versioninfo@.len() - i,
        {
            let info: &'static [u8] = self.versioninfo[i];
            assert(valid_utf8(self.versioninfo@[i as int]@));
            match utf8_text(info) {
                Some(text) => {
                    out.push(text);
                },
                None => {
                    out.push("");
                },
            }
            i = i + 1;
        }
        out
    }
}

impl ServiceProbe {
    /// The probe that this one falls back to: the first probe of the database
    /// that bears the name in `fallback`.
    pub fn fallback_probe(&self, db: &ServiceDatabase) -> (r: Option<ServiceProbe>)
        ensures
            r == spec_fallback(db.probes@, *self),
    {
        match self.fallback {
            Some(n) => match find_probe(db.probes, n) {
                Some(i) => Some(db.probes[i]),
                None => None,
            },
            None => None,
        }
    }

    pub fn name(&self) -> (r: &'static str)
        ensures
            r == self.probename,
    {
        self.probename
    }

    pub fn protocol(&self) -> (r: Protocol)
        ensures
            r == self.protocol,
    {
        self.protocol
    }

    /// The payload as text.
    pub fn probestring(&self) -> (r: &'static str)
        requires
            valid_utf8(self.probestring@),
        ensures
            r.spec_bytes() == self.probestring@,
    {
        match utf8_text(self.probestring) {
            Some(text) => text,
            None => "",
        }
    }
}

proof fn lemma_ascending_pair_refuted(names: Seq<&'static str>, i: int)
    requires
        0 < i < names.len(),
        bytes_cmp(names[i - 1].spec_bytes(), names[i].spec_bytes()) >= 0,
    ensures
        !names_sorted(names),
{
    let a = names[i - 1];
    let b = names[i];
    if names_sorted(names) {
        assert(bytes_cmp(a.spec_bytes(), b.spec_bytes()) < 0);
    }
}

/// Whether `probe` is well formed in a table of `n_names` names and the probes
/// `probes`.
fn check_probe(n_names: usize, probes: &[ServiceProbe], probe: &ServiceProbe) -> (r: bool)
    ensures
        r == probe_wf(n_names as int, probes@, *probe),
{
    match probe.protocol {
        Protocol::Tcp | Protocol::Udp => {},
        Protocol::Sctp => {
            return false;
        },
    }
    let mut j: usize = 0;
    while j < probe.rules.len()
        invariant
            0 <= j <= probe.rules@.len(),
            forall|m: int| 0 <= m < j ==> (#[trigger] probe.rules@[m]).service_name_index < n_names,
        decreases probe.rules@.len() - j,
    {
        if probe.rules[j].service_name_index as usize >= n_names {
            return false;
        }
        j = j + 1;
    }
    match probe.fallback {
        Some(n) => {
            let found = find_probe(probes, n);
            proof {
                lemma_first_index(probes@, probe_named(n.spec_bytes()));
            }
            if found.is_none() {
                return false;
            }
        },
        None => {},
    }
    match probe.rarity {
        Some(r) => {
            if r < 1 || r > 9 {
                return false;
            }
        },
        None => {},
    }
    match probe.ports {
        Some(ps) => {
            if !ports_all_wf(ps) {
                return false;
            }
        },
        None => {},
    }
    match probe.sslports {
        Some(ps) => {
            if !ports_all_wf(ps) {
                return false;
            }
        },
        None => {},
    }
    true
}

/// The position of the first probe called `name`.
pub fn find_probe(probes: &[ServiceProbe], name: &str) -> (r: Option<usize>)
    ensures
        match first_index(probes@, probe_named(name.spec_bytes())) {
            Some(i) => r == Some(i as usize) && 0 <= i < probes@.len(),
            None => r is None,
        },
{
    let ghost pred = probe_named(name.spec_bytes());
    let mut i: usize = 0;
    while i < probes.len()
        invariant
            0 <= i <= probes@.len(),
            pred == probe_named(name.spec_bytes()),
            forall|j: int| 0 <= j < i ==> !pred(#[trigger] probes@[j]),
        decreases probes@.len() - i,
    {
        if bytes_equal(probes[i].probename.as_bytes(), name.as_bytes()) {
            proof {
                lemma_first_index_at(probes@, pred, i as int);
            }
            return Some(i);
        }
        i = i + 1;
    }
    proof {
        lemma_first_index(probes@, pred);
    }
    None
}

} // verus!

verus! {

/// Every rule of every probe of a well-formed database names a service of the
/// name table.
pub proof fn lemma_rule_names_in_table(db: ServiceDatabase)
    requires
        db.wf(),
    ensures
        forall|i: int, j: int|
            0 <= i < db.probes@.len() && 0 <= j < db.probes@[i].rules@.len() ==> (#[trigger] db.probes@[i].rules@[j]).service_name_index
                < db.names@.len(),
{
    assert forall|i: int, j: int|
        0 <= i < db.probes@.len() && 0 <= j < db.probes@[i].rules@.len() implies (#[trigger] db.probes@[i].rules@[j]).service_name_index
        < db.names@.len() by {
        assert(probe_wf(db.names@.len() as int, db.probes@, db.probes@[i]));
    }
}

/// The name table of a well-formed database is strictly sorted, and looking
/// up the name at any position gives that position back.
pub proof fn lemma_name_lookup(db: ServiceDatabase, i: int)
    requires
        db.wf(),
        0 <= i < db.names@.len(),
    ensures
        names_sorted(db.names@),
        spec_name_index(db.names@, db.names@[i].spec_bytes()) == Some(i),
{
    let names = db.names@;
    let key = names[i].spec_bytes();
    let pred = name_is(key);
    assert forall|j: int| 0 <= j < i implies !pred(#[trigger] names[j]) by {
        assert(bytes_cmp(names[j].spec_bytes(), names[i].spec_bytes()) < 0);
        lemma_cmp_equal(names[j].spec_bytes(), key);
    }
    lemma_first_index_at(names, pred, i);
}

/// In a well-formed database every fallback of a probe resolves to a probe
/// that bears that name.
pub proof fn lemma_fallback_resolves(db: ServiceDatabase, i: int)
    requires
        db.wf(),
        0 <= i < db.probes@.len(),
        db.probes@[i].fallback is Some,
    ensures
        spec_fallback(db.probes@, db.probes@[i]) matches Some(q) && q.probename.spec_bytes()
            == db.probes@[i].fallback->0.spec_bytes(),
{
    let n = db.probes@[i].fallback->0;
    let pred = probe_named(n.spec_bytes());
    assert(probe_wf(db.names@.len() as int, db.probes@, db.probes@[i]));
    let q = choose|q: int| 0 <= q < db.probes@.len() && (#[trigger] db.probes@[q]).probename.spec_bytes() == n.spec_bytes();
    assert(pred(db.probes@[q]));
    lemma_first_index(db.probes@, pred);
}

/// Building a service from any name of the table succeeds, and the service
/// names that same string.
pub proof fn lemma_service_name_round_trip(db: ServiceDatabase, i: int)
    requires
        db.wf(),
        0 <= i < db.names@.len(),
    ensures
        spec_name_index(db.names@, db.names@[i].spec_bytes()) matches Some(k) && 0 <= k < db.names@.len()
            && (k as u16) as int == k && db.names@[k] == db.names@[i],
{
    lemma_name_lookup(db, i);
}

} // verus!
