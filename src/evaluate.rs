use vstd::prelude::*;
use vstd::string::StringSliceAdditionalSpecFns;

use crate::database::{rule_matches, Service, ServiceDatabase, ServiceProbeMatchRule};
use crate::port::Protocol;

verus! {

/// The bytes of the name `unknown`, which a soft match does not report.
pub open spec fn unknown_name() -> Seq<u8> {
    seq![117u8, 110u8, 107u8, 110u8, 111u8, 119u8, 110u8]
}

/// Every rule names a service of a table of `n_names` names.
pub open spec fn rules_in_table(rules: Seq<ServiceProbeMatchRule>, n_names: int) -> bool {
    forall|j: int| 0 <= j < rules.len() ==> (#[trigger] rules[j]).service_name_index < n_names
}

/// The service that a matching rule shows.
pub open spec fn rule_service(rule: ServiceProbeMatchRule, protocol: Protocol, port: u16) -> Service {
    Service { name_index: rule.service_name_index, protocol, port }
}

/// A rule that only suggests its service: a soft match whose service is not
/// `unknown`.
pub open spec fn suggests(names: Seq<&'static str>, rule: ServiceProbeMatchRule) -> bool {
    rule.is_soft_match && names[rule.service_name_index as int].spec_bytes() != unknown_name()
}

/// The first of the first `n` rules that matched and decides at once.
pub open spec fn first_decisive(
    names: Seq<&'static str>,
    rules: Seq<ServiceProbeMatchRule>,
    matched: Seq<bool>,
    n: int,
) -> Option<int>
    decreases n,
{
    if n <= 0 {
        None
    } else {
        match first_decisive(names, rules, matched, n - 1) {
            Some(h) => Some(h),
            None => if matched[n - 1] && !suggests(names, rules[n - 1]) {
                Some(n - 1)
            } else {
                None
            },
        }
    }
}

/// The last of the first `n` rules that matched and only suggests.
pub open spec fn last_suggestion(
    names: Seq<&'static str>,
    rules: Seq<ServiceProbeMatchRule>,
    matched: Seq<bool>,
    n: int,
) -> Option<int>
    decreases n,
{
    if n <= 0 {
        None
    } else if matched[n - 1] && suggests(names, rules[n - 1]) {
        Some(n - 1)
    } else {
        last_suggestion(names, rules, matched, n - 1)
    }
}

/// The classification that a response gets from `rules`, where `matched`
/// tells which rules match it: the service of the first rule that matched and
/// decides; failing that, the service of the last rule that matched and only
/// suggests; failing that, none.
pub open spec fn spec_select(
    names: Seq<&'static str>,
    rules: Seq<ServiceProbeMatchRule>,
    matched: Seq<bool>,
    protocol: Protocol,
    port: u16,
) -> Option<Service> {
    match first_decisive(names, rules, matched, rules.len() as int) {
        Some(h) => Some(rule_service(rules[h], protocol, port)),
        None => match last_suggestion(names, rules, matched, rules.len() as int) {
            Some(s) => Some(rule_service(rules[s], protocol, port)),
            None => None,
        },
    }
}

proof fn lemma_first_decisive_stays(
    names: Seq<&'static str>,
    rules: Seq<ServiceProbeMatchRule>,
    matched: Seq<bool>,
    n: int,
    m: int,
)
    requires
        n <= m,
        first_decisive(names, rules, matched, n) is Some,
    ensures
        first_decisive(names, rules, matched, m) == first_decisive(names, rules, matched, n),
    decreases m - n,
{
    if m > n {
        lemma_first_decisive_stays(names, rules, matched, n, m - 1);
    }
}

proof fn lemma_last_suggestion_range(
    names: Seq<&'static str>,
    rules: Seq<ServiceProbeMatchRule>,
    matched: Seq<bool>,
    n: int,
)
    ensures
        last_suggestion(names, rules, matched, n) matches Some(s) ==> 0 <= s < n,
    decreases n,
{
    if n > 0 {
        lemma_last_suggestion_range(names, rules, matched, n - 1);
    }
}

/// Which of `rules` match `response`.
pub open spec fn matches_of(rules: Seq<ServiceProbeMatchRule>, response: Seq<u8>) -> Seq<bool> {
    Seq::new(rules.len(), |j: int| rule_matches(rules[j], response))
}

/// Whether `name` is `unknown`.
fn is_unknown(name: &str) -> (r: bool)
    ensures
        r == (name.spec_bytes() == unknown_name()),
{
    let b = name.as_bytes();
    if b.len() != 7 {
        return false;
    }
    let r = b[0] == 117u8 && b[1] == 110u8 && b[2] == 107u8 && b[3] == 110u8 && b[4] == 111u8
        && b[5] == 119u8 && b[6] == 110u8;
    if r {
        assert(b@ =~= unknown_name());
    } else {
        assert(b@ != unknown_name());
    }
    r
}

/// Whether a matching `rule` only suggests its service.
fn only_suggests(db: &ServiceDatabase, rule: &ServiceProbeMatchRule) -> (r: bool)
    requires
        rule.service_name_index < db.names@.len(),
    ensures
        r == suggests(db.names@, *rule),
{
    rule.is_soft_match && !is_unknown(db.names[rule.service_name_index as usize])
}

/// The classification that a response gets from `rules`, given which of them
/// match it in `matched`.
pub fn select_match(
    db: &ServiceDatabase,
    rules: &[ServiceProbeMatchRule],
    matched: &[bool],
    protocol: Protocol,
    port: u16,
) -> (r: Option<Service>)
    requires
        rules_in_table(rules@, db.names@.len() as int),
        matched@.len() == rules@.len(),
    ensures
        r == spec_select(db.names@, rules@, matched@, protocol, port),
{
    let mut soft: Option<Service> = None;
    let mut j: usize = 0;
    while j < rules.len()
        invariant
            0 <= j <= rules@.len(),
            matched@.len() == rules@.len(),
            rules_in_table(rules@, db.names@.len() as int),
            first_decisive(db.names@, rules@, matched@, j as int) is None,
            soft == match last_suggestion(db.names@, rules@, matched@, j as int) {
                Some(s) => Some(rule_service(rules@[s], protocol, port)),
                None => None,
            },
        decreases rules@.len() - j,
    {
        let rule = &rules[j];
        if matched[j] {
            let service = Service { name_index: rule.service_name_index, protocol, port };
            if only_suggests(db, rule) {
                soft = Some(service);
            } else {
                proof {
                    lemma_first_decisive_stays(db.names@, rules@, matched@, j + 1, rules@.len() as int);
                }
                return Some(service);
            }
        }
        proof {
            lemma_last_suggestion_range(db.names@, rules@, matched@, j + 1);
        }
        j = j + 1;
    }
    soft
}

/// The classification that `response` gets from `rules`: each rule's pattern
/// is tried in order; the first match that decides wins at once, else the
/// last soft match that does not name `unknown`.
pub fn evaluate_rules(
    db: &ServiceDatabase,
    rules: &[ServiceProbeMatchRule],
    protocol: Protocol,
    port: u16,
    response: &[u8],
) -> (r: Option<Service>)
    requires
        rules_in_table(rules@, db.names@.len() as int),
    ensures
        r == spec_select(db.names@, rules@, matches_of(rules@, response@), protocol, port),
{
    let ghost matched = matches_of(rules@, response@);
    let mut soft: Option<Service> = None;
    let mut j: usize = 0;
    while j < rules.len()
        invariant
            0 <= j <= rules@.len(),
            matched == matches_of(rules@, response@),
            rules_in_table(rules@, db.names@.len() as int),
            first_decisive(db.names@, rules@, matched, j as int) is None,
            soft == match last_suggestion(db.names@, rules@, matched, j as int) {
                Some(s) => Some(rule_service(rules@[s], protocol, port)),
                None => None,
            },
        decreases rules@.len() - j,
    {
        let rule = &rules[j];
        if rule.is_match(response) {
            let service = Service { name_index: rule.service_name_index, protocol, port };
            if only_suggests(db, rule) {
                soft = Some(service);
            } else {
                proof {
                    lemma_first_decisive_stays(db.names@, rules@, matched, j + 1, rules@.len() as int);
                }
                return Some(service);
            }
        }
        proof {
            lemma_last_suggestion_range(db.names@, rules@, matched, j + 1);
        }
        j = j + 1;
    }
    soft
}

} // verus!
