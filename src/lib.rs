//! Active service fingerprinting over the nmap service-probe database.
//!
//! The library holds the logic of detection: the adapter for nmap's pattern
//! dialect (`pattern`), the typed view of the probe database (`database`),
//! the choice of the probes most likely to succeed on a port (`selector`),
//! the classification of a response by a probe's rules (`evaluate`), and the
//! detection itself as a state machine that asks for probes to be run and
//! takes their outcomes (`engine`). Connecting, sending and reading are left
//! to the caller.

pub mod database;
pub mod engine;
pub mod evaluate;
pub mod pattern;
pub mod port;
pub mod search;
pub mod selector;
pub mod text;

pub use database::{
    DatabaseError, Service, ServiceDatabase, ServiceOpenFrequency, ServiceProbe,
    ServiceProbeMatchRule,
};
pub use engine::{Action, Detection, ProbeKey, ProbeOutcome};
pub use evaluate::{evaluate_rules, select_match};
pub use pattern::{parse_pattern, pcre2_is_match, RegexSource};
pub use port::{service_probe_exclude, MacVendor, Port, PortRange, PortSpecification, Protocol};
pub use selector::{top_probes, top_service_detect};
