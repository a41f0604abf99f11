use nmap_db::{
    service_probe_exclude, DatabaseError, Port, Protocol, Service, ServiceDatabase,
    ServiceOpenFrequency, ServiceProbe, ServiceProbeMatchRule,
};

const NAMES: &[&str] = &["ftp", "http", "redis", "ssh", "unknown"];

fn probe(name: &'static str, fallback: Option<&'static str>, rules: &'static [ServiceProbeMatchRule]) -> ServiceProbe {
    ServiceProbe {
        probename: name,
        probestring: b"",
        protocol: Protocol::Tcp,
        fallback,
        ports: None,
        sslports: None,
        rarity: None,
        tcpwrappedms: None,
        totalwaitms: None,
        rules,
    }
}

fn leak<T>(v: Vec<T>) -> &'static [T] {
    Box::leak(v.into_boxed_slice())
}

fn sample_db() -> ServiceDatabase {
    let probes = leak(vec![
        probe(
            "NULL",
            None,
            &[ServiceProbeMatchRule {
                is_soft_match: false,
                service_name_index: 3,
                pattern: b"m|^SSH-([\\d.]+)-|",
                versioninfo: &[b"p/OpenSSH/", b"v/$1/"],
            }],
        ),
        probe("GetRequest", Some("NULL"), &[]),
    ]);
    ServiceDatabase::new(NAMES, probes, &[]).unwrap()
}

#[test]
fn service_new_resolves_every_name() {
    let db = sample_db();
    for (i, name) in NAMES.iter().enumerate() {
        let s = Service::new(&db, name, Protocol::Tcp, 80).unwrap();
        assert_eq!(s.name_index as usize, i);
        assert_eq!(s.service_index(), i);
        assert_eq!(s.service_name(&db), *name);
        assert_eq!(s.protocol, Protocol::Tcp);
        assert_eq!(s.port, 80);
        assert_eq!(db.resolve_service_name(name), Some(i as u16));
    }
}

#[test]
fn service_new_rejects_unknown_name() {
    let db = sample_db();
    assert_eq!(Service::new(&db, "gopher", Protocol::Tcp, 70), Err(()));
    assert_eq!(Service::new(&db, "", Protocol::Udp, 1), Err(()));
    assert_eq!(Service::new(&db, "sshd", Protocol::Tcp, 22), Err(()));
    assert_eq!(db.resolve_service_name("aaa"), None);
    assert_eq!(db.resolve_service_name("zzz"), None);
}

#[test]
fn service_text_form() {
    let db = sample_db();
    let s = Service::new(&db, "http", Protocol::Tcp, 80).unwrap();
    assert_eq!(s.to_string(&db), "tcp/80 http");
    let s = Service::new(&db, "ssh", Protocol::Udp, 65535).unwrap();
    assert_eq!(s.to_string(&db), "udp/65535 ssh");
    let s = Service::new(&db, "ftp", Protocol::Sctp, 0).unwrap();
    assert_eq!(s.to_string(&db), "sctp/0 ftp");
}

#[test]
fn protocol_predicates() {
    assert!(Protocol::Tcp.is_tcp() && !Protocol::Tcp.is_udp() && !Protocol::Tcp.is_sctp());
    assert!(Protocol::Udp.is_udp() && !Protocol::Udp.is_tcp() && !Protocol::Udp.is_sctp());
    assert!(Protocol::Sctp.is_sctp() && !Protocol::Sctp.is_tcp() && !Protocol::Sctp.is_udp());
    assert_eq!(Protocol::Udp.label(), "udp");
}

#[test]
fn rejects_unsorted_names() {
    let r = ServiceDatabase::new(&["http", "ftp"], &[], &[]);
    assert_eq!(r.unwrap_err(), DatabaseError::NamesNotSorted(1));
    let r = ServiceDatabase::new(&["a", "b", "b"], &[], &[]);
    assert_eq!(r.unwrap_err(), DatabaseError::NamesNotSorted(2));
}

#[test]
fn rejects_too_many_names() {
    let names: Vec<&'static str> = (0..0x10001u32).map(|i| &*Box::leak(format!("{:06}", i).into_boxed_str())).collect();
    let r = ServiceDatabase::new(leak(names), &[], &[]);
    assert_eq!(r.unwrap_err(), DatabaseError::TooManyNames);
}

#[test]
fn rejects_rule_naming_no_service() {
    let probes = leak(vec![probe(
        "NULL",
        None,
        &[ServiceProbeMatchRule { is_soft_match: false, service_name_index: 5, pattern: b"m|x|", versioninfo: &[] }],
    )]);
    assert_eq!(ServiceDatabase::new(NAMES, probes, &[]).unwrap_err(), DatabaseError::InvalidProbe(0));
}

#[test]
fn rejects_unresolved_fallback() {
    let probes = leak(vec![probe("NULL", None, &[]), probe("GetRequest", Some("Missing"), &[])]);
    assert_eq!(ServiceDatabase::new(NAMES, probes, &[]).unwrap_err(), DatabaseError::InvalidProbe(1));
}

#[test]
fn rejects_sctp_probe_bad_rarity_and_backward_range() {
    let mut p = probe("NULL", None, &[]);
    p.protocol = Protocol::Sctp;
    assert_eq!(ServiceDatabase::new(NAMES, leak(vec![p]), &[]).unwrap_err(), DatabaseError::InvalidProbe(0));
    let mut p = probe("NULL", None, &[]);
    p.rarity = Some(10);
    assert_eq!(ServiceDatabase::new(NAMES, leak(vec![p]), &[]).unwrap_err(), DatabaseError::InvalidProbe(0));
    let mut p = probe("NULL", None, &[]);
    p.rarity = Some(9);
    p.ports = Some(&[Port::Range((10, 5))]);
    assert_eq!(ServiceDatabase::new(NAMES, leak(vec![p]), &[]).unwrap_err(), DatabaseError::InvalidProbe(0));
    let mut p = probe("NULL", None, &[]);
    p.sslports = Some(&[Port::Number(443), Port::Range((5, 10))]);
    assert!(ServiceDatabase::new(NAMES, leak(vec![p]), &[]).is_ok());
}

#[test]
fn rejects_frequency_naming_no_service() {
    let freqs = leak(vec![ServiceOpenFrequency {
        service: Service { name_index: 9, protocol: Protocol::Tcp, port: 80 },
        open_frequency: 10,
    }]);
    assert_eq!(ServiceDatabase::new(NAMES, &[], freqs).unwrap_err(), DatabaseError::InvalidFrequency(0));
}

#[test]
fn fallback_probe_finds_named_probe() {
    let db = sample_db();
    let get = db.probes[1];
    let fb = get.fallback_probe(&db).unwrap();
    assert_eq!(fb.name(), "NULL");
    assert_eq!(fb.protocol(), Protocol::Tcp);
    assert!(db.probes[0].fallback_probe(&db).is_none());
}

#[test]
fn every_rule_names_a_service_and_every_fallback_resolves() {
    let db = sample_db();
    for p in db.probes {
        for r in p.rules {
            assert!((r.service_name_index as usize) < db.names.len());
        }
        if let Some(n) = p.fallback {
            assert_eq!(p.fallback_probe(&db).unwrap().probename, n);
        }
    }
}

#[test]
fn names_are_strictly_sorted() {
    let db = sample_db();
    for w in db.names.windows(2) {
        assert!(w[0] < w[1]);
    }
    for (i, n) in db.names.iter().enumerate() {
        assert_eq!(db.names.binary_search(n), Ok(i));
    }
}

#[test]
fn rule_accessors() {
    let db = sample_db();
    let rule = db.probes[0].rules[0];
    assert_eq!(rule.service_name(&db), "ssh");
    assert_eq!(rule.pattern(), "m|^SSH-([\\d.]+)-|");
    assert_eq!(rule.version_info(), vec!["p/OpenSSH/", "v/$1/"]);
    assert!(rule.is_match(b"SSH-2.0-OpenSSH_8.0\r\n"));
    assert!(!rule.is_match(b"HTTP/1.1 200 OK\r\n"));
}

#[test]
fn rule_with_non_text_pattern_matches_nothing() {
    let rule = ServiceProbeMatchRule { is_soft_match: false, service_name_index: 0, pattern: &[b'm', b'|', 0xff, b'|'], versioninfo: &[] };
    assert!(!rule.is_match(&[0xffu8]));
}

#[test]
fn probe_accessors() {
    let mut p = probe("GetRequest", None, &[]);
    p.probestring = b"GET / HTTP/1.0\r\n\r\n";
    assert_eq!(p.name(), "GetRequest");
    assert_eq!(p.probestring(), "GET / HTTP/1.0\r\n\r\n");
    assert_eq!(p.protocol(), Protocol::Tcp);
}

#[test]
fn frequencies_compare_by_frequency_only() {
    let a = ServiceOpenFrequency { service: Service { name_index: 0, protocol: Protocol::Tcp, port: 21 }, open_frequency: 500 };
    let b = ServiceOpenFrequency { service: Service { name_index: 1, protocol: Protocol::Udp, port: 80 }, open_frequency: 500 };
    let c = ServiceOpenFrequency { service: Service { name_index: 0, protocol: Protocol::Tcp, port: 21 }, open_frequency: 0 };
    assert!(a == b);
    assert!(a != c);
    assert_eq!(a.partial_cmp(&b), Some(std::cmp::Ordering::Equal));
    assert_eq!(c.partial_cmp(&a), Some(std::cmp::Ordering::Less));
    assert!(a > c);
}

#[test]
fn port_membership_and_exclusion() {
    assert!(Port::Number(53).contains(53));
    assert!(!Port::Number(53).contains(54));
    assert!(Port::Range((30000, 40000)).contains(30000));
    assert!(Port::Range((30000, 40000)).contains(40000));
    assert!(!Port::Range((30000, 40000)).contains(40001));
    let ex = service_probe_exclude();
    assert!(ex.excludes(53, Protocol::Tcp));
    assert!(ex.excludes(53, Protocol::Udp));
    assert!(ex.excludes(9100, Protocol::Tcp));
    assert!(!ex.excludes(9100, Protocol::Udp));
    assert!(ex.excludes(35000, Protocol::Udp));
    assert!(!ex.excludes(35000, Protocol::Tcp));
    assert!(!ex.excludes(80, Protocol::Tcp));
    assert!(!ex.excludes(9100, Protocol::Sctp));
}
