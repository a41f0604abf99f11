use nmap_db::{
    evaluate_rules, select_match, Action, Detection, ProbeOutcome, Protocol, Service,
    ServiceDatabase, ServiceOpenFrequency, ServiceProbe, ServiceProbeMatchRule,
};

const FINGER: u16 = 0;
const HTTP: u16 = 1;
const REDIS: u16 = 2;
const SSH: u16 = 3;
const UNKNOWN: u16 = 4;

fn leak<T>(v: Vec<T>) -> &'static [T] {
    Box::leak(v.into_boxed_slice())
}

fn rule(soft: bool, index: u16, pattern: &'static [u8]) -> ServiceProbeMatchRule {
    ServiceProbeMatchRule { is_soft_match: soft, service_name_index: index, pattern, versioninfo: &[] }
}

fn probe(
    name: &'static str,
    payload: &'static [u8],
    protocol: Protocol,
    fallback: Option<&'static str>,
    rules: Vec<ServiceProbeMatchRule>,
) -> ServiceProbe {
    ServiceProbe {
        probename: name,
        probestring: payload,
        protocol,
        fallback,
        ports: None,
        sslports: None,
        rarity: None,
        tcpwrappedms: None,
        totalwaitms: None,
        rules: leak(rules),
    }
}

fn db() -> ServiceDatabase {
    let names: &'static [&'static str] = &["finger", "http", "redis", "ssh", "unknown"];
    let probes = leak(vec![
        probe("NULL", b"", Protocol::Tcp, None, vec![rule(false, SSH, b"m|^SSH-([\\d.]+)-|")]),
        probe(
            "GetRequest",
            b"GET / HTTP/1.0\r\n\r\n",
            Protocol::Tcp,
            None,
            vec![
                rule(false, REDIS, b"m|^-ERR wrong number of arguments for 'get' command\r\n$|"),
                rule(false, HTTP, b"m|^HTTP/1\\.[01] \\d\\d\\d |"),
            ],
        ),
        probe(
            "GenericLines",
            b"\r\n\r\n",
            Protocol::Tcp,
            Some("GetRequest"),
            vec![rule(true, FINGER, b"m|^Login|"), rule(true, HTTP, b"m|^HTTP/1\\.|")],
        ),
        probe("DNSStatusRequest", b"\0\0\x10\0\0\0\0\0\0\0\0\0", Protocol::Udp, None, vec![]),
    ]);
    let freqs = leak(vec![
        ServiceOpenFrequency { service: Service { name_index: REDIS, protocol: Protocol::Tcp, port: 6379 }, open_frequency: 500 },
        ServiceOpenFrequency { service: Service { name_index: FINGER, protocol: Protocol::Tcp, port: 79 }, open_frequency: 300 },
    ]);
    ServiceDatabase::new(names, probes, freqs).unwrap()
}

/// Runs a detection against a scripted peer; gives the classification and
/// the probes that were run.
fn run(db: &ServiceDatabase, port: u16, peer: &dyn Fn(&ServiceProbe) -> ProbeOutcome) -> (Option<Service>, Vec<usize>) {
    let mut d = Detection::new(db, port);
    let mut action = d.start(db);
    let mut ran = Vec::new();
    loop {
        match action {
            Action::Probe(i) => {
                ran.push(i);
                assert!(ran.len() <= db.probes.len());
                action = d.on_outcome(db, peer(&db.probes[i]));
            },
            Action::Finished(r) => return (r, ran),
        }
    }
}

fn reply(bytes: &[u8]) -> ProbeOutcome {
    ProbeOutcome::Received(bytes.to_vec())
}

#[test]
fn banner_on_null_probe_is_ssh() {
    let db = db();
    let (r, ran) = run(&db, 22, &|_| reply(b"SSH-2.0-OpenSSH_8.0\r\n"));
    assert_eq!(r, Some(Service { name_index: SSH, protocol: Protocol::Tcp, port: 22 }));
    assert_eq!(ran, vec![0]);
}

#[test]
fn redis_error_on_get_request() {
    let db = db();
    let peer = |p: &ServiceProbe| {
        if p.probename == "GetRequest" {
            reply(b"-ERR wrong number of arguments for 'get' command\r\n")
        } else {
            reply(b"")
        }
    };
    let (r, ran) = run(&db, 6379, &peer);
    assert_eq!(r, Some(Service { name_index: REDIS, protocol: Protocol::Tcp, port: 6379 }));
    assert_eq!(ran, vec![1]);
}

#[test]
fn http_answer_found_after_null_probe() {
    let db = db();
    let (r, ran) = run(&db, 80, &|_| reply(b"HTTP/1.1 400 Bad Request\r\nServer: nginx/1.15.7\r\n\r\n"));
    assert_eq!(r, Some(Service { name_index: HTTP, protocol: Protocol::Tcp, port: 80 }));
    assert_eq!(ran, vec![0, 1]);
}

#[test]
fn peer_that_closes_at_once_gives_none() {
    let db = db();
    let (r, ran) = run(&db, 80, &|_| reply(b""));
    assert_eq!(r, None);
    assert_eq!(ran, vec![0, 1, 2]);
}

#[test]
fn unreachable_peer_gives_none_without_fallbacks() {
    let db = db();
    let (r, ran) = run(&db, 79, &|_| ProbeOutcome::Unreachable);
    assert_eq!(r, None);
    assert_eq!(ran, vec![2, 0, 1]);
}

#[test]
fn response_matching_no_rule_gives_none_after_all_probes() {
    let db = db();
    let noise: Vec<u8> = (0u8..32).map(|i| i.wrapping_mul(37).wrapping_add(11)).collect();
    let (r, ran) = run(&db, 80, &|_| reply(&noise));
    assert_eq!(r, None);
    assert_eq!(ran, vec![0, 1, 2]);
}

#[test]
fn soft_match_reported_when_no_hard_match() {
    let db = db();
    let (r, _) = run(&db, 80, &|_| reply(b"HTTP/1.5 oops"));
    assert_eq!(r, Some(Service { name_index: HTTP, protocol: Protocol::Tcp, port: 80 }));
}

#[test]
fn failed_send_runs_fallback_in_place() {
    let db = db();
    let peer = |p: &ServiceProbe| match p.probename {
        "GenericLines" => ProbeOutcome::SendFailed,
        "GetRequest" => reply(b"HTTP/1.0 200 OK\r\n\r\n"),
        _ => reply(b""),
    };
    let (r, ran) = run(&db, 79, &peer);
    assert_eq!(r, Some(Service { name_index: HTTP, protocol: Protocol::Tcp, port: 79 }));
    assert_eq!(ran, vec![2, 1]);
}

#[test]
fn failed_receive_and_empty_reply_fall_back_too() {
    let db = db();
    let peer = |p: &ServiceProbe| match p.probename {
        "GenericLines" => ProbeOutcome::ReceiveFailed,
        "GetRequest" => reply(b"HTTP/1.0 200 OK\r\n\r\n"),
        _ => reply(b""),
    };
    assert_eq!(run(&db, 79, &peer).1, vec![2, 1]);
    let peer = |p: &ServiceProbe| match p.probename {
        "GetRequest" => reply(b"HTTP/1.0 200 OK\r\n\r\n"),
        _ => reply(b""),
    };
    assert_eq!(run(&db, 79, &peer).1, vec![2, 1]);
}

#[test]
fn cyclic_fallbacks_end_after_two_probes() {
    let names: &'static [&'static str] = &["http"];
    let probes = leak(vec![
        probe("A", b"a", Protocol::Tcp, Some("B"), vec![]),
        probe("B", b"b", Protocol::Tcp, Some("A"), vec![]),
    ]);
    let db = ServiceDatabase::new(names, probes, &[]).unwrap();
    let (r, ran) = run(&db, 80, &|_| ProbeOutcome::SendFailed);
    assert_eq!(r, None);
    assert_eq!(ran, vec![0, 1]);
    let (r, ran) = run(&db, 80, &|_| ProbeOutcome::ReceiveFailed);
    assert_eq!(r, None);
    assert!(ran.len() <= 2);
}

#[test]
fn detection_twice_gives_same_classification() {
    let db = db();
    let peer = |p: &ServiceProbe| match p.probename {
        "GetRequest" => reply(b"HTTP/1.0 404 Not Found\r\n\r\n"),
        _ => reply(b"banner\r\n"),
    };
    let first = run(&db, 8080, &peer);
    let second = run(&db, 8080, &peer);
    assert_eq!(first, second);
    assert_eq!(first.0, Some(Service { name_index: HTTP, protocol: Protocol::Tcp, port: 8080 }));
}

#[test]
fn start_on_empty_database_finishes() {
    let db = ServiceDatabase::new(&["http"], &[], &[]).unwrap();
    let mut d = Detection::new(&db, 80);
    assert_eq!(d.start(&db), Action::Finished(None));
}

#[test]
fn select_prefers_first_hard_match() {
    let db = db();
    let rules = [rule(true, HTTP, b""), rule(false, SSH, b""), rule(false, REDIS, b"")];
    let r = select_match(&db, &rules, &[true, true, true], Protocol::Tcp, 9);
    assert_eq!(r, Some(Service { name_index: SSH, protocol: Protocol::Tcp, port: 9 }));
    assert_eq!(select_match(&db, &rules, &[false, false, false], Protocol::Tcp, 9), None);
}

#[test]
fn select_keeps_last_soft_match() {
    let db = db();
    let rules = [rule(true, HTTP, b""), rule(true, FINGER, b""), rule(false, SSH, b"")];
    let r = select_match(&db, &rules, &[true, true, false], Protocol::Udp, 9);
    assert_eq!(r, Some(Service { name_index: FINGER, protocol: Protocol::Udp, port: 9 }));
}

#[test]
fn select_treats_soft_unknown_as_decisive() {
    let db = db();
    let rules = [rule(true, UNKNOWN, b""), rule(false, SSH, b"")];
    let r = select_match(&db, &rules, &[true, true], Protocol::Tcp, 9);
    assert_eq!(r, Some(Service { name_index: UNKNOWN, protocol: Protocol::Tcp, port: 9 }));
}

#[test]
fn evaluate_runs_patterns_in_order() {
    let db = db();
    let rules = [rule(true, FINGER, b"m|^Login|i"), rule(false, SSH, b"m|^nope|"), rule(true, HTTP, b"m|login|")];
    let r = evaluate_rules(&db, &rules, Protocol::Tcp, 79, b"login: ");
    assert_eq!(r, Some(Service { name_index: HTTP, protocol: Protocol::Tcp, port: 79 }));
    let r = evaluate_rules(&db, &rules, Protocol::Tcp, 79, b"LOGIN");
    assert_eq!(r, Some(Service { name_index: FINGER, protocol: Protocol::Tcp, port: 79 }));
    assert_eq!(evaluate_rules(&db, &rules, Protocol::Tcp, 79, b"x"), None);
}
