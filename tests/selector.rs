use nmap_db::{top_probes, top_service_detect, Protocol, Service, ServiceDatabase, ServiceOpenFrequency, ServiceProbe, ServiceProbeMatchRule};

fn leak<T>(v: Vec<T>) -> &'static [T] {
    Box::leak(v.into_boxed_slice())
}

fn rules(indices: &[u16]) -> &'static [ServiceProbeMatchRule] {
    leak(indices.iter().map(|&i| ServiceProbeMatchRule { is_soft_match: false, service_name_index: i, pattern: b"m|x|", versioninfo: &[] }).collect())
}

fn probe(name: &'static str, protocol: Protocol, idx: &[u16]) -> ServiceProbe {
    ServiceProbe {
        probename: name,
        probestring: b"",
        protocol,
        fallback: None,
        ports: None,
        sslports: None,
        rarity: None,
        tcpwrappedms: None,
        totalwaitms: None,
        rules: rules(idx),
    }
}

fn row(name_index: u16, protocol: Protocol, port: u16, open_frequency: u32) -> ServiceOpenFrequency {
    ServiceOpenFrequency { service: Service { name_index, protocol, port }, open_frequency }
}

fn db() -> ServiceDatabase {
    let names: &'static [&'static str] = &["a", "b", "c", "d", "e", "f", "g", "h"];
    let probes = leak(vec![
        probe("first", Protocol::Tcp, &[0, 1]),
        probe("second", Protocol::Tcp, &[2]),
        probe("third", Protocol::Udp, &[2, 3]),
        probe("fourth", Protocol::Tcp, &[4, 5, 6, 7]),
        probe("fifth", Protocol::Tcp, &[3]),
    ]);
    let freqs = leak(vec![
        row(0, Protocol::Tcp, 80, 100),
        row(2, Protocol::Tcp, 80, 300),
        row(2, Protocol::Udp, 80, 300),
        row(1, Protocol::Tcp, 80, 200),
        row(7, Protocol::Tcp, 80, 50),
        row(4, Protocol::Sctp, 80, 400),
        row(3, Protocol::Tcp, 80, 10),
        row(6, Protocol::Tcp, 443, 999),
    ]);
    ServiceDatabase::new(names, probes, freqs).unwrap()
}

#[test]
fn rows_rank_by_frequency_ties_in_table_order() {
    assert_eq!(top_service_detect(&db(), 80), vec![5, 1, 2, 3, 0, 4, 6]);
    assert_eq!(top_service_detect(&db(), 443), vec![7]);
    assert_eq!(top_service_detect(&db(), 8080), Vec::<usize>::new());
}

#[test]
fn top_probes_follow_ranked_services() {
    // The SCTP row counts among the six but chooses no probe; the seventh row
    // is past the limit; a probe chosen twice is listed once.
    assert_eq!(top_probes(&db(), 80), vec![1, 2, 0, 3]);
}

#[test]
fn top_probes_of_port_with_one_service() {
    assert_eq!(top_probes(&db(), 443), vec![3]);
}

#[test]
fn top_probes_of_unknown_port_is_empty() {
    assert!(top_probes(&db(), 1).is_empty());
}

#[test]
fn service_without_probe_chooses_none() {
    let names: &'static [&'static str] = &["a", "b"];
    let probes = leak(vec![probe("first", Protocol::Tcp, &[0])]);
    let freqs = leak(vec![row(1, Protocol::Tcp, 7, 5), row(0, Protocol::Udp, 7, 4), row(0, Protocol::Tcp, 7, 3)]);
    let db = ServiceDatabase::new(names, probes, freqs).unwrap();
    assert_eq!(top_probes(&db, 7), vec![0]);
}
