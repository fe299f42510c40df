use port_sniffer::config::{ConfigError, ScanConfig, Target};
use port_sniffer::ports::port_order;
use port_sniffer::result::PortResult;
use port_sniffer::scan::scan_ports_with;
use port_sniffer::service::get_service_name;
use port_sniffer::session::ScanSession;

fn config(threads: u16, timeout: u64, randomize: bool) -> ScanConfig {
    ScanConfig { ipaddr: Target::V4(0x7f00_0001), threads, timeout, delay: 0, randomize }
}

fn table_with_open(open: &[u16]) -> Vec<bool> {
    let mut t = vec![false; 1024];
    for p in open {
        t[(*p - 1) as usize] = true;
    }
    t
}

#[test]
fn service_table_lookups() {
    assert_eq!(get_service_name(80), Some("HTTP".to_string()));
    assert_eq!(get_service_name(22), Some("SSH".to_string()));
    assert_eq!(get_service_name(1), None);
    assert_eq!(get_service_name(20), Some("FTP-DATA".to_string()));
    assert_eq!(get_service_name(995), Some("POP3S".to_string()));
    assert_eq!(get_service_name(1024), None);
}

#[test]
fn service_lookup_is_repeatable() {
    for p in 0..=u16::MAX {
        assert_eq!(get_service_name(p), get_service_name(p));
    }
}

#[test]
fn port_result_takes_name_from_table() {
    let r = PortResult::new(443, true);
    assert_eq!(r.port, 443);
    assert!(r.is_open);
    assert_eq!(r.service, Some("HTTPS".to_string()));
    let r = PortResult::new(7, false);
    assert!(!r.is_open);
    assert_eq!(r.service, None);
}

#[test]
fn ascending_order_without_randomize() {
    let v = port_order(false, 99);
    let expected: Vec<u16> = (1..=1024).collect();
    assert_eq!(v, expected);
}

#[test]
fn randomized_order_is_permutation() {
    let expected: Vec<u16> = (1..=1024).collect();
    for seed in [0u64, 1, 42, 123456789, u64::MAX] {
        let v = port_order(true, seed);
        assert_eq!(v.len(), 1024);
        let mut sorted = v.clone();
        sorted.sort();
        assert_eq!(sorted, expected);
    }
    assert_ne!(port_order(true, 42), expected);
}

#[test]
fn listener_on_ssh_only() {
    let table = table_with_open(&[22]);
    let r = scan_ports_with(config(4, 50, false), 0, &table).unwrap();
    assert_eq!(r.len(), 1);
    assert_eq!(r[0].port, 22);
    assert!(r[0].is_open);
    assert_eq!(r[0].service, Some("SSH".to_string()));
}

#[test]
fn unreachable_target_completes_empty() {
    let table = vec![false; 1024];
    let r = scan_ports_with(config(4, 10, true), 7, &table).unwrap();
    assert!(r.is_empty());
}

#[test]
fn worker_count_does_not_change_open_set() {
    let table = table_with_open(&[1, 21, 80, 443, 1000, 1024]);
    let one = scan_ports_with(config(1, 100, false), 0, &table).unwrap();
    let eight = scan_ports_with(config(8, 100, true), 5, &table).unwrap();
    let ports_one: Vec<u16> = one.iter().map(|r| r.port).collect();
    let ports_eight: Vec<u16> = eight.iter().map(|r| r.port).collect();
    assert_eq!(ports_one, vec![1, 21, 80, 443, 1000, 1024]);
    assert_eq!(ports_one, ports_eight);
    assert_eq!(one[2].service, Some("HTTP".to_string()));
    assert_eq!(one[0].service, None);
}

#[test]
fn zero_threads_refused_before_probing() {
    let table = table_with_open(&[22]);
    assert_eq!(
        scan_ports_with(config(0, 100, false), 0, &table).err(),
        Some(ConfigError::ZeroThreads)
    );
    assert_eq!(ScanSession::start(config(0, 100, false), 0).err(), Some(ConfigError::ZeroThreads));
}

#[test]
fn zero_timeout_refused() {
    let table = vec![false; 1024];
    assert_eq!(
        scan_ports_with(config(2, 0, false), 0, &table).err(),
        Some(ConfigError::ZeroTimeout)
    );
    assert_eq!(config(0, 0, false).validate(), Err(ConfigError::ZeroThreads));
    assert_eq!(config(3, 5, false).validate(), Ok(()));
}

#[test]
fn session_keeps_worker_bound() {
    let mut s = match ScanSession::start(config(3, 100, false), 0) {
        Ok(s) => s,
        Err(_) => panic!("valid configuration refused"),
    };
    assert_eq!(s.next_probe(), Some(1));
    assert_eq!(s.next_probe(), Some(2));
    assert_eq!(s.next_probe(), Some(3));
    assert_eq!(s.next_probe(), None);
    assert!(s.results().is_none());
    assert!(!s.record(4, true));
    assert!(!s.record(0, true));
    assert!(s.record(2, true));
    assert!(!s.record(2, false));
    assert_eq!(s.next_probe(), Some(4));
    assert!(!s.is_complete());
}

#[test]
fn session_full_run_reports_every_port() {
    let mut s = match ScanSession::start(config(2, 100, true), 11) {
        Ok(s) => s,
        Err(_) => panic!("valid configuration refused"),
    };
    let mut flying = Vec::new();
    let mut seen = vec![0u32; 1024];
    while !s.is_complete() {
        match s.next_probe() {
            Some(p) => {
                seen[(p - 1) as usize] += 1;
                flying.push(p);
            }
            None => {
                let p = flying.remove(0);
                assert!(s.record(p, p == 53 || p == 993));
            }
        }
    }
    assert!(seen.iter().all(|c| *c == 1));
    let all = s.results().unwrap();
    assert_eq!(all.len(), 1024);
    for (i, r) in all.iter().enumerate() {
        assert_eq!(r.port as usize, i + 1);
        assert_eq!(r.is_open, r.port == 53 || r.port == 993);
    }
    let open = s.open_results().unwrap();
    let ports: Vec<u16> = open.iter().map(|r| r.port).collect();
    assert_eq!(ports, vec![53, 993]);
    assert_eq!(open[0].service, Some("DNS".to_string()));
    assert_eq!(open[1].service, Some("IMAPS".to_string()));
}

#[test]
fn shuffle_is_fixed_by_seed() {
    assert_eq!(port_order(true, 42), port_order(true, 42));
    assert_ne!(port_order(true, 1), port_order(true, 2));
    let mut s = match ScanSession::start(config(1, 100, true), 42) {
        Ok(s) => s,
        Err(_) => panic!("valid configuration refused"),
    };
    let order = port_order(true, 42);
    assert_eq!(s.next_probe(), Some(order[0]));
}
