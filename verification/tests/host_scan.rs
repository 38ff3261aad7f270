use happy_ip_scanner::export::csv_text;
use happy_ip_scanner::pinger::{
    icmp_wait_secs, next_probe, ping_args, ping_succeeded, tcp_ping_ports, PingMethod, PingOs, Probe,
};
use happy_ip_scanner::scanner::{
    fetchers_for, host_is_alive, pick_web_port, should_scan_ports, web_timeout_ms, worker_count,
    host_status, HostStatus, ScanOptions, ScanReport, ScanTally,
};
use happy_ip_scanner::vendor::{lookup_vendor, vendor_for_mac};

#[test]
fn csv_text_leaves_ordinary_values_alone() {
    assert_eq!(csv_text("router.local"), "router.local");
    assert_eq!(csv_text("Apple, Inc."), "Apple, Inc.");
    assert_eq!(csv_text(""), "");
}

#[test]
fn csv_text_quotes_formula_starts() {
    assert_eq!(csv_text("=HYPERLINK(\"x\")"), "'=HYPERLINK(\"x\")");
    assert_eq!(csv_text("-2+3"), "'-2+3");
    assert_eq!(csv_text("@SUM(1)"), "'@SUM(1)");
    assert_eq!(csv_text("+cmd"), "'+cmd");
    assert_eq!(csv_text("\tx"), "'\tx");
    assert_eq!(csv_text("a=b"), "a=b");
}

#[test]
fn probes_follow_the_ping_method() {
    assert_eq!(next_probe(PingMethod::TcpPort, None), Some(Probe::Tcp));
    assert_eq!(next_probe(PingMethod::Icmp, None), Some(Probe::Icmp));
    assert_eq!(next_probe(PingMethod::AlwaysScan, None), None);
    assert_eq!(next_probe(PingMethod::Combined, None), Some(Probe::Tcp));
    assert_eq!(next_probe(PingMethod::Combined, Some((Probe::Tcp, false))), Some(Probe::Icmp));
    assert_eq!(next_probe(PingMethod::Combined, Some((Probe::Tcp, true))), None);
    assert_eq!(next_probe(PingMethod::Combined, Some((Probe::Icmp, false))), None);
    assert_eq!(next_probe(PingMethod::TcpPort, Some((Probe::Tcp, false))), None);
}

#[test]
fn ping_ports_and_wait() {
    assert_eq!(tcp_ping_ports(&[]), vec![80, 443, 22, 445, 139]);
    assert_eq!(tcp_ping_ports(&[8080]), vec![8080]);
    assert_eq!(icmp_wait_secs(100), 1);
    assert_eq!(icmp_wait_secs(1000), 1);
    assert_eq!(icmp_wait_secs(1001), 2);
    assert_eq!(icmp_wait_secs(2500), 3);
}

#[test]
fn method_labels() {
    assert_eq!(PingMethod::TcpPort.label(), "TCP Port Ping");
    assert_eq!(PingMethod::Combined.label(), "Combined (TCP, then ICMP)");
    assert_eq!(PingMethod::default(), PingMethod::TcpPort);
}

#[test]
fn port_scan_and_liveness_decisions() {
    let mut opts = ScanOptions::default();
    assert_eq!(opts.ports, vec![22, 80, 443, 8080]);
    assert!(should_scan_ports(true, &opts));
    assert!(!should_scan_ports(false, &opts));
    opts.scan_dead_hosts = true;
    assert!(should_scan_ports(false, &opts));
    opts.scan_dead_hosts = false;
    opts.ping_method = PingMethod::AlwaysScan;
    assert!(should_scan_ports(false, &opts));
    opts.ports.clear();
    assert!(!should_scan_ports(true, &opts));

    assert!(host_is_alive(true, &[]));
    assert!(host_is_alive(false, &[22]));
    assert!(!host_is_alive(false, &[]));
}

#[test]
fn fetcher_and_worker_decisions() {
    assert_eq!(pick_web_port(&[22, 8080, 80]), Some(8080));
    assert_eq!(pick_web_port(&[22, 443]), None);
    assert_eq!(web_timeout_ms(200), 200);
    assert_eq!(web_timeout_ms(5000), 1500);
    let opts = ScanOptions::default();
    assert_eq!(fetchers_for(true, &opts), (true, true, true));
    assert_eq!(fetchers_for(false, &opts), (false, false, false));
    assert_eq!(worker_count(0), 1);
    assert_eq!(worker_count(64), 64);
}

#[test]
fn vendor_lookup_by_oui() {
    assert_eq!(lookup_vendor("3C:07:54:12:34:56"), Some("Apple, Inc."));
    assert_eq!(lookup_vendor("b8-27-eb-00-11-22"), Some("Raspberry Pi"));
    assert_eq!(lookup_vendor("b827.eb00.1122"), Some("Raspberry Pi"));
    assert_eq!(lookup_vendor("12:34:56:78:9a:bc"), None);
    assert_eq!(lookup_vendor("3C:07"), None);
    assert_eq!(vendor_for_mac("00:11:32:aa:bb:cc"), Some("Synology Inc."));
    assert_eq!(vendor_for_mac("ééé:éé"), None);
}

#[test]
fn scan_tally_counts_reports() {
    let mut t = ScanTally::new();
    t.apply(ScanReport::Started(3));
    t.apply(ScanReport::Host(true));
    t.apply(ScanReport::Progress);
    t.apply(ScanReport::Host(false));
    assert_eq!(t, ScanTally { total_ips: 3, scanned_count: 2, alive_count: 1, finished: false });
    t.apply(ScanReport::Stopped);
    assert!(t.finished);
    t.apply(ScanReport::Host(true));
    assert_eq!((t.scanned_count, t.alive_count, t.finished), (3, 2, true));
    let mut d = ScanTally::new();
    d.apply(ScanReport::Disconnected);
    assert!(d.finished);
    let mut f = ScanTally::new();
    f.apply(ScanReport::Finished);
    assert!(f.finished && f.scanned_count == 0);
}

#[test]
fn status_kinds() {
    assert_eq!(host_status(true, true), HostStatus::AliveWithPorts);
    assert_eq!(host_status(true, false), HostStatus::Alive);
    assert_eq!(host_status(false, true), HostStatus::Dead);
}

#[test]
fn vendor_of_short_and_mixed_keys() {
    assert_eq!(lookup_vendor("B8:27"), None);
    assert_eq!(lookup_vendor(""), None);
    assert_eq!(lookup_vendor("b8:27:EB"), Some("Raspberry Pi"));
    assert_eq!(lookup_vendor("B8-27-eb-ff-ff-ff"), lookup_vendor("b827eb000000"));
    assert_eq!(vendor_for_mac("b8:27:eb:12:34:56"), Some("Raspberry Pi"));
}

#[test]
fn ping_command_per_system() {
    let w = ping_args(PingOs::Windows, 800);
    assert_eq!((w.count_flag, w.wait_flag, w.wait), ("-n", "-w", 800));
    let m = ping_args(PingOs::MacOs, 800);
    assert_eq!((m.count_flag, m.wait_flag, m.wait), ("-c", "-W", 800));
    let l = ping_args(PingOs::Other, 800);
    assert_eq!((l.count_flag, l.wait_flag, l.wait), ("-c", "-W", 1));
    let reply = "Reply from 10.0.0.1: bytes=32 time<1ms TTL=64";
    let unreachable = "Reply from 10.0.0.2: Destination host unreachable.";
    assert!(ping_succeeded(PingOs::Windows, true, reply));
    assert!(!ping_succeeded(PingOs::Windows, true, unreachable));
    assert!(!ping_succeeded(PingOs::Windows, false, reply));
    assert!(ping_succeeded(PingOs::Other, true, ""));
    assert!(!ping_succeeded(PingOs::MacOs, false, ""));
}
