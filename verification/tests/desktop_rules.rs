use happy_ip_scanner::cli::OutputFormat;
use happy_ip_scanner::gui::{
    compare_hosts, host_count, matches_filter, netmask_range_end, next_sort, targets_for,
    url_scheme, HostRow, Order, ScanMode, ScannerPreferences, SortColumn,
};
use happy_ip_scanner::ip_range::{IpAddress, TargetParse};
use happy_ip_scanner::pinger::PingMethod;
use happy_ip_scanner::scanner::ScanOptions;

fn v4(a: u8, b: u8, c: u8, d: u8) -> IpAddress {
    IpAddress::V4(u32::from_be_bytes([a, b, c, d]))
}

fn row(ip: [u8; 4], alive: bool, hostname: Option<&str>, ports: Vec<u16>) -> HostRow {
    HostRow {
        ip: v4(ip[0], ip[1], ip[2], ip[3]),
        is_alive: alive,
        hostname: hostname.map(|h| h.to_string()),
        open_ports: ports,
        mac_address: None,
        vendor: Some("Acme".to_string()),
    }
}

fn ip_text(r: &HostRow) -> String {
    match r.ip {
        IpAddress::V4(x) => {
            let b = x.to_be_bytes();
            format!("{}.{}.{}.{}", b[0], b[1], b[2], b[3])
        }
        IpAddress::V6(x) => format!("{x:x}"),
    }
}

fn filter(r: &HostRow, query: &str, alive_only: bool) -> bool {
    matches_filter(
        &ip_text(r),
        r.is_alive,
        r.hostname.as_deref(),
        r.vendor.as_deref(),
        &r.open_ports,
        query,
        alive_only,
    )
}

fn sort_rows(rows: &mut [HostRow], column: SortColumn, ascending: bool) {
    rows.sort_by(|a, b| {
        let ord = match compare_hosts(a, b, column).expect("not the ping column") {
            Order::Less => std::cmp::Ordering::Less,
            Order::Equal => std::cmp::Ordering::Equal,
            Order::Greater => std::cmp::Ordering::Greater,
        };
        if ascending { ord } else { ord.reverse() }
    });
}

fn len_of(t: TargetParse) -> Result<usize, String> {
    match t {
        TargetParse::Parsed(r) => r.map(|v| v.len()),
        TargetParse::Resolve(h) => Err(format!("needs resolution: {h}")),
    }
}

#[test]
fn filter_matches_ip_hostname_vendor_and_ports() {
    let h = row([192, 168, 1, 5], true, Some("Printer.Local"), vec![9100]);
    assert!(filter(&h, "", false));
    assert!(filter(&h, "1.5", false));
    assert!(filter(&h, "printer", false));
    assert!(filter(&h, "acme", false));
    assert!(filter(&h, "9100", false));
    assert!(!filter(&h, "nas", false));

    let dead = row([192, 168, 1, 6], false, None, vec![]);
    assert!(filter(&dead, "", false));
    assert!(!filter(&dead, "", true));
}

#[test]
fn sorting_toggles_direction_only_on_same_column() {
    let mut rows = vec![
        row([10, 0, 0, 2], true, Some("b"), vec![80]),
        row([10, 0, 0, 1], false, None, vec![]),
        row([10, 0, 0, 3], true, Some("a"), vec![80, 443]),
    ];
    let (mut column, mut ascending) = (SortColumn::Ip, true);

    (column, ascending) = next_sort(column, ascending, SortColumn::Ports);
    assert!(ascending);
    sort_rows(&mut rows, column, ascending);
    let counts: Vec<usize> = rows.iter().map(|r| r.open_ports.len()).collect();
    assert_eq!(counts, vec![0, 1, 2]);

    (column, ascending) = next_sort(column, ascending, SortColumn::Ports);
    assert!(!ascending);
    sort_rows(&mut rows, column, ascending);
    let counts: Vec<usize> = rows.iter().map(|r| r.open_ports.len()).collect();
    assert_eq!(counts, vec![2, 1, 0]);

    (column, ascending) = next_sort(column, ascending, SortColumn::Ip);
    assert!(ascending);
    sort_rows(&mut rows, column, ascending);
    assert_eq!(rows[0].ip, v4(10, 0, 0, 1));
}

#[test]
fn text_columns_sort_with_missing_values_first() {
    let a = row([10, 0, 0, 1], true, Some("alpha"), vec![]);
    let b = row([10, 0, 0, 2], true, Some("beta"), vec![]);
    let none = row([10, 0, 0, 3], true, None, vec![]);
    assert_eq!(compare_hosts(&a, &b, SortColumn::Hostname), Some(Order::Less));
    assert_eq!(compare_hosts(&b, &a, SortColumn::Hostname), Some(Order::Greater));
    assert_eq!(compare_hosts(&none, &a, SortColumn::Hostname), Some(Order::Less));
    assert_eq!(compare_hosts(&a, &a, SortColumn::Hostname), Some(Order::Equal));
    assert_eq!(compare_hosts(&a, &b, SortColumn::Ping), None);
    let six = HostRow { ip: IpAddress::V6(1), ..a.clone() };
    assert_eq!(compare_hosts(&six, &a, SortColumn::Ip), Some(Order::Greater));
    let dead = HostRow { is_alive: false, ..a.clone() };
    assert_eq!(compare_hosts(&dead, &a, SortColumn::Status), Some(Order::Less));
    let short = row([10, 0, 0, 1], true, Some("alp"), vec![]);
    assert_eq!(compare_hosts(&short, &a, SortColumn::Hostname), Some(Order::Less));
}

#[test]
fn targets_follow_the_selected_mode() {
    assert_eq!(len_of(targets_for(ScanMode::IpRange, "10.0.0.1", "10.0.0.4", 24, 100, 1)), Ok(4));
    assert_eq!(len_of(targets_for(ScanMode::IpRange, "10.0.0.0/30", "", 24, 100, 1)), Ok(2));
    assert!(len_of(targets_for(ScanMode::IpRange, "not an ip", "10.0.0.4", 24, 100, 1)).is_err());
    assert_eq!(len_of(targets_for(ScanMode::Netmask, "192.168.1.37", "", 28, 100, 1)), Ok(14));
    assert_eq!(len_of(targets_for(ScanMode::Random, "", "", 24, 7, 1)), Ok(7));
}

#[test]
fn range_mode_error_names_both_boxes() {
    match targets_for(ScanMode::IpRange, " nope ", "10.0.0.4", 24, 1, 1) {
        TargetParse::Parsed(Err(e)) => assert_eq!(e, "'nope' to '10.0.0.4' is not a valid IPv4 range"),
        _ => panic!("expected an error"),
    }
    assert!(matches!(
        targets_for(ScanMode::IpRange, "router.local", "", 24, 1, 1),
        TargetParse::Resolve(h) if h == "router.local"
    ));
}

#[test]
fn netmask_host_counts_and_urls() {
    assert_eq!(host_count(24), 254);
    assert_eq!(host_count(30), 2);
    assert_eq!(host_count(31), 0);
    assert_eq!(host_count(32), 0);
    assert_eq!(format!("{}://{}:{}", url_scheme(443), "10.0.0.1", 443), "https://10.0.0.1:443");
    assert_eq!(format!("{}://{}:{}", url_scheme(8080), "10.0.0.1", 8080), "http://10.0.0.1:8080");
    assert_eq!(url_scheme(8443), "https");
}

#[test]
fn netmask_end_fills_the_second_box() {
    assert_eq!(netmask_range_end("192.168.1.37", 24), Some(v4(192, 168, 1, 254)));
    assert_eq!(netmask_range_end("192.168.1.37", 28), Some(v4(192, 168, 1, 46)));
    assert_eq!(netmask_range_end("not an ip", 24), None);
}

#[test]
fn defaults_match_engine_defaults() {
    let opts = ScannerPreferences::default().to_scan_options();
    let engine = ScanOptions::default();
    assert_eq!(opts.ports, engine.ports);
    assert_eq!(opts.threads, engine.threads);
    assert_eq!(opts.timeout_ms, engine.timeout_ms);
}

#[test]
fn preferences_defaults() {
    let prefs = ScannerPreferences::default();
    assert_eq!(prefs.ping_method, PingMethod::TcpPort);
    assert!(prefs.resolve_hostname);
    assert!(!prefs.scan_dead_hosts);
    assert_eq!(prefs.ports_str, "80, 443, 22, 8080");
    let _ = OutputFormat::Csv;
}

#[test]
fn sort_toggle_law_on_values() {
    assert_eq!(next_sort(SortColumn::Ip, true, SortColumn::Ip), (SortColumn::Ip, false));
    assert_eq!(next_sort(SortColumn::Ip, false, SortColumn::Ip), (SortColumn::Ip, true));
    assert_eq!(next_sort(SortColumn::Ip, false, SortColumn::Vendor), (SortColumn::Vendor, true));
}

#[test]
fn filter_lower_cases_ascii_fields() {
    let h = row([10, 0, 0, 9], true, Some("NAS-Box"), vec![]);
    assert!(filter(&h, "nas-box", false));
    assert!(!filter(&h, "NAS", false));
}

#[test]
fn sorting_is_transitive_on_text() {
    let a = row([10, 0, 0, 1], true, Some("a"), vec![]);
    let b = row([10, 0, 0, 2], true, Some("ab"), vec![]);
    let c = row([10, 0, 0, 3], true, Some("b"), vec![]);
    assert_eq!(compare_hosts(&a, &b, SortColumn::Hostname), Some(Order::Less));
    assert_eq!(compare_hosts(&b, &c, SortColumn::Hostname), Some(Order::Less));
    assert_eq!(compare_hosts(&a, &c, SortColumn::Hostname), Some(Order::Less));
}
