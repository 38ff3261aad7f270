use happy_ip_scanner::ports::{format_ports, parse_ports};

#[test]
fn parses_lists_ranges_and_whitespace() {
    assert_eq!(parse_ports("80, 443, 80"), vec![80, 443]);
    assert_eq!(parse_ports("8000-8003, 22"), vec![22, 8000, 8001, 8002, 8003]);
    assert_eq!(parse_ports(" 80 , 443 "), vec![80, 443]);
}

#[test]
fn handles_reversed_ranges_and_junk() {
    assert_eq!(parse_ports("25-22"), vec![22, 23, 24, 25]);
    assert_eq!(parse_ports("abc, 80, 70000, -, 0"), vec![80]);
    assert!(parse_ports("").is_empty());
    assert!(parse_ports(" , ,").is_empty());
}

#[test]
fn formats_ports() {
    assert_eq!(format_ports(&[], ", "), "");
    assert_eq!(format_ports(&[80, 443], ", "), "80, 443");
    assert_eq!(format_ports(&[80, 443], ";"), "80;443");
}

#[test]
fn full_range_and_range_edges() {
    let all = parse_ports("1-65535");
    assert_eq!(all.len(), 65535);
    assert_eq!(all[0], 1);
    assert_eq!(all[65534], 65535);
    // A range that starts at zero keeps its non-zero ports.
    assert_eq!(parse_ports("0-2"), vec![1, 2]);
    // A range with an end past 65535 is skipped whole.
    assert_eq!(parse_ports("65530-65536, 7"), vec![7]);
    assert_eq!(parse_ports("5-5"), vec![5]);
}

#[test]
fn parsed_ports_format_back() {
    let ports = parse_ports("443,22,80");
    assert_eq!(format_ports(&ports, ","), "22,80,443");
    assert_eq!(format_ports(&[7], " | "), "7");
}

#[test]
fn formatted_lists_parse_back() {
    for ports in [vec![], vec![1], vec![22, 80, 443, 8080], vec![7, 65535]] {
        for sep in [",", ", "] {
            assert_eq!(parse_ports(&format_ports(&ports, sep)), ports);
        }
    }
}
