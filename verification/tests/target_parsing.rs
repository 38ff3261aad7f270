use happy_ip_scanner::ip_range::{
    block_size, detect_local_range, generate_from_cidr, local_range_of, generate_random_ips, generate_range_v4, is_public_ipv4,
    parse_ipv4, parse_range, parse_target, resolved_targets, IpAddress, TargetParse,
};

fn v4(a: u8, b: u8, c: u8, d: u8) -> IpAddress {
    IpAddress::V4(u32::from_be_bytes([a, b, c, d]))
}

fn ip(a: u8, b: u8, c: u8, d: u8) -> u32 {
    u32::from_be_bytes([a, b, c, d])
}

fn parsed(target: &str) -> Result<Vec<IpAddress>, String> {
    match parse_target(target) {
        TargetParse::Parsed(r) => r,
        TargetParse::Resolve(h) => panic!("{target} was handed back for resolution as {h}"),
    }
}

#[test]
fn cidr_parsing() {
    let ips = generate_from_cidr("192.168.1.0/30").unwrap();
    assert_eq!(ips, vec![v4(192, 168, 1, 1), v4(192, 168, 1, 2)]);
    assert_eq!(generate_from_cidr("10.0.0.5/32").unwrap(), vec![v4(10, 0, 0, 5)]);
    assert_eq!(generate_from_cidr("10.0.0.0/24").unwrap().len(), 254);
    assert!(generate_from_cidr("10.0.0.0/33").is_err());
}

#[test]
fn range_parsing() {
    let ips = parsed("10.0.0.1 - 10.0.0.3").unwrap();
    assert_eq!(ips, vec![v4(10, 0, 0, 1), v4(10, 0, 0, 2), v4(10, 0, 0, 3)]);
}

#[test]
fn reversed_range_is_ascending() {
    let ips = parsed("10.0.0.3-10.0.0.1").unwrap();
    assert_eq!(ips, vec![v4(10, 0, 0, 1), v4(10, 0, 0, 2), v4(10, 0, 0, 3)]);
}

#[test]
fn short_range_parsing() {
    let ips = parsed("192.168.1.1-3").unwrap();
    assert_eq!(ips, vec![v4(192, 168, 1, 1), v4(192, 168, 1, 2), v4(192, 168, 1, 3)]);
}

#[test]
fn invalid_range_end_is_an_error() {
    let err = parsed("192.168.1.1-999.1").unwrap_err();
    assert!(err.contains("Invalid end IP"), "{err}");
}

#[test]
fn single_addresses() {
    assert_eq!(parsed("1.1.1.1").unwrap(), vec![v4(1, 1, 1, 1)]);
    // IPv6 literals are handed back for the caller to parse and resolve.
    assert!(matches!(parse_target("::1"), TargetParse::Resolve(h) if h == "::1"));
    assert!(parsed("   ").is_err());
}

#[test]
fn hyphenated_hostnames_are_not_ranges() {
    assert!(parse_range("my-nas.local").is_none());
    assert!(parse_range("scanme-nmap.org").is_none());
    assert!(parse_range("192.168.1.1-254").is_some());
}

#[test]
fn host_names_are_handed_back_trimmed() {
    assert!(matches!(parse_target("  router.local "), TargetParse::Resolve(h) if h == "router.local"));
    assert!(matches!(parse_target("localhost"), TargetParse::Resolve(h) if h == "localhost"));
}

#[test]
fn random_ips_are_public_and_counted() {
    let ips = generate_random_ips(200, 0x5eed);
    assert_eq!(ips.len(), 200);
    for addr in ips {
        let IpAddress::V4(v4) = addr else {
            panic!("expected IPv4")
        };
        assert!(is_public_ipv4(v4), "{v4} is not public");
    }
}

#[test]
fn random_ips_follow_the_seed() {
    assert_eq!(generate_random_ips(25, 7), generate_random_ips(25, 7));
    assert_ne!(generate_random_ips(25, 7), generate_random_ips(25, 8));
    assert!(generate_random_ips(0, 7).is_empty());
}

#[test]
fn public_ip_classification() {
    assert!(is_public_ipv4(ip(1, 1, 1, 1)));
    assert!(is_public_ipv4(ip(8, 8, 8, 8)));
    for private in [
        ip(10, 1, 2, 3),
        ip(172, 16, 0, 1),
        ip(192, 168, 1, 1),
        ip(127, 0, 0, 1),
        ip(169, 254, 1, 1),
        ip(100, 64, 0, 1),
        ip(224, 0, 0, 1),
        ip(0, 1, 2, 3),
        ip(198, 18, 0, 1),
        ip(203, 0, 113, 9),
    ] {
        assert!(!is_public_ipv4(private), "{private} should not be public");
    }
}

#[test]
fn small_prefixes_and_bad_cidrs() {
    // A /31 and a /32 stand for the network address alone.
    assert_eq!(generate_from_cidr("10.0.0.4/31").unwrap(), vec![v4(10, 0, 0, 4)]);
    // Host bits are cleared before the hosts are listed.
    assert_eq!(generate_from_cidr("10.0.0.7/30").unwrap(), vec![v4(10, 0, 0, 5), v4(10, 0, 0, 6)]);
    let err = generate_from_cidr("not/24").unwrap_err();
    assert_eq!(err, "Invalid CIDR: invalid IP address syntax");
    assert_eq!(block_size(24), 256);
    assert_eq!(block_size(0), 1u64 << 32);
}

#[test]
fn ipv4_text_and_ranges() {
    assert_eq!(parse_ipv4("192.168.0.1"), Some(ip(192, 168, 0, 1)));
    assert_eq!(parse_ipv4("192.168.00.1"), None);
    assert_eq!(parse_ipv4("256.1.1.1"), None);
    assert_eq!(parse_ipv4("1.2.3"), None);
    assert_eq!(generate_range_v4(ip(10, 0, 0, 2), ip(10, 0, 0, 2)), vec![v4(10, 0, 0, 2)]);
    assert_eq!(generate_range_v4(ip(10, 0, 0, 2), ip(10, 0, 0, 1)).len(), 2);
    assert!(parse_range("10.0.0.1-").is_some());
}

#[test]
fn resolved_names_are_sorted_and_unique() {
    let six = IpAddress::V6(1);
    let got = resolved_targets("box", vec![six, v4(10, 0, 0, 2), v4(10, 0, 0, 1), v4(10, 0, 0, 2)]).unwrap();
    assert_eq!(got, vec![v4(10, 0, 0, 1), v4(10, 0, 0, 2), six]);
    let err = resolved_targets("nowhere", vec![]).unwrap_err();
    assert_eq!(err, "Unable to parse target 'nowhere' as CIDR, IP range, IP address, or hostname");
}

#[test]
fn range_order_does_not_matter() {
    let a = ip(10, 0, 1, 250);
    let b = ip(10, 0, 2, 3);
    let up = generate_range_v4(a, b);
    assert_eq!(up, generate_range_v4(b, a));
    assert_eq!(up.len(), 10);
    assert_eq!(up[0], IpAddress::V4(a));
    assert_eq!(*up.last().unwrap(), IpAddress::V4(b));
}

#[test]
fn local_range_from_address_text() {
    assert_eq!(
        local_range_of("192.168.7.42"),
        Some((ip(192, 168, 7, 42), ip(192, 168, 7, 1), ip(192, 168, 7, 254)))
    );
    assert_eq!(local_range_of("fe80::1"), None);
    if let Some((local, start, end)) = detect_local_range() {
        assert_eq!(start, (local & 0xFFFF_FF00) + 1);
        assert_eq!(end, (local & 0xFFFF_FF00) + 254);
    }
}

#[test]
fn cidr_text_as_ipnet_reads_it() {
    assert_eq!(generate_from_cidr("010.0.0.1/30").unwrap(), vec![v4(10, 0, 0, 1), v4(10, 0, 0, 2)]);
    assert!(generate_from_cidr("10.0.0.1/030").is_err());
    assert!(generate_from_cidr("10.0.0.1/24/1").is_err());
    assert!(generate_from_cidr("10.0.0.256/24").is_err());
    assert!(generate_from_cidr("10.0.0.1").is_err());
}
