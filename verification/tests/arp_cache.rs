use happy_ip_scanner::arp::{normalize_mac, parse_bsd_arp, parse_proc_net_arp, parse_windows_arp};

fn some(s: &str) -> Option<String> {
    Some(s.to_string())
}

#[test]
fn normalizes_padding_case_and_separators() {
    assert_eq!(normalize_mac("3c:7:3f:1a:2b:c"), some("3C:07:3F:1A:2B:0C"));
    assert_eq!(normalize_mac("3C-7C-3F-1A-2B-3C"), some("3C:7C:3F:1A:2B:3C"));
    assert_eq!(normalize_mac("b4:a7:c6:f9:80:be"), some("B4:A7:C6:F9:80:BE"));
}

#[test]
fn rejects_placeholders_and_garbage() {
    assert_eq!(normalize_mac("(incomplete)"), None);
    assert_eq!(normalize_mac("00:00:00:00:00:00"), None);
    assert_eq!(normalize_mac("3c:7c:3f:1a:2b"), None);
    assert_eq!(normalize_mac("zz:7c:3f:1a:2b:3c"), None);
    assert_eq!(normalize_mac(""), None);
}

#[test]
fn parses_bsd_arp_output() {
    let out = "? (192.168.29.1) at b4:a7:c6:f9:80:be on en0 ifscope [ethernet]\n";
    assert_eq!(parse_bsd_arp(out, "192.168.29.1"), some("B4:A7:C6:F9:80:BE"));
    let incomplete = "? (192.168.29.2) at (incomplete) on en0 ifscope [ethernet]\n";
    assert_eq!(parse_bsd_arp(incomplete, "192.168.29.2"), None);
    assert_eq!(parse_bsd_arp(out, "192.168.29.10"), None);
}

#[test]
fn parses_proc_net_arp() {
    let content = "IP address       HW type     Flags       HW address            Mask     Device\n\
                   192.168.1.1      0x1         0x2         3c:7c:3f:1a:2b:3c     *        eth0\n\
                   192.168.1.10     0x1         0x0         00:00:00:00:00:00     *        eth0\n";
    assert_eq!(parse_proc_net_arp(content, "192.168.1.1"), some("3C:7C:3F:1A:2B:3C"));
    assert_eq!(parse_proc_net_arp(content, "192.168.1.10"), None);
    assert_eq!(parse_proc_net_arp(content, "192.168.1.2"), None);
}

#[test]
fn parses_windows_arp_output() {
    let out = "\nInterface: 192.168.1.10 --- 0xc\n  Internet Address      Physical Address      Type\n  192.168.1.1           3c-7c-3f-1a-2b-3c     dynamic\n";
    assert_eq!(parse_windows_arp(out, "192.168.1.1"), some("3C:7C:3F:1A:2B:3C"));
    assert_eq!(parse_windows_arp(out, "192.168.1.10"), None);
}

#[test]
fn dotted_and_bare_mac_forms() {
    // Colons and dashes may be mixed; each part is one or two hex digits.
    assert_eq!(normalize_mac(" a:b-c:d-e:f "), some("0A:0B:0C:0D:0E:0F"));
    assert_eq!(normalize_mac("a.b.c.d.e.f"), None);
    assert_eq!(normalize_mac("3c:7c:3f:1a:2b:3c:4d"), None);
    assert_eq!(normalize_mac("3c:7c:3f:1a:2b:3cc"), None);
    assert_eq!(normalize_mac("ff:ff:ff:ff:ff:ff"), some("FF:FF:FF:FF:FF:FF"));
}

#[test]
fn first_matching_arp_line_wins() {
    let out = "? (10.0.0.5) at (incomplete) on en0\n? (10.0.0.5) at 1:2:3:4:5:6 on en1\n";
    // A matching line without a usable MAC is passed over.
    assert_eq!(parse_bsd_arp(out, "10.0.0.5"), some("01:02:03:04:05:06"));
    let windows = "  10.0.0.7   aa-bb-cc-dd-ee-ff   dynamic\n";
    assert_eq!(parse_windows_arp(windows, "10.0.0.7"), some("AA:BB:CC:DD:EE:FF"));
    assert_eq!(parse_proc_net_arp("", "10.0.0.7"), None);
}

#[test]
fn normalized_macs_are_canonical() {
    for raw in ["3c:7:3f:1a:2b:c", "a-b-c-d-e-f", " FF:ff:0:0:0:1 "] {
        let m = normalize_mac(raw).unwrap();
        assert_eq!(m.len(), 17);
        for (k, c) in m.chars().enumerate() {
            if k % 3 == 2 {
                assert_eq!(c, ':');
            } else {
                assert!(c.is_ascii_digit() || ('A'..='F').contains(&c), "{m}");
            }
        }
        assert_eq!(normalize_mac(&m), Some(m.clone()));
    }
}
