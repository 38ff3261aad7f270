use happy_ip_scanner::web_banner::{
    collapse_whitespace, decode_entities, extract_banner, extract_server_header,
    extract_status_line, extract_title, has_complete_title, truncate, MAX_BANNER_CHARS,
};

#[test]
fn prefers_title_over_server_header() {
    let response = "HTTP/1.1 200 OK\r\nServer: nginx\r\n\r\n<html><head><title>\n  My &amp; Router  \n</title></head></html>";
    assert_eq!(extract_banner(response), Some("My & Router".to_string()));
}

#[test]
fn handles_title_attributes_and_mixed_case() {
    let response = "HTTP/1.1 200 OK\r\n\r\n<HTML><TITLE lang=\"en\">Dashboard</TITLE></HTML>";
    assert_eq!(extract_banner(response), Some("Dashboard".to_string()));
}

#[test]
fn falls_back_to_server_header_then_status_line() {
    let with_server =
        "HTTP/1.1 404 Not Found\r\nContent-Type: text/plain\r\nserver:  Apache/2.4 \r\n\r\nnope";
    assert_eq!(extract_banner(with_server), Some("Server: Apache/2.4".to_string()));

    let status_only = "HTTP/1.1 403 Forbidden\r\nContent-Length: 0\r\n\r\n";
    assert_eq!(extract_banner(status_only), Some("403 Forbidden".to_string()));

    assert_eq!(extract_banner(""), None);
    assert_eq!(extract_banner("garbage"), None);
}

#[test]
fn ignores_server_header_inside_body() {
    let response = "HTTP/1.1 200 OK\r\n\r\nServer: fake-in-body";
    assert_eq!(extract_banner(response), Some("200 OK".to_string()));
}

#[test]
fn non_ascii_before_title_does_not_break_slicing() {
    let response = "HTTP/1.1 200 OK\r\n\r\n<html><p>İstanbul Ünïcode</p><title>Ok</title>";
    assert_eq!(extract_banner(response), Some("Ok".to_string()));
}

#[test]
fn truncates_long_titles() {
    let long = "x".repeat(500);
    let response = format!("HTTP/1.1 200 OK\r\n\r\n<title>{long}</title>");
    let banner = extract_banner(&response).unwrap();
    assert_eq!(banner.chars().count(), MAX_BANNER_CHARS);
    assert!(banner.ends_with('…'));
}

#[test]
fn entity_decoding_and_whitespace() {
    assert_eq!(decode_entities("a &lt;b&gt; &quot;c&quot; &#39;d&#39; &amp;amp;"), "a <b> \"c\" 'd' &amp;");
    assert_eq!(collapse_whitespace("  a \n\t b  "), "a b");
    assert_eq!(collapse_whitespace(""), "");
}

#[test]
fn truncation_keeps_short_text() {
    assert_eq!(truncate("short"), "short");
    let exact = "y".repeat(MAX_BANNER_CHARS);
    assert_eq!(truncate(&exact), exact);
    let over = "z".repeat(MAX_BANNER_CHARS + 1);
    let cut = truncate(&over);
    assert_eq!(cut.chars().count(), MAX_BANNER_CHARS);
    assert!(cut.ends_with('…'));
}

#[test]
fn title_extraction_edges() {
    assert_eq!(extract_title("<title></title>"), None);
    assert_eq!(extract_title("<title>   </title>"), None);
    assert_eq!(extract_title("<title>unterminated"), None);
    assert_eq!(extract_title("<TiTlE>Mixed</tItLe>"), Some("Mixed".to_string()));
}

#[test]
fn header_and_status_edges() {
    assert_eq!(extract_server_header("HTTP/1.1 200 OK\r\nServer:\r\n\r\n"), None);
    assert_eq!(
        extract_server_header("HTTP/1.1 200 OK\r\nSERVER: lighttpd\r\n\r\n"),
        Some("Server: lighttpd".to_string())
    );
    assert_eq!(extract_status_line("HTTP/1.0 301 Moved Permanently\r\n"), Some("301 Moved Permanently".to_string()));
    assert_eq!(extract_status_line("ICY 200 OK\r\n"), None);
    assert_eq!(extract_status_line("HTTP/1.1\r\n"), None);
}

#[test]
fn complete_title_detection() {
    assert!(has_complete_title(b"<html><TITLE>x</Title>"));
    assert!(!has_complete_title(b"<html><title>x"));
    assert!(!has_complete_title(b""));
}

#[test]
fn every_banner_is_short_and_non_empty() {
    let long_server = format!("HTTP/1.1 200 OK\r\nServer: {}\r\n\r\n", "s".repeat(300));
    let long_status = format!("HTTP/1.1 200 {}\r\n", "o".repeat(300));
    for response in [long_server.as_str(), long_status.as_str(), "HTTP/1.1 200 OK\r\n"] {
        let b = extract_banner(response).unwrap();
        assert!(!b.is_empty() && b.chars().count() <= MAX_BANNER_CHARS);
    }
}

#[test]
fn banners_are_trimmed() {
    let long = format!("HTTP/1.1 200 OK\r\n\r\n<title>{} end</title>", "w ".repeat(100));
    for response in ["HTTP/1.1 200 OK\r\n\r\n<title>  a  b </title>", "HTTP/1.1 200 OK\r\nServer:   x  \r\n\r\n", long.as_str()] {
        let b = extract_banner(response).unwrap();
        assert_eq!(b.trim(), b);
    }
}
