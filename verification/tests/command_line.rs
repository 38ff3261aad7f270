use happy_ip_scanner::cli::{
    cli_targets, format_for_path, targets_with_local, output_plan, scan_options_from_args, CliArgs, OutputFormat, OutputPlan,
    PingMethodArg,
};
use happy_ip_scanner::ip_range::TargetParse;
use happy_ip_scanner::pinger::PingMethod;

fn args(ports: &str) -> CliArgs {
    CliArgs {
        target: Some("192.168.1.0/24".to_string()),
        gui: false,
        ports: ports.to_string(),
        threads: 10,
        timeout: 800,
        ping: PingMethodArg::Combined,
        output: None,
        format: OutputFormat::Json,
        alive_only: true,
        no_dns: true,
        no_mac: false,
        no_banner: true,
        random: None,
        scan_dead: false,
    }
}

#[test]
fn output_format_follows_extension() {
    assert_eq!(format_for_path("out.JSON"), OutputFormat::Json);
    assert_eq!(format_for_path("alive.txt"), OutputFormat::Txt);
    assert_eq!(format_for_path("scan.csv"), OutputFormat::Csv);
    assert_eq!(format_for_path("scan"), OutputFormat::Csv);
}

#[test]
fn extension_is_taken_from_the_file_name_only() {
    assert_eq!(format_for_path("reports.json/scan"), OutputFormat::Csv);
    assert_eq!(format_for_path("dir/run.Txt"), OutputFormat::Txt);
    assert_eq!(format_for_path(".json"), OutputFormat::Csv);
    assert_eq!(format_for_path("a.tar.json"), OutputFormat::Json);
}

#[test]
fn command_line_becomes_scan_options() {
    let opts = scan_options_from_args(&args("443, 22")).unwrap();
    assert_eq!(opts.ports, vec![22, 443]);
    assert_eq!(opts.ping_method, PingMethod::Combined);
    assert_eq!(opts.threads, 10);
    assert_eq!(opts.timeout_ms, 800);
    assert!(!opts.resolve_hostname);
    assert!(opts.lookup_mac);
    assert!(!opts.fetch_web_title);
    assert!(!opts.scan_dead_hosts);
    assert!(scan_options_from_args(&args("   ")).unwrap().ports.is_empty());
}

#[test]
fn port_list_without_ports_is_an_error() {
    let err = scan_options_from_args(&args("abc, 0")).err().unwrap();
    assert_eq!(err, "No valid ports in 'abc, 0'");
}

#[test]
fn ping_arguments_map_to_methods() {
    assert_eq!(PingMethod::from(PingMethodArg::Tcp), PingMethod::TcpPort);
    assert_eq!(PingMethod::from(PingMethodArg::Icmp), PingMethod::Icmp);
    assert_eq!(PingMethod::from(PingMethodArg::Always), PingMethod::AlwaysScan);
}

#[test]
fn results_go_where_the_flags_say() {
    assert_eq!(output_plan(OutputFormat::Table, None), OutputPlan::Table);
    assert_eq!(
        output_plan(OutputFormat::Table, Some("scan.json")),
        OutputPlan::TableAndFile(OutputFormat::Json)
    );
    assert_eq!(output_plan(OutputFormat::Txt, Some("scan.json")), OutputPlan::File(OutputFormat::Txt));
    assert_eq!(output_plan(OutputFormat::Csv, None), OutputPlan::Stdout(OutputFormat::Csv));
}

#[test]
fn command_line_targets() {
    let mut a = args("80");
    match cli_targets(&a, 3) {
        TargetParse::Parsed(Ok(v)) => assert_eq!(v.len(), 254),
        _ => panic!("a /24 target"),
    }
    a.target = Some("nas.local".to_string());
    assert!(matches!(cli_targets(&a, 3), TargetParse::Resolve(h) if h == "nas.local"));
    a.random = Some(5);
    match cli_targets(&a, 3) {
        TargetParse::Parsed(Ok(v)) => assert_eq!(v.len(), 5),
        _ => panic!("random addresses"),
    }
    a.random = None;
    a.target = None;
    match cli_targets(&a, 3) {
        TargetParse::Parsed(Ok(v)) => assert_eq!(v.len(), 254),
        TargetParse::Parsed(Err(e)) => assert!(e.starts_with("No target specified")),
        TargetParse::Resolve(_) => panic!("the local range is never resolved"),
    }
}

#[test]
fn local_detection_decides_the_default_targets() {
    let mut a = args("80");
    a.target = None;
    let base = u32::from_be_bytes([192, 168, 4, 0]);
    match targets_with_local(&a, 1, Some((base + 20, base + 1, base + 254))) {
        TargetParse::Parsed(Ok(v)) => assert_eq!(v.len(), 254),
        _ => panic!("the detected /24"),
    }
    match targets_with_local(&a, 1, None) {
        TargetParse::Parsed(Err(e)) => assert!(e.starts_with("No target specified and no local network detected")),
        _ => panic!("no network detected"),
    }
}
