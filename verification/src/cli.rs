//! Command-line settings: output formats, ping methods, and what a parsed command line
//! asks the scanner to do.
use vstd::prelude::*;
use vstd::string::StringExecFns;
use crate::ip_range::{
    ascending_range, detect_local_range, generate_random_ips, generate_range_v4, public_draws,
    res_view, start_state, target_result, IpAddress, TargetParse, parse_target,
};
use crate::pinger::PingMethod;
use crate::ports::{parse_ports, port_listed};
use crate::scanner::ScanOptions;
use crate::text::{
    chars_of, lower_ascii, lower_ascii_char, slices, split_on, split_windows, trim, trim_bounds,
    windows_within,
};

verus! {

/// How results are written.
#[derive(Clone, Copy, Debug, PartialEq, Eq, Structural)]
pub enum OutputFormat {
    /// Pretty table (default)
    Table,
    Csv,
    Json,
    /// One host per line
    Txt,
}

/// The liveness check chosen on the command line.
#[derive(Clone, Copy, Debug, PartialEq, Eq, Structural)]
pub enum PingMethodArg {
    /// TCP connect to common ports; works without root
    Tcp,
    /// ICMP echo via the system `ping` command
    Icmp,
    /// TCP first, then ICMP as a fallback
    Combined,
    /// No ping; a host is alive if any port is open
    Always,
}

pub open spec fn method_for(arg: PingMethodArg) -> PingMethod {
    match arg {
        PingMethodArg::Tcp => PingMethod::TcpPort,
        PingMethodArg::Icmp => PingMethod::Icmp,
        PingMethodArg::Combined => PingMethod::Combined,
        PingMethodArg::Always => PingMethod::AlwaysScan,
    }
}

impl From<PingMethodArg> for PingMethod {
    fn from(arg: PingMethodArg) -> (r: Self) {
        match arg {
            PingMethodArg::Tcp => PingMethod::TcpPort,
            PingMethodArg::Icmp => PingMethod::Icmp,
            PingMethodArg::Combined => PingMethod::Combined,
            PingMethodArg::Always => PingMethod::AlwaysScan,
        }
    }
}

impl vstd::std_specs::convert::FromSpecImpl<PingMethodArg> for PingMethod {
    open spec fn obeys_from_spec() -> bool {
        true
    }

    open spec fn from_spec(arg: PingMethodArg) -> PingMethod {
        method_for(arg)
    }
}

/// The command line, as the argument parser leaves it.
pub struct CliArgs {
    /// Target: IP, hostname, CIDR (192.168.1.0/24) or range (192.168.1.1-254).
    /// Defaults to the local /24 subnet when omitted.
    pub target: Option<String>,
    /// Launch the desktop GUI (also the default when run with no arguments)
    pub gui: bool,
    /// Ports to scan, e.g. "80,443,22,8000-8010"
    pub ports: String,
    /// Maximum number of hosts scanned concurrently
    pub threads: usize,
    /// Socket timeout per probe in milliseconds
    pub timeout: u64,
    /// Liveness check used before port scanning
    pub ping: PingMethodArg,
    /// Write results to this file (format from --format, or guessed from the extension)
    pub output: Option<String>,
    /// Output format; non-table formats are written to stdout unless --output is given
    pub format: OutputFormat,
    /// Only display / export alive hosts
    pub alive_only: bool,
    /// Disable reverse DNS hostname resolution
    pub no_dns: bool,
    /// Disable MAC address / vendor lookup
    pub no_mac: bool,
    /// Disable HTTP web banner & title grabbing
    pub no_banner: bool,
    /// Generate and scan N random public IPv4 addresses instead of TARGET
    pub random: Option<usize>,
    /// Scan ports even on hosts that don't respond to ping
    pub scan_dead: bool,
}

pub open spec fn no_valid_ports_error(ports: Seq<char>) -> Seq<char> {
    "No valid ports in '"@ + ports + "'"@
}

/// The scan settings a command line asks for, or an error when its port list names no
/// port at all though it is not blank.
pub fn scan_options_from_args(args: &CliArgs) -> (r: Result<ScanOptions, String>)
    ensures
        match r {
            Ok(o) => {
                &&& (forall|p: u16|
                    o.ports@.contains(p) <==> (p != 0 && port_listed(args.ports@, p as nat)))
                &&& crate::ports::strictly_ascending(o.ports@)
                &&& (o.ports@.len() > 0 || trim(args.ports@).len() == 0)
                &&& o.ping_method == method_for(args.ping)
                &&& o.timeout_ms == args.timeout
                &&& o.threads == args.threads
                &&& o.resolve_hostname == !args.no_dns
                &&& o.lookup_mac == !args.no_mac
                &&& o.fetch_web_title == !args.no_banner
                &&& o.scan_dead_hosts == args.scan_dead
            },
            Err(e) => {
                &&& e@ == no_valid_ports_error(args.ports@)
                &&& trim(args.ports@).len() > 0
                &&& forall|p: u16| p != 0 ==> !port_listed(args.ports@, p as nat)
            },
        },
{
    let ports = parse_ports(args.ports.as_str());
    if ports.len() == 0 {
        let v = chars_of(args.ports.as_str());
        let (a, b) = trim_bounds(&v, 0, v.len());
        assert(v@.subrange(0, v.len() as int) =~= args.ports@);
        if a < b {
            assert forall|p: u16| p != 0 implies !port_listed(args.ports@, p as nat) by {
                if port_listed(args.ports@, p as nat) {
                    assert(ports@.contains(p));
                }
            }
            let mut msg = String::from_str("No valid ports in '");
            msg.append(args.ports.as_str());
            msg.append("'");
            return Err(msg);
        }
    }
    Ok(
        ScanOptions {
            ports,
            ping_method: args.ping.into(),
            timeout_ms: args.timeout,
            threads: args.threads,
            resolve_hostname: !args.no_dns,
            lookup_mac: !args.no_mac,
            fetch_web_title: !args.no_banner,
            scan_dead_hosts: args.scan_dead,
        },
    )
}

/// A path component that names a file or directory (not empty and not `.`).
pub open spec fn is_named_component(c: Seq<char>) -> bool {
    c.len() > 0 && c != seq!['.']
}

/// The last named component.
pub open spec fn last_named(parts: Seq<Seq<char>>) -> Option<Seq<char>>
    decreases parts.len(),
{
    if parts.len() == 0 {
        None
    } else if is_named_component(parts.last()) {
        Some(parts.last())
    } else {
        last_named(parts.drop_last())
    }
}

/// The final component of a `/`-separated path, unless it is `..` (`Path::file_name`).
pub open spec fn file_name(path: Seq<char>) -> Option<Seq<char>> {
    match last_named(split_on(path, '/')) {
        Some(c) => if c == seq!['.', '.'] {
            None
        } else {
            Some(c)
        },
        None => None,
    }
}

/// Number of characters after the last `.` (all of them when there is none).
pub open spec fn after_last_dot(s: Seq<char>) -> nat
    decreases s.len(),
{
    if s.len() > 0 && s.last() != '.' {
        1 + after_last_dot(s.drop_last())
    } else {
        0
    }
}

/// The text after the last `.` of a file name, when there is a dot and something before
/// it (`Path::extension`).
pub open spec fn extension_of(name: Seq<char>) -> Option<Seq<char>> {
    let k = after_last_dot(name);
    if k >= name.len() || name.len() - k - 1 == 0 {
        None
    } else {
        Some(name.skip(name.len() - k))
    }
}

/// The export format a file name asks for: `.json`, `.txt` (in any case), otherwise CSV.
pub open spec fn format_for(path: Seq<char>) -> OutputFormat {
    match file_name(path) {
        Some(n) => match extension_of(n) {
            Some(e) => if e.map_values(|c: char| lower_ascii(c)) == seq!['j', 's', 'o', 'n'] {
                OutputFormat::Json
            } else if e.map_values(|c: char| lower_ascii(c)) == seq!['t', 'x', 't'] {
                OutputFormat::Txt
            } else {
                OutputFormat::Csv
            },
            None => OutputFormat::Csv,
        },
        None => OutputFormat::Csv,
    }
}

/// `v[lo..hi]`, lower-cased, equals `w`.
fn lower_window_eq(v: &Vec<char>, lo: usize, hi: usize, w: &Vec<char>) -> (r: bool)
    requires
        lo <= hi <= v.len(),
    ensures
        r == (v@.subrange(lo as int, hi as int).map_values(|c: char| lower_ascii(c)) == w@),
{
    let ghost s = v@.subrange(lo as int, hi as int).map_values(|c: char| lower_ascii(c));
    if hi - lo != w.len() {
        assert(s.len() != w@.len());
        return false;
    }
    let mut i: usize = 0;
    while i < w.len()
        invariant
            0 <= i <= w.len(),
            lo + w.len() == hi <= v.len(),
            s == v@.subrange(lo as int, hi as int).map_values(|c: char| lower_ascii(c)),
            forall|j: int| 0 <= j < i ==> s[j] == w@[j],
        decreases w.len() - i,
    {
        assert(s[i as int] == lower_ascii(v@[lo + i]));
        if lower_ascii_char(v[lo + i]) != w[i] {
            return false;
        }
        i += 1;
    }
    assert(s =~= w@);
    true
}

/// Pick an export format from a file name: `.json`, `.txt`, otherwise CSV.
pub fn format_for_path(path: &str) -> (r: OutputFormat)
    ensures
        r == format_for(path@),
{
    let v = chars_of(path);
    assert(v@.subrange(0, v.len() as int) =~= path@);
    let parts = split_windows(&v, 0, v.len(), '/');
    let ghost ps = split_on(path@, '/');
    let mut i = parts.len();
    assert(ps.take(i as int) =~= ps);
    while i > 0
        invariant
            0 <= i <= parts.len(),
            v@ == path@,
            ps == split_on(path@, '/'),
            slices(v@, parts@) == ps,
            windows_within(parts@, 0, v.len() as int),
            last_named(ps) == last_named(ps.take(i as int)),
        decreases i,
    {
        let (a, b) = parts[i - 1];
        assert(ps[i - 1] == v@.subrange(a as int, b as int));
        assert(ps.take(i as int).drop_last() =~= ps.take(i - 1));
        assert(ps.take(i as int).last() == ps[i - 1]);
        if b > a && !(b - a == 1 && v[a] == '.') {
            proof {
                if b - a == 1 {
                    assert(v@.subrange(a as int, b as int)[0] == v@[a as int]);
                }
            }
            // the file name is v[a..b]
            if b - a == 2 && v[a] == '.' && v[a + 1] == '.' {
                assert(v@.subrange(a as int, b as int) =~= seq!['.', '.']);
                return OutputFormat::Csv;
            }
            assert(v@.subrange(a as int, b as int) != seq!['.', '.']) by {
                if b - a == 2 {
                    assert(v@.subrange(a as int, b as int)[0] == v@[a as int]);
                    assert(v@.subrange(a as int, b as int)[1] == v@[a + 1]);
                }
            }
            return format_for_name(&v, a, b);
        }
        proof {
            if b - a == 1 {
                assert(v@.subrange(a as int, b as int) =~= seq!['.']);
            }
        }
        i -= 1;
    }
    assert(ps.take(0) =~= Seq::<Seq<char>>::empty());
    OutputFormat::Csv
}

fn format_for_name(v: &Vec<char>, a: usize, b: usize) -> (r: OutputFormat)
    requires
        a < b <= v.len(),
    ensures
        r == (match extension_of(v@.subrange(a as int, b as int)) {
            Some(e) => if e.map_values(|c: char| lower_ascii(c)) == seq!['j', 's', 'o', 'n'] {
                OutputFormat::Json
            } else if e.map_values(|c: char| lower_ascii(c)) == seq!['t', 'x', 't'] {
                OutputFormat::Txt
            } else {
                OutputFormat::Csv
            },
            None => OutputFormat::Csv,
        }),
{
    let ghost name = v@.subrange(a as int, b as int);
    let mut d = b;
    while d > a && v[d - 1] != '.'
        invariant
            a <= d <= b <= v.len(),
            after_last_dot(name) == (b - d) + after_last_dot(v@.subrange(a as int, d as int)),
        decreases d - a,
    {
        assert(v@.subrange(a as int, d as int).drop_last() =~= v@.subrange(a as int, d - 1));
        d -= 1;
    }
    assert(after_last_dot(v@.subrange(a as int, d as int)) == 0);
    if d == a || d - 1 == a {
        return OutputFormat::Csv;
    }
    assert(name.skip(name.len() - (b - d)) =~= v@.subrange(d as int, b as int));
    let json = vec!['j', 's', 'o', 'n'];
    let txt = vec!['t', 'x', 't'];
    assert(json@ =~= seq!['j', 's', 'o', 'n']);
    assert(txt@ =~= seq!['t', 'x', 't']);
    if lower_window_eq(v, d, b, &json) {
        OutputFormat::Json
    } else if lower_window_eq(v, d, b, &txt) {
        OutputFormat::Txt
    } else {
        OutputFormat::Csv
    }
}

/// Where the results of a command-line scan go.
#[derive(Clone, Copy, Debug, PartialEq, Eq, Structural)]
pub enum OutputPlan {
    /// Print the table.
    Table,
    /// Print the table and also save the results in a file, in the given format.
    TableAndFile(OutputFormat),
    /// Save the results in a file, in the given format.
    File(OutputFormat),
    /// Write the results to standard output, in the given format.
    Stdout(OutputFormat),
}

/// Where results go: a table is printed (and, with an output path, also saved in the
/// format that the path's extension asks for); other formats go to the output file when
/// there is one, else to standard output.
pub fn output_plan(format: OutputFormat, output: Option<&str>) -> (r: OutputPlan)
    ensures
        r == (match (format, output) {
            (OutputFormat::Table, None) => OutputPlan::Table,
            (OutputFormat::Table, Some(p)) => OutputPlan::TableAndFile(format_for(p@)),
            (f, Some(_)) => OutputPlan::File(f),
            (f, None) => OutputPlan::Stdout(f),
        }),
{
    match (format, output) {
        (OutputFormat::Table, None) => OutputPlan::Table,
        (OutputFormat::Table, Some(p)) => OutputPlan::TableAndFile(format_for_path(p)),
        (f, Some(_)) => OutputPlan::File(f),
        (f, None) => OutputPlan::Stdout(f),
    }
}

pub open spec fn no_target_error() -> Seq<char> {
    "No target specified and no local network detected. Provide a target such as 192.168.1.0/24, or run without arguments for the GUI."@
}

/// The addresses a command line names, given the local network detection (`local`, as
/// `detect_local_range` reports it): `--random N` draws `N` random public addresses from
/// `seed`; else the target is parsed, host names being handed back for resolution; else
/// the detected local range is scanned, or, when no local network was detected, an error
/// says so.
pub fn targets_with_local(args: &CliArgs, seed: u64, local: Option<(u32, u32, u32)>) -> (r:
    TargetParse)
    ensures
        args.random matches Some(n) ==> (r matches TargetParse::Parsed(Ok(v)) && v.len() <= n
            && exists|k: nat|
            k <= u64::MAX && r->Parsed_0->Ok_0@ == #[trigger] public_draws(start_state(seed), k)
                && (r->Parsed_0->Ok_0.len() == n || k == u64::MAX)),
        args.random is None ==> (args.target matches Some(t) ==> match r {
            TargetParse::Parsed(x) => target_result(t@) == Some(res_view(x)),
            TargetParse::Resolve(h) => target_result(t@) is None && h@ == trim(t@),
        }),
        args.random is None && args.target is None ==> match local {
            Some((_, s, e)) => r matches TargetParse::Parsed(Ok(v)) && v@ == ascending_range(s, e),
            None => r matches TargetParse::Parsed(Err(x)) && x@ == no_target_error(),
        },
{
    match args.random {
        Some(count) => {
            let v = generate_random_ips(count, seed);
            return TargetParse::Parsed(Ok(v));
        },
        None => {},
    }
    match &args.target {
        Some(t) => parse_target(t.as_str()),
        None => match local {
            Some((_, start, end)) => TargetParse::Parsed(Ok(generate_range_v4(start, end))),
            None => TargetParse::Parsed(
                Err(
                    String::from_str(
                        "No target specified and no local network detected. Provide a target such as 192.168.1.0/24, or run without arguments for the GUI.",
                    ),
                ),
            ),
        },
    }
}

/// The addresses a command line names, detecting the local network only when neither
/// `--random` nor a target is given. Whatever the detection reports, the result is what
/// `targets_with_local` gives for it: a local `/24` from `.1` to `.254`, or the error that
/// no local network was detected.
pub fn cli_targets(args: &CliArgs, seed: u64) -> (r: TargetParse)
    ensures
        args.random matches Some(n) ==> (r matches TargetParse::Parsed(Ok(v)) && v.len() <= n
            && exists|k: nat|
            k <= u64::MAX && r->Parsed_0->Ok_0@ == #[trigger] public_draws(start_state(seed), k)
                && (r->Parsed_0->Ok_0.len() == n || k == u64::MAX)),
        args.random is None ==> (args.target matches Some(t) ==> match r {
            TargetParse::Parsed(x) => target_result(t@) == Some(res_view(x)),
            TargetParse::Resolve(h) => target_result(t@) is None && h@ == trim(t@),
        }),
        args.random is None && args.target is None ==> ((r matches TargetParse::Parsed(Ok(v))
            && exists|ip: u32| #[trigger] ascending_range(
            (ip - ip % 256 + 1) as u32,
            (ip - ip % 256 + 254) as u32,
        ) == v@) || (r matches TargetParse::Parsed(Err(e)) && e@ == no_target_error())),
{
    if args.random.is_none() && args.target.is_none() {
        let local = detect_local_range();
        let r = targets_with_local(args, seed, local);
        proof {
            if let Some((ip, s, e)) = local {
                assert(ascending_range((ip - ip % 256 + 1) as u32, (ip - ip % 256 + 254) as u32)
                    == ascending_range(s, e));
            }
        }
        r
    } else {
        targets_with_local(args, seed, None)
    }
}

} // verus!
