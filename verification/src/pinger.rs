//! Liveness probes: which probe a ping method runs, and in what order.
use vstd::prelude::*;
use crate::text::{chars_of, contains_seq, find_in};

verus! {

/// How a host's liveness is checked before its ports are scanned.
#[derive(Clone, Copy, Debug, PartialEq, Eq, Structural)]
pub enum PingMethod {
    /// TCP connect to common ports; an accept or a reset proves the host is up.
    TcpPort,
    /// ICMP echo through the system `ping` command.
    Icmp,
    /// TCP first, then ICMP as a fallback.
    Combined,
    /// No ping: every host is port-scanned, and it is alive if any port is open.
    AlwaysScan,
}

impl Default for PingMethod {
    fn default() -> (r: Self)
        ensures
            r == PingMethod::TcpPort,
    {
        PingMethod::TcpPort
    }
}

impl PingMethod {
    /// A human readable name for menus and status lines.
    pub fn label(&self) -> (r: &'static str)
        ensures
            r == label_of(*self),
    {
        match self {
            PingMethod::TcpPort => "TCP Port Ping",
            PingMethod::Icmp => "ICMP Ping",
            PingMethod::Combined => "Combined (TCP, then ICMP)",
            PingMethod::AlwaysScan => "Always Scan",
        }
    }
}

pub open spec fn label_of(m: PingMethod) -> &'static str {
    match m {
        PingMethod::TcpPort => "TCP Port Ping",
        PingMethod::Icmp => "ICMP Ping",
        PingMethod::Combined => "Combined (TCP, then ICMP)",
        PingMethod::AlwaysScan => "Always Scan",
    }
}

/// A single liveness probe.
#[derive(Clone, Copy, Debug, PartialEq, Eq, Structural)]
pub enum Probe {
    Tcp,
    Icmp,
}

/// The probe to run next for `method`, given the last probe run and whether it found the
/// host alive (`None` before the first probe); `None` when probing is over.
pub open spec fn next_probe_spec(method: PingMethod, last: Option<(Probe, bool)>) -> Option<Probe> {
    match last {
        None => match method {
            PingMethod::TcpPort => Some(Probe::Tcp),
            PingMethod::Icmp => Some(Probe::Icmp),
            PingMethod::Combined => Some(Probe::Tcp),
            PingMethod::AlwaysScan => None,
        },
        Some((Probe::Tcp, false)) => if method == PingMethod::Combined {
            Some(Probe::Icmp)
        } else {
            None
        },
        Some(_) => None,
    }
}

/// The ping dispatcher's decisions: the probe to run next for `method`.
pub fn next_probe(method: PingMethod, last: Option<(Probe, bool)>) -> (r: Option<Probe>)
    ensures
        r == next_probe_spec(method, last),
{
    match last {
        None => match method {
            PingMethod::TcpPort => Some(Probe::Tcp),
            PingMethod::Icmp => Some(Probe::Icmp),
            PingMethod::Combined => Some(Probe::Tcp),
            PingMethod::AlwaysScan => None,
        },
        Some((Probe::Tcp, false)) => match method {
            PingMethod::Combined => Some(Probe::Icmp),
            _ => None,
        },
        Some(_) => None,
    }
}

/// Ports probed by the TCP ping when none are configured.
pub open spec fn default_tcp_ping_ports() -> Seq<u16> {
    seq![80, 443, 22, 445, 139]
}

/// The ports the TCP ping probes: the configured ones, or the standard set when none are.
pub fn tcp_ping_ports(ports: &[u16]) -> (r: Vec<u16>)
    ensures
        ports@.len() == 0 ==> r@ == default_tcp_ping_ports(),
        ports@.len() > 0 ==> r@ == ports@,
{
    if ports.len() == 0 {
        let r = vec![80, 443, 22, 445, 139];
        assert(r@ =~= default_tcp_ping_ports());
        r
    } else {
        let mut r: Vec<u16> = Vec::new();
        let mut i: usize = 0;
        while i < ports.len()
            invariant
                0 <= i <= ports.len(),
                r@ == ports@.take(i as int),
            decreases ports.len() - i,
        {
            r.push(ports[i]);
            assert(ports@.take(i + 1) =~= ports@.take(i as int).push(ports@[i as int]));
            i += 1;
        }
        assert(ports@.take(ports.len() as int) =~= ports@);
        r
    }
}

/// Whole seconds the system `ping` waits: the timeout, at least half a second, rounded up.
pub fn icmp_wait_secs(timeout_ms: u64) -> (r: u64)
    ensures
        r == (if timeout_ms < 500 {
            500
        } else {
            timeout_ms
        } + 999) / 1000,
{
    let ms = if timeout_ms < 500 {
        500
    } else {
        timeout_ms
    };
    ms / 1000 + if ms % 1000 == 0 {
        0
    } else {
        1
    }
}

/// The operating system family whose `ping` command is run.
#[derive(Clone, Copy, Debug, PartialEq, Eq, Structural)]
pub enum PingOs {
    Windows,
    MacOs,
    /// Linux and other Unix systems.
    Other,
}

/// How one echo request is asked of the system `ping`.
#[derive(Clone, Copy, Debug)]
pub struct PingArgs {
    /// The flag before the request count (which is 1).
    pub count_flag: &'static str,
    /// The flag before the wait for the reply.
    pub wait_flag: &'static str,
    /// The wait for the reply, in the unit the system's `ping` expects.
    pub wait: u64,
}

/// The arguments of one `ping` request: Windows takes `-n 1 -w <ms>`, macOS
/// `-c 1 -W <ms>`, and Linux and the other Unix systems `-c 1 -W <whole seconds>`.
pub fn ping_args(os: PingOs, timeout_ms: u64) -> (r: PingArgs)
    ensures
        os == PingOs::Windows ==> r.count_flag == "-n" && r.wait_flag == "-w" && r.wait
            == timeout_ms,
        os == PingOs::MacOs ==> r.count_flag == "-c" && r.wait_flag == "-W" && r.wait
            == timeout_ms,
        os == PingOs::Other ==> r.count_flag == "-c" && r.wait_flag == "-W" && r.wait == (if timeout_ms
            < 500 {
            500
        } else {
            timeout_ms
        } + 999) / 1000,
{
    match os {
        PingOs::Windows => PingArgs { count_flag: "-n", wait_flag: "-w", wait: timeout_ms },
        PingOs::MacOs => PingArgs { count_flag: "-c", wait_flag: "-W", wait: timeout_ms },
        PingOs::Other => PingArgs {
            count_flag: "-c",
            wait_flag: "-W",
            wait: icmp_wait_secs(timeout_ms),
        },
    }
}

/// Whether a `ping` run shows the host alive: it exited successfully and, on Windows,
/// where `ping` also exits successfully on "host unreachable", its output holds a reply's
/// `TTL`.
pub fn ping_succeeded(os: PingOs, exit_ok: bool, output: &str) -> (r: bool)
    ensures
        r == (exit_ok && (os == PingOs::Windows ==> contains_seq(output@, seq!['T', 'T', 'L']))),
{
    if !exit_ok {
        return false;
    }
    match os {
        PingOs::Windows => {
            let v = chars_of(output);
            let ttl = vec!['T', 'T', 'L'];
            assert(ttl@ =~= seq!['T', 'T', 'L']);
            assert(v@.subrange(0, v.len() as int) =~= output@);
            find_in(&v, 0, v.len(), &ttl).is_some()
        },
        _ => true,
    }
}

} // verus!
