//! Scan settings, and the decisions the scan of one host makes between its probes.
use vstd::prelude::*;
use crate::pinger::PingMethod;

verus! {

/// What a scan does to each host.
#[derive(Clone, Debug)]
pub struct ScanOptions {
    /// Ports to scan, ascending.
    pub ports: Vec<u16>,
    pub ping_method: PingMethod,
    /// Timeout of one probe, in milliseconds.
    pub timeout_ms: u64,
    /// Hosts scanned at once.
    pub threads: usize,
    pub resolve_hostname: bool,
    pub lookup_mac: bool,
    pub fetch_web_title: bool,
    /// Scan ports even on hosts that do not answer the ping.
    pub scan_dead_hosts: bool,
}

/// The ports scanned by default.
pub open spec fn default_ports() -> Seq<u16> {
    seq![22, 80, 443, 8080]
}

impl Default for ScanOptions {
    fn default() -> (r: Self)
        ensures
            r.ports@ == default_ports(),
            r.ping_method == PingMethod::TcpPort,
            r.timeout_ms == 1000,
            r.threads == 64,
            r.resolve_hostname,
            r.lookup_mac,
            r.fetch_web_title,
            !r.scan_dead_hosts,
    {
        let ports = vec![22, 80, 443, 8080];
        assert(ports@ =~= default_ports());
        ScanOptions {
            ports,
            ping_method: PingMethod::TcpPort,
            timeout_ms: 1000,
            threads: 64,
            resolve_hostname: true,
            lookup_mac: true,
            fetch_web_title: true,
            scan_dead_hosts: false,
        }
    }
}

/// Ports are scanned on hosts that answered the ping, on every host when dead hosts are to
/// be scanned or no ping is made, and never when there are no ports to scan.
pub open spec fn scans_ports(ping_alive: bool, options: ScanOptions) -> bool {
    (ping_alive || options.scan_dead_hosts || options.ping_method == PingMethod::AlwaysScan)
        && options.ports@.len() > 0
}

/// Whether the ports of a host are scanned after its ping.
pub fn should_scan_ports(ping_alive: bool, options: &ScanOptions) -> (r: bool)
    ensures
        r == scans_ports(ping_alive, *options),
{
    (ping_alive || options.scan_dead_hosts || options.ping_method == PingMethod::AlwaysScan)
        && options.ports.len() > 0
}

/// A host is alive when it answered the ping or has an open port.
pub fn host_is_alive(ping_alive: bool, open_ports: &[u16]) -> (r: bool)
    ensures
        r == (ping_alive || open_ports@.len() > 0),
{
    ping_alive || open_ports.len() > 0
}

/// Ports where a web banner is looked for.
pub open spec fn is_web_port(p: u16) -> bool {
    p == 80 || p == 8080 || p == 3000 || p == 5000 || p == 8000
}

/// The first open port that usually serves HTTP, if any.
pub fn pick_web_port(open_ports: &[u16]) -> (r: Option<u16>)
    ensures
        r matches Some(p) ==> is_web_port(p) && exists|i: int|
            0 <= i < open_ports@.len() && open_ports@[i] == p && forall|j: int|
                0 <= j < i ==> !is_web_port(#[trigger] open_ports@[j]),
        r is None ==> forall|j: int| 0 <= j < open_ports@.len() ==> !is_web_port(
            #[trigger] open_ports@[j],
        ),
{
    let mut i: usize = 0;
    while i < open_ports.len()
        invariant
            0 <= i <= open_ports.len(),
            forall|j: int| 0 <= j < i ==> !is_web_port(#[trigger] open_ports@[j]),
        decreases open_ports.len() - i,
    {
        let p = open_ports[i];
        if p == 80 || p == 8080 || p == 3000 || p == 5000 || p == 8000 {
            return Some(p);
        }
        i += 1;
    }
    None
}

/// The web banner's deadline: the probe timeout, but at most 1.5 seconds.
pub fn web_timeout_ms(timeout_ms: u64) -> (r: u64)
    ensures
        r == (if timeout_ms < 1500 {
            timeout_ms
        } else {
            1500
        }),
{
    if timeout_ms < 1500 {
        timeout_ms
    } else {
        1500
    }
}

/// The fetchers (reverse DNS, MAC and vendor, web banner) that run on a host.
pub fn fetchers_for(alive: bool, options: &ScanOptions) -> (r: (bool, bool, bool))
    ensures
        r == (alive && options.resolve_hostname, alive && options.lookup_mac, alive
            && options.fetch_web_title),
{
    (alive && options.resolve_hostname, alive && options.lookup_mac, alive
        && options.fetch_web_title)
}

/// Hosts scanned at once: the configured number, at least one.
pub fn worker_count(threads: usize) -> (r: usize)
    ensures
        r == (if threads < 1 {
            1
        } else {
            threads
        }),
{
    if threads < 1 {
        1
    } else {
        threads
    }
}

/// What a running scan reports to its front end, less its floating-point timings.
#[derive(Clone, Copy, Debug, PartialEq, Eq, Structural)]
pub enum ScanReport {
    /// The scan starts on this many addresses.
    Started(usize),
    /// One host is done; whether it is alive.
    Host(bool),
    /// A progress tick.
    Progress,
    /// The scan went through every address.
    Finished,
    /// The scan was cancelled.
    Stopped,
    /// The scan's channel closed without a final report.
    Disconnected,
}

/// The counts a front end keeps while a scan reports.
#[derive(Clone, Copy, Debug, PartialEq, Eq, Structural)]
pub struct ScanTally {
    pub total_ips: usize,
    pub scanned_count: usize,
    pub alive_count: usize,
    pub finished: bool,
}

/// Only hosts that were scanned can be alive.
pub open spec fn tally_ok(t: ScanTally) -> bool {
    t.alive_count <= t.scanned_count
}

/// The tally after one report: a start sets the total, a host counts as scanned and, if
/// alive, as alive; the final report, a cancellation or a closed channel ends the scan.
pub open spec fn tally_after(t: ScanTally, r: ScanReport) -> ScanTally {
    match r {
        ScanReport::Started(n) => ScanTally { total_ips: n, ..t },
        ScanReport::Host(alive) => ScanTally {
            scanned_count: (t.scanned_count + 1) as usize,
            alive_count: if alive {
                (t.alive_count + 1) as usize
            } else {
                t.alive_count
            },
            ..t
        },
        ScanReport::Progress => t,
        _ => ScanTally { finished: true, ..t },
    }
}

impl ScanTally {
    /// Nothing scanned yet.
    pub fn new() -> (r: ScanTally)
        ensures
            r == (ScanTally { total_ips: 0, scanned_count: 0, alive_count: 0, finished: false }),
            tally_ok(r),
    {
        ScanTally { total_ips: 0, scanned_count: 0, alive_count: 0, finished: false }
    }

    /// Take one report into account. Each host report counts one more scanned host, so
    /// fewer than `usize::MAX` may have been counted before.
    pub fn apply(&mut self, report: ScanReport)
        requires
            tally_ok(*old(self)),
            report is Host ==> old(self).scanned_count < usize::MAX,
        ensures
            *final(self) == tally_after(*old(self), report),
            tally_ok(*final(self)),
    {
        match report {
            ScanReport::Started(n) => {
                self.total_ips = n;
            },
            ScanReport::Host(alive) => {
                self.scanned_count = self.scanned_count + 1;
                if alive {
                    self.alive_count = self.alive_count + 1;
                }
            },
            ScanReport::Progress => {},
            _ => {
                self.finished = true;
            },
        }
    }
}

/// Every report keeps the tally sound, and the counts never go down: whatever a scan
/// reports, the hosts counted as scanned and as alive only grow, and a finished scan stays
/// finished.
pub proof fn tally_only_grows(t: ScanTally, r: ScanReport)
    requires
        tally_ok(t),
        r is Host ==> t.scanned_count < usize::MAX,
    ensures
        tally_ok(tally_after(t, r)),
        tally_after(t, r).scanned_count >= t.scanned_count,
        tally_after(t, r).alive_count >= t.alive_count,
        t.finished ==> tally_after(t, r).finished,
{
}

/// How a host is shown in the results: alive with open ports, alive, or dead.
#[derive(Clone, Copy, Debug, PartialEq, Eq, Structural)]
pub enum HostStatus {
    AliveWithPorts,
    Alive,
    Dead,
}

/// The status a host is shown with: dead when it is not alive, otherwise alive, with or
/// without open ports.
pub fn host_status(is_alive: bool, has_open_ports: bool) -> (r: HostStatus)
    ensures
        r == (if !is_alive {
            HostStatus::Dead
        } else if has_open_ports {
            HostStatus::AliveWithPorts
        } else {
            HostStatus::Alive
        }),
{
    if !is_alive {
        HostStatus::Dead
    } else if has_open_ports {
        HostStatus::AliveWithPorts
    } else {
        HostStatus::Alive
    }
}

} // verus!
