//! The desktop application's state rules: scan modes, preferences, sorting, subnet sizes.
use vstd::prelude::*;
use vstd::arithmetic::power2::pow2;
use vstd::string::StringExecFns;
use crate::ip_range::{
    block_size, cidr_result, generate_from_cidr, generate_random_ips, generate_range_v4,
    ip_rank, ipv4_text, parse_ipv4_window, parse_target, res_view, target_result, ascending_range,
    public_draws, start_state, IpAddress, TargetParse,
};
use crate::pinger::PingMethod;
use crate::ports::{parse_ports, port_listed, strictly_ascending};
use crate::scanner::ScanOptions;
use crate::text::{chars_of, contains_seq, opt_view, decimal, find_in, lower_ascii, push_decimal, trim, trim_bounds};
use crate::vendor::all_ascii;

verus! {

/// How the target list is built.
#[derive(Clone, Copy, Debug, PartialEq, Eq, Structural)]
pub enum ScanMode {
    /// From the first to the second address.
    IpRange,
    /// The subnet of the first address with the chosen netmask.
    Netmask,
    /// A number of random public addresses.
    Random,
}

/// Sortable result table columns.
#[derive(Clone, Copy, Debug, PartialEq, Eq, Structural)]
pub enum SortColumn {
    Status,
    Ip,
    Ping,
    Hostname,
    Ports,
    Mac,
    Vendor,
}

/// Usable host addresses in a subnet with this prefix length: the block less its network
/// and broadcast address, and none when the block has fewer than two addresses.
pub fn host_count(prefix: u8) -> (r: u64)
    requires
        prefix <= 32,
    ensures
        r == (if pow2((32 - prefix) as nat) >= 2 {
            pow2((32 - prefix) as nat) - 2
        } else {
            0
        }),
{
    let size = block_size(prefix);
    if size >= 2 {
        size - 2
    } else {
        0
    }
}

/// Clicking the active column flips the direction; clicking another sorts it ascending.
pub fn next_sort(current: SortColumn, ascending: bool, clicked: SortColumn) -> (r: (SortColumn, bool))
    ensures
        r == (if current == clicked {
            (current, !ascending)
        } else {
            (clicked, true)
        }),
{
    if current == clicked {
        (current, !ascending)
    } else {
        (clicked, true)
    }
}

/// The URL scheme a browser uses for a port: `https` for 443 and 8443, else `http`.
pub fn url_scheme(port: u16) -> (r: &'static str)
    ensures
        r == (if port == 443 || port == 8443 {
            "https"
        } else {
            "http"
        }),
{
    if port == 443 || port == 8443 {
        "https"
    } else {
        "http"
    }
}

/// The result of comparing two values.
#[derive(Clone, Copy, Debug, PartialEq, Eq, Structural)]
pub enum Order {
    Less,
    Equal,
    Greater,
}

pub open spec fn int_order(a: int, b: int) -> Order {
    if a < b {
        Order::Less
    } else if a > b {
        Order::Greater
    } else {
        Order::Equal
    }
}

pub open spec fn reversed(o: Order) -> Order {
    match o {
        Order::Less => Order::Greater,
        Order::Equal => Order::Equal,
        Order::Greater => Order::Less,
    }
}

/// The order of `String`: lexicographic, character by character in code point order
/// (which is the byte order of their UTF-8 forms), a proper prefix first.
pub open spec fn text_order(a: Seq<char>, b: Seq<char>) -> Order
    decreases a.len(),
{
    if a.len() == 0 {
        if b.len() == 0 {
            Order::Equal
        } else {
            Order::Less
        }
    } else if b.len() == 0 {
        Order::Greater
    } else if a[0] != b[0] {
        int_order(a[0] as int, b[0] as int)
    } else {
        text_order(a.drop_first(), b.drop_first())
    }
}

/// The order of `Option<String>`: `None` first.
pub open spec fn opt_text_order(a: Option<Seq<char>>, b: Option<Seq<char>>) -> Order {
    match (a, b) {
        (None, None) => Order::Equal,
        (None, Some(_)) => Order::Less,
        (Some(_), None) => Order::Greater,
        (Some(x), Some(y)) => text_order(x, y),
    }
}

/// The sortable columns of one row of the result table, all but the ping time.
#[derive(Clone, Debug)]
pub struct HostRow {
    pub ip: IpAddress,
    pub is_alive: bool,
    pub hostname: Option<String>,
    pub open_ports: Vec<u16>,
    pub mac_address: Option<String>,
    pub vendor: Option<String>,
}

/// How two rows compare on a column: dead before alive, addresses in `IpAddr` order,
/// fewer open ports first, text columns as `Option<String>`. The ping column is not
/// covered here (`None`): its times are floating point.
pub open spec fn row_order(a: HostRow, b: HostRow, column: SortColumn) -> Option<Order> {
    match column {
        SortColumn::Status => Some(
            if a.is_alive == b.is_alive {
                Order::Equal
            } else if !a.is_alive {
                Order::Less
            } else {
                Order::Greater
            },
        ),
        SortColumn::Ip => Some(int_order(ip_rank(a.ip), ip_rank(b.ip))),
        SortColumn::Ping => None,
        SortColumn::Hostname => Some(opt_text_order(opt_view(a.hostname), opt_view(b.hostname))),
        SortColumn::Ports => Some(int_order(a.open_ports@.len() as int, b.open_ports@.len() as int)),
        SortColumn::Mac => Some(opt_text_order(opt_view(a.mac_address), opt_view(b.mac_address))),
        SortColumn::Vendor => Some(opt_text_order(opt_view(a.vendor), opt_view(b.vendor))),
    }
}

fn compare_text(a: &String, b: &String) -> (r: Order)
    ensures
        r == text_order(a@, b@),
{
    let av = chars_of(a.as_str());
    let bv = chars_of(b.as_str());
    let mut i: usize = 0;
    assert(a@.skip(0) =~= a@);
    assert(b@.skip(0) =~= b@);
    while i < av.len() && i < bv.len()
        invariant
            av@ == a@,
            bv@ == b@,
            i <= av.len(),
            i <= bv.len(),
            text_order(a@, b@) == text_order(a@.skip(i as int), b@.skip(i as int)),
        decreases av.len() - i,
    {
        assert(a@.skip(i as int)[0] == av@[i as int]);
        assert(b@.skip(i as int)[0] == bv@[i as int]);
        if av[i] < bv[i] {
            return Order::Less;
        }
        if av[i] > bv[i] {
            return Order::Greater;
        }
        assert(a@.skip(i as int).drop_first() =~= a@.skip(i + 1));
        assert(b@.skip(i as int).drop_first() =~= b@.skip(i + 1));
        i += 1;
    }
    if av.len() == bv.len() {
        Order::Equal
    } else if i == av.len() {
        Order::Less
    } else {
        Order::Greater
    }
}

fn compare_opt_text(a: &Option<String>, b: &Option<String>) -> (r: Order)
    ensures
        r == opt_text_order(opt_view(*a), opt_view(*b)),
{
    match (a, b) {
        (None, None) => Order::Equal,
        (None, Some(_)) => Order::Less,
        (Some(_), None) => Order::Greater,
        (Some(x), Some(y)) => compare_text(x, y),
    }
}

fn compare_ints(a: u128, b: u128) -> (r: Order)
    ensures
        r == int_order(a as int, b as int),
{
    if a < b {
        Order::Less
    } else if a > b {
        Order::Greater
    } else {
        Order::Equal
    }
}

/// Compares two rows on a column of the result table; `None` for the ping column, whose
/// floating-point times the caller compares.
pub fn compare_hosts(a: &HostRow, b: &HostRow, column: SortColumn) -> (r: Option<Order>)
    ensures
        r == row_order(*a, *b, column),
{
    match column {
        SortColumn::Status => Some(
            if a.is_alive == b.is_alive {
                Order::Equal
            } else if !a.is_alive {
                Order::Less
            } else {
                Order::Greater
            },
        ),
        SortColumn::Ip => Some(
            match (a.ip, b.ip) {
                (IpAddress::V4(x), IpAddress::V4(y)) => compare_ints(x as u128, y as u128),
                (IpAddress::V4(_), IpAddress::V6(_)) => Order::Less,
                (IpAddress::V6(_), IpAddress::V4(_)) => Order::Greater,
                (IpAddress::V6(x), IpAddress::V6(y)) => compare_ints(x, y),
            },
        ),
        SortColumn::Ping => None,
        SortColumn::Hostname => Some(compare_opt_text(&a.hostname, &b.hostname)),
        SortColumn::Ports => Some(compare_ints(a.open_ports.len() as u128, b.open_ports.len() as u128)),
        SortColumn::Mac => Some(compare_opt_text(&a.mac_address, &b.mac_address)),
        SortColumn::Vendor => Some(compare_opt_text(&a.vendor, &b.vendor)),
    }
}

proof fn lemma_text_order_swap(a: Seq<char>, b: Seq<char>)
    ensures
        text_order(b, a) == reversed(text_order(a, b)),
        text_order(a, b) == Order::Equal <==> a == b,
    decreases a.len(),
{
    if a.len() > 0 && b.len() > 0 {
        lemma_text_order_swap(a.drop_first(), b.drop_first());
        if a[0] == b[0] && a.drop_first() == b.drop_first() {
            assert(a =~= seq![a[0]] + a.drop_first());
            assert(b =~= seq![b[0]] + b.drop_first());
        }
    }
    if a.len() == 0 && b.len() == 0 {
        assert(a =~= b);
    }
}

/// Comparing two rows the other way round gives the reverse answer, and rows compare
/// equal on a text column exactly when that column holds the same text, so every column
/// but the ping time orders the table consistently.
pub proof fn compare_is_antisymmetric(a: HostRow, b: HostRow, column: SortColumn)
    ensures
        row_order(b, a, column) == match row_order(a, b, column) {
            Some(o) => Some(reversed(o)),
            None => None,
        },
        column == SortColumn::Hostname ==> (row_order(a, b, column) == Some(Order::Equal)
            <==> opt_view(a.hostname) == opt_view(b.hostname)),
{
    lemma_text_order_swap(a.hostname.unwrap()@, b.hostname.unwrap()@);
    lemma_text_order_swap(a.mac_address.unwrap()@, b.mac_address.unwrap()@);
    lemma_text_order_swap(a.vendor.unwrap()@, b.vendor.unwrap()@);
}

proof fn lemma_text_less_trans(a: Seq<char>, b: Seq<char>, c: Seq<char>)
    requires
        text_order(a, b) == Order::Less,
        text_order(b, c) == Order::Less,
    ensures
        text_order(a, c) == Order::Less,
    decreases a.len(),
{
    if a.len() > 0 && b.len() > 0 && c.len() > 0 && a[0] == b[0] && b[0] == c[0] {
        lemma_text_less_trans(a.drop_first(), b.drop_first(), c.drop_first());
    }
}

proof fn lemma_opt_text_trans(a: Option<Seq<char>>, b: Option<Seq<char>>, c: Option<Seq<char>>)
    requires
        opt_text_order(a, b) != Order::Greater,
        opt_text_order(b, c) != Order::Greater,
    ensures
        opt_text_order(a, c) != Order::Greater,
        opt_text_order(a, b) == Order::Less || opt_text_order(b, c) == Order::Less
            ==> opt_text_order(a, c) == Order::Less,
{
    if a is Some && b is Some && c is Some {
        let (x, y, z) = (a.unwrap(), b.unwrap(), c.unwrap());
        lemma_text_order_swap(x, y);
        lemma_text_order_swap(y, z);
        lemma_text_order_swap(x, z);
        if text_order(x, y) == Order::Less && text_order(y, z) == Order::Less {
            lemma_text_less_trans(x, y, z);
        }
    }
}

/// Every column but the ping time orders rows consistently: if `a` sorts no later than
/// `b` and `b` no later than `c`, then `a` sorts no later than `c`, and strictly earlier
/// when either step is strict.
pub proof fn compare_is_transitive(a: HostRow, b: HostRow, c: HostRow, column: SortColumn)
    requires
        column != SortColumn::Ping,
        row_order(a, b, column) != Some(Order::Greater),
        row_order(b, c, column) != Some(Order::Greater),
    ensures
        row_order(a, c, column) is Some,
        row_order(a, c, column) != Some(Order::Greater),
        row_order(a, b, column) == Some(Order::Less) || row_order(b, c, column) == Some(
            Order::Less,
        ) ==> row_order(a, c, column) == Some(Order::Less),
{
    match column {
        SortColumn::Hostname => lemma_opt_text_trans(
            opt_view(a.hostname),
            opt_view(b.hostname),
            opt_view(c.hostname),
        ),
        SortColumn::Mac => lemma_opt_text_trans(
            opt_view(a.mac_address),
            opt_view(b.mac_address),
            opt_view(c.mac_address),
        ),
        SortColumn::Vendor => lemma_opt_text_trans(
            opt_view(a.vendor),
            opt_view(b.vendor),
            opt_view(c.vendor),
        ),
        _ => {},
    }
}

/// The lower-case form of a string (std's `str::to_lowercase`), which follows Unicode's
/// case mapping and so may change the length of the text.
pub uninterp spec fn unicode_lower(s: Seq<char>) -> Seq<char>;

/// Calls `str::to_lowercase`. The contract names the result; of ASCII text it states
/// that letters `A`-`Z` become `a`-`z` and everything else stays.
#[verifier::external_body]
fn to_lowercase(s: &str) -> (r: String)
    ensures
        r@ == unicode_lower(s@),
        all_ascii(s@) ==> r@ == s@.map_values(|c: char| lower_ascii(c)),
{
    s.to_lowercase()
}

/// The lower-case form of a text as `str::to_lowercase` gives it: on ASCII text each
/// letter `A`-`Z` becomes `a`-`z` and everything else stays; other text follows Unicode's
/// mapping.
pub open spec fn lower_text(s: Seq<char>) -> Seq<char> {
    if all_ascii(s) {
        s.map_values(|c: char| lower_ascii(c))
    } else {
        unicode_lower(s)
    }
}

/// An optional text field matches when its lower-case form holds the query.
pub open spec fn field_matches(field: Option<Seq<char>>, query: Seq<char>) -> bool {
    match field {
        Some(f) => contains_seq(lower_text(f), query),
        None => false,
    }
}

pub open spec fn opt_str_view(o: Option<&str>) -> Option<Seq<char>> {
    match o {
        Some(s) => Some(s@),
        None => None,
    }
}

/// Whether the result filter shows a host: hidden when only live hosts are wanted and it
/// is dead; otherwise shown for an empty query, or when the query occurs in the address
/// text, in the lower-cased host name or vendor, or in the decimal form of an open port.
pub open spec fn filter_accepts(
    ip_text: Seq<char>,
    is_alive: bool,
    hostname: Option<Seq<char>>,
    vendor: Option<Seq<char>>,
    ports: Seq<u16>,
    query: Seq<char>,
    alive_only: bool,
) -> bool {
    if alive_only && !is_alive {
        false
    } else if query.len() == 0 {
        true
    } else {
        ||| contains_seq(ip_text, query)
        ||| field_matches(hostname, query)
        ||| field_matches(vendor, query)
        ||| exists|i: int| 0 <= i < ports.len() && contains_seq(decimal(#[trigger] ports[i] as nat), query)
    }
}

fn text_contains(text: &Vec<char>, query: &Vec<char>) -> (r: bool)
    ensures
        r == contains_seq(text@, query@),
{
    assert(text@.subrange(0, text.len() as int) =~= text@);
    find_in(text, 0, text.len(), query).is_some()
}

fn field_contains(field: Option<&str>, query: &Vec<char>) -> (r: bool)
    ensures
        r == field_matches(opt_str_view(field), query@),
{
    match field {
        Some(f) => {
            let lower = to_lowercase(f);
            let lv = chars_of(lower.as_str());
            text_contains(&lv, query)
        },
        None => false,
    }
}

/// The result filter of the host table; `ip_text` is the address as displayed.
pub fn matches_filter(
    ip_text: &str,
    is_alive: bool,
    hostname: Option<&str>,
    vendor: Option<&str>,
    open_ports: &[u16],
    query: &str,
    alive_only: bool,
) -> (r: bool)
    ensures
        r == filter_accepts(
            ip_text@,
            is_alive,
            opt_str_view(hostname),
            opt_str_view(vendor),
            open_ports@,
            query@,
            alive_only,
        ),
{
    if alive_only && !is_alive {
        return false;
    }
    let qv = chars_of(query);
    if qv.len() == 0 {
        return true;
    }
    let iv = chars_of(ip_text);
    if text_contains(&iv, &qv) {
        return true;
    }
    if field_contains(hostname, &qv) || field_contains(vendor, &qv) {
        return true;
    }
    let mut i: usize = 0;
    while i < open_ports.len()
        invariant
            0 <= i <= open_ports.len(),
            qv@ == query@,
            query@.len() > 0,
            !(alive_only && !is_alive),
            forall|j: int| 0 <= j < i ==> !contains_seq(decimal(#[trigger] open_ports@[j] as nat), qv@),
        decreases open_ports.len() - i,
    {
        let mut dv: Vec<char> = Vec::new();
        push_decimal(&mut dv, open_ports[i] as u64);
        assert(dv@ =~= decimal(open_ports@[i as int] as nat));
        if text_contains(&dv, &qv) {
            assert(contains_seq(decimal(open_ports@[i as int] as nat), query@));
            return true;
        }
        i += 1;
    }
    false
}

/// User-editable scan settings.
#[derive(Clone, Debug)]
pub struct ScannerPreferences {
    pub ports_str: String,
    pub threads: usize,
    pub timeout_ms: u64,
    pub ping_method: PingMethod,
    pub resolve_hostname: bool,
    pub lookup_mac: bool,
    pub fetch_web_title: bool,
    pub scan_dead_hosts: bool,
}

impl Default for ScannerPreferences {
    fn default() -> (r: Self)
        ensures
            r.ports_str@ == "80, 443, 22, 8080"@,
            r.threads == 64,
            r.timeout_ms == 1000,
            r.ping_method == PingMethod::TcpPort,
            r.resolve_hostname,
            r.lookup_mac,
            r.fetch_web_title,
            !r.scan_dead_hosts,
    {
        let defaults = ScanOptions::default();
        ScannerPreferences {
            ports_str: String::from_str("80, 443, 22, 8080"),
            threads: defaults.threads,
            timeout_ms: defaults.timeout_ms,
            ping_method: defaults.ping_method,
            resolve_hostname: defaults.resolve_hostname,
            lookup_mac: defaults.lookup_mac,
            fetch_web_title: defaults.fetch_web_title,
            scan_dead_hosts: defaults.scan_dead_hosts,
        }
    }
}

impl ScannerPreferences {
    /// The scan settings these preferences stand for.
    pub fn to_scan_options(&self) -> (r: ScanOptions)
        ensures
            strictly_ascending(r.ports@),
            forall|p: u16| r.ports@.contains(p) <==> (p != 0 && port_listed(self.ports_str@, p as nat)),
            r.ping_method == self.ping_method,
            r.timeout_ms == self.timeout_ms,
            r.threads == self.threads,
            r.resolve_hostname == self.resolve_hostname,
            r.lookup_mac == self.lookup_mac,
            r.fetch_web_title == self.fetch_web_title,
            r.scan_dead_hosts == self.scan_dead_hosts,
    {
        ScanOptions {
            ports: parse_ports(self.ports_str.as_str()),
            ping_method: self.ping_method,
            timeout_ms: self.timeout_ms,
            threads: self.threads,
            resolve_hostname: self.resolve_hostname,
            lookup_mac: self.lookup_mac,
            fetch_web_title: self.fetch_web_title,
            scan_dead_hosts: self.scan_dead_hosts,
        }
    }
}

/// `from/netmask`, the subnet text of the netmask mode.
pub open spec fn subnet_text(from: Seq<char>, netmask: u8) -> Seq<char> {
    trim(from) + seq!['/'] + decimal(netmask as nat)
}

pub open spec fn invalid_range_error(from: Seq<char>, to: Seq<char>) -> Seq<char> {
    "'"@ + from + "' to '"@ + to + "' is not a valid IPv4 range"@
}

fn subnet_string(from: &str, netmask: u8) -> (r: String)
    ensures
        r@ == subnet_text(from@, netmask),
{
    let v = chars_of(from);
    assert(v@.subrange(0, v.len() as int) =~= from@);
    let (a, b) = trim_bounds(&v, 0, v.len());
    let mut tail: Vec<char> = vec!['/'];
    push_decimal(&mut tail, netmask as u64);
    let mut s = crate::text::string_of(&v, a, b);
    crate::text::push_window(&mut s, &tail, 0, tail.len());
    assert(tail@.subrange(0, tail.len() as int) =~= seq!['/'] + decimal(netmask as nat));
    s
}

/// The targets of the current mode and inputs. In range mode two IPv4 addresses give the
/// range between them; a blank second box lets the first accept anything a command-line
/// target accepts; anything else is an error.
pub fn targets_for(
    mode: ScanMode,
    ip_from: &str,
    ip_to: &str,
    netmask: u8,
    random_count: usize,
    seed: u64,
) -> (r: TargetParse)
    ensures
        mode == ScanMode::Random ==> (r matches TargetParse::Parsed(Ok(v)) && v.len()
            <= random_count && exists|k: nat|
            k <= u64::MAX && r->Parsed_0->Ok_0@ == #[trigger] public_draws(start_state(seed), k)
                && (r->Parsed_0->Ok_0.len() == random_count || k == u64::MAX)),
        mode == ScanMode::Netmask ==> (r matches TargetParse::Parsed(x) && res_view(x)
            == cidr_result(subnet_text(ip_from@, netmask))),
        mode == ScanMode::IpRange ==> match (ipv4_text(trim(ip_from@)), ipv4_text(trim(ip_to@))) {
            (Some(s), Some(e)) => r matches TargetParse::Parsed(Ok(v)) && v@ == ascending_range(s, e),
            _ => if trim(ip_to@).len() == 0 {
                match r {
                    TargetParse::Parsed(x) => target_result(ip_from@) == Some(res_view(x)),
                    TargetParse::Resolve(h) => target_result(ip_from@) is None && h@ == trim(
                        ip_from@,
                    ),
                }
            } else {
                r matches TargetParse::Parsed(Err(e)) && e@ == invalid_range_error(
                    trim(ip_from@),
                    trim(ip_to@),
                )
            },
        },
{
    match mode {
        ScanMode::Random => {
            let v = generate_random_ips(random_count, seed);
            TargetParse::Parsed(Ok(v))
        },
        ScanMode::Netmask => {
            let text = subnet_string(ip_from, netmask);
            TargetParse::Parsed(generate_from_cidr(text.as_str()))
        },
        ScanMode::IpRange => {
            let fv = chars_of(ip_from);
            let tv = chars_of(ip_to);
            assert(fv@.subrange(0, fv.len() as int) =~= ip_from@);
            assert(tv@.subrange(0, tv.len() as int) =~= ip_to@);
            let (fa, fb) = trim_bounds(&fv, 0, fv.len());
            let (ta, tb) = trim_bounds(&tv, 0, tv.len());
            match (parse_ipv4_window(&fv, fa, fb), parse_ipv4_window(&tv, ta, tb)) {
                (Some(s), Some(e)) => TargetParse::Parsed(Ok(generate_range_v4(s, e))),
                _ => {
                    if ta == tb {
                        parse_target(ip_from)
                    } else {
                        let mut msg = String::from_str("'");
                        crate::text::push_window(&mut msg, &fv, fa, fb);
                        msg.append("' to '");
                        crate::text::push_window(&mut msg, &tv, ta, tb);
                        msg.append("' is not a valid IPv4 range");
                        TargetParse::Parsed(Err(msg))
                    }
                },
            }
        },
    }
}

/// The last address of the subnet that the netmask mode would scan, for filling in the
/// second address box; `None` when the first box is not an IPv4 address.
pub fn netmask_range_end(ip_from: &str, netmask: u8) -> (r: Option<IpAddress>)
    ensures
        ipv4_text(trim(ip_from@)) is None ==> r is None,
        ipv4_text(trim(ip_from@)) is Some ==> r == (match cidr_result(subnet_text(ip_from@, netmask)) {
            Ok(v) => if v.len() > 0 {
                Some(v.last())
            } else {
                None
            },
            Err(_) => None,
        }),
{
    let fv = chars_of(ip_from);
    assert(fv@.subrange(0, fv.len() as int) =~= ip_from@);
    let (fa, fb) = trim_bounds(&fv, 0, fv.len());
    if parse_ipv4_window(&fv, fa, fb).is_none() {
        return None;
    }
    let text = subnet_string(ip_from, netmask);
    match generate_from_cidr(text.as_str()) {
        Ok(v) => if v.len() > 0 {
            Some(v[v.len() - 1])
        } else {
            None
        },
        Err(_) => None,
    }
}

} // verus!
