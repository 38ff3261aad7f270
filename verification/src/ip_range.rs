//! Target expressions: IPv4 addresses, ranges, CIDR subnets, random public addresses.
use vstd::prelude::*;
use vstd::arithmetic::power2::pow2;
use vstd::string::StringExecFns;
use crate::text::{
    all_digits, chars_of, count_until, dec_value, is_digit, parse_uint, parse_uint_in,
    piece_end, slices, split_on, split_windows, trim, trim_bounds, windows_within,
};

verus! {

/// An IP address: IPv4 as its 32-bit number, IPv6 as its 128-bit number.
#[derive(Clone, Copy, Debug, PartialEq, Eq, Structural)]
pub enum IpAddress {
    V4(u32),
    V6(u128),
}

/// The position of an address in the order of `std::net::IpAddr`: every IPv4 address
/// before every IPv6 address, each family in numeric order.
pub open spec fn ip_rank(a: IpAddress) -> int {
    match a {
        IpAddress::V4(x) => x as int,
        IpAddress::V6(y) => 0x1_0000_0000 + y as int,
    }
}

/// One decimal octet of a dotted-quad address: one to three digits, no leading zero,
/// at most 255.
pub open spec fn dec_octet(p: Seq<char>) -> bool {
    &&& 1 <= p.len() <= 3
    &&& all_digits(p)
    &&& (p.len() == 1 || p[0] != '0')
    &&& dec_value(p) <= 255
}

/// The address that a dotted quad such as `192.168.1.10` denotes (`Ipv4Addr::from_str`).
pub open spec fn ipv4_text(s: Seq<char>) -> Option<u32> {
    let parts = split_on(s, '.');
    if parts.len() == 4 && forall|i: int| 0 <= i < 4 ==> dec_octet(#[trigger] parts[i]) {
        Some(
            (dec_value(parts[0]) * 16777216 + dec_value(parts[1]) * 65536 + dec_value(parts[2])
                * 256 + dec_value(parts[3])) as u32,
        )
    } else {
        None
    }
}

/// Every address from the lower to the higher of `a` and `b`, ascending.
pub open spec fn ascending_range(a: u32, b: u32) -> Seq<IpAddress> {
    let lo = if a <= b {
        a
    } else {
        b
    };
    let hi = if a <= b {
        b
    } else {
        a
    };
    Seq::new((hi - lo + 1) as nat, |i: int| IpAddress::V4((lo + i) as u32))
}

fn parse_octet(v: &Vec<char>, a: usize, b: usize) -> (r: Option<u32>)
    requires
        a <= b <= v.len(),
    ensures
        dec_octet(v@.subrange(a as int, b as int)) ==> r == Some(
            dec_value(v@.subrange(a as int, b as int)) as u32,
        ),
        !dec_octet(v@.subrange(a as int, b as int)) ==> r is None,
{
    let ghost p = v@.subrange(a as int, b as int);
    if b == a || b - a > 3 {
        return None;
    }
    if !('0' <= v[a] && v[a] <= '9') {
        assert(p[0] == v@[a as int]);
        assert(!is_digit(p[0]));
        return None;
    }
    if b - a > 1 && v[a] == '0' {
        assert(p[0] == v@[a as int]);
        return None;
    }
    assert(p[0] == v@[a as int]);
    match parse_uint_in(v, a, b, 255) {
        Some(x) => {
            assert(parse_uint(p, 255) == Some(x as nat));
            Some(x)
        },
        None => None,
    }
}

/// `ipv4_text` of `v[lo..hi]`.
pub fn parse_ipv4_window(v: &Vec<char>, lo: usize, hi: usize) -> (r: Option<u32>)
    requires
        lo <= hi <= v.len(),
    ensures
        r == ipv4_text(v@.subrange(lo as int, hi as int)),
{
    let parts = split_windows(v, lo, hi, '.');
    let ghost ps = split_on(v@.subrange(lo as int, hi as int), '.');
    if parts.len() != 4 {
        return None;
    }
    let mut vals: Vec<u32> = Vec::new();
    let mut i: usize = 0;
    while i < 4
        invariant
            0 <= i <= 4,
            parts.len() == 4,
            lo <= hi <= v.len(),
            ps == split_on(v@.subrange(lo as int, hi as int), '.'),
            slices(v@, parts@) == ps,
            windows_within(parts@, lo as int, hi as int),
            vals.len() == i,
            forall|j: int| 0 <= j < i ==> dec_octet(#[trigger] ps[j]),
            forall|j: int| 0 <= j < i ==> vals@[j] == dec_value(#[trigger] ps[j]),
        decreases 4 - i,
    {
        let (a, b) = parts[i];
        assert(ps[i as int] == v@.subrange(a as int, b as int));
        match parse_octet(v, a, b) {
            None => {
                return None;
            },
            Some(x) => {
                vals.push(x);
            },
        }
        i += 1;
    }
    assert(dec_octet(ps[0]) && dec_octet(ps[1]) && dec_octet(ps[2]) && dec_octet(ps[3]));
    Some(vals[0] * 16777216 + vals[1] * 65536 + vals[2] * 256 + vals[3])
}

/// Parse a dotted-quad IPv4 address.
pub fn parse_ipv4(s: &str) -> (r: Option<u32>)
    ensures
        r == ipv4_text(s@),
{
    let v = chars_of(s);
    assert(v@.subrange(0, v.len() as int) =~= s@);
    parse_ipv4_window(&v, 0, v.len())
}

/// Generate every address between `start` and `end` inclusive, in ascending order
/// regardless of which bound is given first.
pub fn generate_range_v4(start: u32, end: u32) -> (r: Vec<IpAddress>)
    ensures
        r@ == ascending_range(start, end),
{
    let (low, high) = if start <= end {
        (start, end)
    } else {
        (end, start)
    };
    let mut r: Vec<IpAddress> = Vec::new();
    let mut x: u64 = low as u64;
    while x <= high as u64
        invariant
            low <= x <= high as u64 + 1,
            r@ =~= Seq::new((x - low) as nat, |i: int| IpAddress::V4((low + i) as u32)),
        decreases high as u64 + 1 - x,
    {
        r.push(IpAddress::V4(x as u32));
        x += 1;
    }
    r
}


#[verifier::external_type_specification]
#[verifier::external_body]
pub struct ExAddrParseError(ipnet::AddrParseError);

/// One octet as ipnet's parser reads it: one to three decimal digits (leading zeros
/// allowed) with a value below 256.
pub open spec fn net_octet(p: Seq<char>) -> bool {
    &&& 1 <= p.len() <= 3
    &&& all_digits(p)
    &&& dec_value(p) <= 255
}

/// What `<ipnet::Ipv4Net as FromStr>::from_str` reads from a text: four dotted octets, a
/// `/`, one or two decimal digits with a value up to 32, and nothing else. It gives the
/// address as written and the prefix length; `None` for any other text.
pub open spec fn ipv4_net_syntax(s: Seq<char>) -> Option<(u32, u8)> {
    let halves = split_on(s, '/');
    if halves.len() != 2 {
        None
    } else {
        let parts = split_on(halves[0], '.');
        let pre = halves[1];
        if parts.len() == 4 && (forall|i: int| 0 <= i < 4 ==> net_octet(#[trigger] parts[i]))
            && 1 <= pre.len() <= 2 && all_digits(pre) && dec_value(pre) <= 32 {
            Some(
                (
                    (dec_value(parts[0]) * 16777216 + dec_value(parts[1]) * 65536 + dec_value(
                        parts[2],
                    ) * 256 + dec_value(parts[3])) as u32,
                    dec_value(pre) as u8,
                ),
            )
        } else {
            None
        }
    }
}

/// Calls `<ipnet::Ipv4Net as FromStr>::from_str` and reads the network's `addr()` and
/// `prefix_len()`. The contract states the grammar that ipnet's parser accepts (its
/// `read_ipv4_net`: greedy digit runs of at most three digits below 256 per octet, and of
/// at most two digits below 33 for the prefix, then the end of the text), and so that a
/// parsed prefix length is at most 32.
#[verifier::external_body]
fn parse_ipv4_net(s: &str) -> (r: Result<(u32, u8), ipnet::AddrParseError>)
    ensures
        r is Ok <==> ipv4_net_syntax(s@) is Some,
        r matches Ok(n) ==> ipv4_net_syntax(s@) == Some(n) && n.1 <= 32,
{
    match s.parse::<ipnet::Ipv4Net>() {
        Ok(n) => Ok((u32::from(n.addr()), n.prefix_len())),
        Err(e) => Err(e),
    }
}

/// First and last address of the block of size `2^(32 - p)` that holds `a`.
pub open spec fn cidr_block(a: u32, p: nat) -> (int, int) {
    let size = pow2((32 - p) as nat) as int;
    let net = a as int - (a as int) % size;
    (net, net + size - 1)
}

/// The host addresses of `a/p`: the block without its network and broadcast address, or,
/// for `/31` and `/32`, which have no host addresses, the network address itself.
pub open spec fn cidr_hosts(a: u32, p: nat) -> Seq<IpAddress> {
    let (net, bc) = cidr_block(a, p);
    if p < 31 {
        Seq::new((bc - net - 1) as nat, |i: int| IpAddress::V4((net + 1 + i) as u32))
    } else {
        seq![IpAddress::V4(net as u32)]
    }
}

pub open spec fn res_view(r: Result<Vec<IpAddress>, String>) -> Result<Seq<IpAddress>, Seq<char>> {
    match r {
        Ok(v) => Ok(v@),
        Err(e) => Err(e@),
    }
}

/// What `generate_from_cidr` gives for a CIDR text.
pub open spec fn cidr_result(s: Seq<char>) -> Result<Seq<IpAddress>, Seq<char>> {
    match ipv4_net_syntax(trim(s)) {
        Some((a, p)) => Ok(cidr_hosts(a, p as nat)),
        None => Err("Invalid CIDR: invalid IP address syntax"@),
    }
}

/// `2^(32 - p)`.
pub fn block_size(p: u8) -> (size: u64)
    requires
        p <= 32,
    ensures
        size == pow2((32 - p) as nat),
        1 <= size <= 0x1_0000_0000,
{
    let mut size: u64 = 1;
    let mut k: u8 = 0;
    proof {
        vstd::arithmetic::power2::lemma2_to64();
    }
    while k < 32 - p
        invariant
            p <= 32,
            0 <= k <= 32 - p,
            size == pow2(k as nat),
            pow2(32) == 0x1_0000_0000,
        decreases 32 - p - k,
    {
        proof {
            vstd::arithmetic::power2::lemma_pow2_unfold((k + 1) as nat);
            vstd::arithmetic::power2::lemma_pow2_strictly_increases((k + 1) as nat, 33);
            vstd::arithmetic::power2::lemma_pow2_unfold(33);
            if k + 1 < 32 {
                vstd::arithmetic::power2::lemma_pow2_strictly_increases((k + 1) as nat, 32);
            }
        }
        size = size * 2;
        k += 1;
    }
    proof {
        vstd::arithmetic::power2::lemma_pow2_pos(k as nat);
        if k < 32 {
            vstd::arithmetic::power2::lemma_pow2_strictly_increases(k as nat, 32);
        }
    }
    size
}

/// The block of size `2^(32 - p)` that holds `a` lies inside the IPv4 space.
proof fn lemma_block_fits(a: int, size: int, p: nat)
    requires
        p <= 32,
        0 <= a <= 0xFFFF_FFFF,
        size == pow2((32 - p) as nat),
        1 <= size,
    ensures
        0 <= a % size <= a,
        a - a % size + size <= 0x1_0000_0000,
{
    vstd::arithmetic::power2::lemma2_to64();
    vstd::arithmetic::power2::lemma_pow2_adds((32 - p) as nat, p);
    vstd::arithmetic::power2::lemma_pow2_pos(p);
    let m = pow2(p) as int;
    assert(size * m == 0x1_0000_0000);
    vstd::arithmetic::div_mod::lemma_fundamental_div_mod(a, size);
    let q = a / size;
    assert(0 <= a % size < size) by {
        vstd::arithmetic::div_mod::lemma_mod_bound(a, size);
    }
    assert(a == size * q + a % size);
    assert(q >= 0) by (nonlinear_arith)
        requires
            a == size * q + a % size,
            a % size < size,
            a >= 0,
            size >= 1,
    {
    }
    assert(q < m) by (nonlinear_arith)
        requires
            a == size * q + a % size,
            0 <= a % size,
            a < size * m,
            size >= 1,
    {
    }
    assert(size * q + size <= size * m) by (nonlinear_arith)
        requires
            q + 1 <= m,
            size >= 1,
    {
    }
}

/// Generate the host addresses of an IPv4 subnet given in CIDR notation.
/// `/31` and `/32` networks, which have no "host" addresses, yield the network address itself.
pub fn generate_from_cidr(cidr_str: &str) -> (r: Result<Vec<IpAddress>, String>)
    ensures
        res_view(r) == cidr_result(cidr_str@),
{
    let v = chars_of(cidr_str);
    let (a, b) = trim_bounds(&v, 0, v.len());
    assert(v@.subrange(0, v.len() as int) =~= cidr_str@);
    let trimmed = crate::text::string_of(&v, a, b);
    let (addr, prefix) = match parse_ipv4_net(trimmed.as_str()) {
        Ok(n) => n,
        Err(_) => {
            return Err(String::from_str("Invalid CIDR: invalid IP address syntax"));
        },
    };
    let size = block_size(prefix);
    let a64 = addr as u64;
    proof {
        lemma_block_fits(a64 as int, size as int, prefix as nat);
    }
    let net = a64 - a64 % size;
    let bc = net + size - 1;
    let mut r: Vec<IpAddress> = Vec::new();
    if prefix < 31 {
        assert(size >= 4) by {
            vstd::arithmetic::power2::lemma2_to64();
            if 32 - prefix > 2 {
                vstd::arithmetic::power2::lemma_pow2_strictly_increases(2, (32 - prefix) as nat);
            }
        }
        let mut x: u64 = net + 1;
        while x < bc
            invariant
                net + 1 <= x <= bc,
                bc <= 0xFFFF_FFFF,
                r@ =~= Seq::new((x - net - 1) as nat, |i: int| IpAddress::V4((net + 1 + i) as u32)),
            decreases bc - x,
        {
            r.push(IpAddress::V4(x as u32));
            x += 1;
        }
    } else {
        r.push(IpAddress::V4(net as u32));
    }
    Ok(r)
}

/// The end of a short range `a.b.c.d-e`: the start with its last octet replaced.
pub open spec fn short_range_end(start: u32, last: nat) -> u32 {
    (start as int - (start as int) % 256 + last) as u32
}

pub open spec fn end_ip_error(e: Seq<char>) -> Seq<char> {
    "Invalid end IP '"@ + e + "': invalid IPv4 address syntax"@
}

/// What a text of the form `start-end` stands for: `None` when it has no `-` or the text
/// before the first `-` is not an IPv4 address (a hyphenated host name); otherwise the
/// ascending range, where `end` is a last octet or a full address, or an error naming
/// an invalid end.
pub open spec fn range_result(t: Seq<char>) -> Option<Result<Seq<IpAddress>, Seq<char>>> {
    let n = count_until(t, '-');
    if n >= t.len() {
        None
    } else {
        let start_s = trim(t.take(n as int));
        let end_s = trim(t.skip(n + 1 as int));
        match ipv4_text(start_s) {
            None => None,
            Some(st) => match parse_uint(end_s, 255) {
                Some(o) => Some(Ok(ascending_range(st, short_range_end(st, o)))),
                None => match ipv4_text(end_s) {
                    Some(en) => Some(Ok(ascending_range(st, en))),
                    None => Some(Err(end_ip_error(end_s))),
                },
            },
        }
    }
}

pub open spec fn opt_res_view(r: Option<Result<Vec<IpAddress>, String>>) -> Option<
    Result<Seq<IpAddress>, Seq<char>>,
> {
    match r {
        Some(x) => Some(res_view(x)),
        None => None,
    }
}

/// `range_result` of `v[lo..hi]`.
fn range_in(v: &Vec<char>, lo: usize, hi: usize) -> (r: Option<Result<Vec<IpAddress>, String>>)
    requires
        lo <= hi <= v.len(),
    ensures
        opt_res_view(r) == range_result(v@.subrange(lo as int, hi as int)),
{
    let ghost t = v@.subrange(lo as int, hi as int);
    let e = piece_end(v, lo, hi, '-');
    if e == hi {
        return None;
    }
    assert(t.take(e - lo) =~= v@.subrange(lo as int, e as int));
    assert(t.skip(e - lo + 1) =~= v@.subrange(e + 1, hi as int));
    let (sa, sb) = trim_bounds(v, lo, e);
    let (ea, eb) = trim_bounds(v, e + 1, hi);
    let st = match parse_ipv4_window(v, sa, sb) {
        None => return None,
        Some(st) => st,
    };
    match parse_uint_in(v, ea, eb, 255) {
        Some(o) => {
            let end = st - st % 256 + o;
            return Some(Ok(generate_range_v4(st, end)));
        },
        None => {},
    }
    match parse_ipv4_window(v, ea, eb) {
        Some(en) => Some(Ok(generate_range_v4(st, en))),
        None => {
            let mut msg = String::from_str("Invalid end IP '");
            crate::text::push_window(&mut msg, v, ea, eb);
            msg.append("': invalid IPv4 address syntax");
            Some(Err(msg))
        },
    }
}

/// Interpret `target` as an IPv4 range if it looks like one.
///
/// Accepts `192.168.1.1-192.168.1.254`, `192.168.1.1 - 192.168.1.254` and the short form
/// `192.168.1.1-254`. Returns `None` when the text before the dash is not an IPv4 address,
/// so hostnames such as `my-nas.local` fall through to name resolution.
pub fn parse_range(target: &str) -> (r: Option<Result<Vec<IpAddress>, String>>)
    ensures
        opt_res_view(r) == range_result(target@),
{
    let v = chars_of(target);
    assert(v@.subrange(0, v.len() as int) =~= target@);
    range_in(&v, 0, v.len())
}

/// What a target expression stands for, or `None` when it is left to name resolution.
pub open spec fn target_result(s: Seq<char>) -> Option<Result<Seq<IpAddress>, Seq<char>>> {
    let t = trim(s);
    if t.len() == 0 {
        Some(Err("Target cannot be empty"@))
    } else if count_until(t, '/') < t.len() {
        Some(cidr_result(t))
    } else {
        match range_result(t) {
            Some(r) => Some(r),
            None => match ipv4_text(t) {
                Some(a) => Some(Ok(seq![IpAddress::V4(a)])),
                None => None,
            },
        }
    }
}

/// A target expression, parsed as far as text allows.
pub enum TargetParse {
    /// The addresses the target denotes, or why it is invalid.
    Parsed(Result<Vec<IpAddress>, String>),
    /// The (trimmed) target is an IPv6 address or a host name, to be resolved.
    Resolve(String),
}

/// Parse a target expression. Supported forms:
/// - CIDR: `192.168.1.0/24`
/// - Range: `192.168.1.1 - 192.168.1.254` or `192.168.1.1-192.168.1.254`
/// - Short range: `192.168.1.1-254`
/// - Single IPv4 address: `192.168.1.10`
///
/// Anything else (an IPv6 address such as `::1`, a host name such as `router.local`) is
/// handed back for resolution.
pub fn parse_target(target: &str) -> (r: TargetParse)
    ensures
        match r {
            TargetParse::Parsed(x) => target_result(target@) == Some(res_view(x)),
            TargetParse::Resolve(h) => target_result(target@) is None && h@ == trim(target@),
        },
{
    let v = chars_of(target);
    assert(v@.subrange(0, v.len() as int) =~= target@);
    let (a, b) = trim_bounds(&v, 0, v.len());
    let ghost t = v@.subrange(a as int, b as int);
    if a == b {
        return TargetParse::Parsed(Err(String::from_str("Target cannot be empty")));
    }
    let slash = piece_end(&v, a, b, '/');
    if slash < b {
        let text = crate::text::string_of(&v, a, b);
        return TargetParse::Parsed(generate_from_cidr(text.as_str()));
    }
    match range_in(&v, a, b) {
        Some(r) => return TargetParse::Parsed(r),
        None => {},
    }
    match parse_ipv4_window(&v, a, b) {
        Some(ip) => {
            let mut one: Vec<IpAddress> = Vec::new();
            one.push(IpAddress::V4(ip));
            assert(one@ =~= seq![IpAddress::V4(ip)]);
            TargetParse::Parsed(Ok(one))
        },
        None => TargetParse::Resolve(crate::text::string_of(&v, a, b)),
    }
}

/// Strictly ascending in the order of `ip_rank`, hence free of duplicates.
pub open spec fn strictly_ranked(s: Seq<IpAddress>) -> bool {
    forall|i: int, j: int| 0 <= i < j < s.len() ==> ip_rank(s[i]) < ip_rank(s[j])
}

proof fn lemma_rank_injective(x: IpAddress, y: IpAddress)
    requires
        ip_rank(x) == ip_rank(y),
    ensures
        x == y,
{
}

fn ip_before(x: IpAddress, y: IpAddress) -> (r: bool)
    ensures
        r == (ip_rank(x) < ip_rank(y)),
{
    match (x, y) {
        (IpAddress::V4(a), IpAddress::V4(b)) => a < b,
        (IpAddress::V4(_), IpAddress::V6(_)) => true,
        (IpAddress::V6(_), IpAddress::V4(_)) => false,
        (IpAddress::V6(a), IpAddress::V6(b)) => a < b,
    }
}

fn insert_sorted(v: &mut Vec<IpAddress>, x: IpAddress)
    requires
        strictly_ranked(old(v)@),
    ensures
        strictly_ranked(final(v)@),
        forall|y: IpAddress| final(v)@.contains(y) <==> (old(v)@.contains(y) || y == x),
{
    let mut pos: usize = 0;
    while pos < v.len() && ip_before(v[pos], x)
        invariant
            0 <= pos <= v.len(),
            v@ == old(v)@,
            forall|i: int| 0 <= i < pos ==> ip_rank(#[trigger] v@[i]) < ip_rank(x),
        decreases v.len() - pos,
    {
        pos += 1;
    }
    if pos < v.len() && v[pos] == x {
        assert(v@[pos as int] == x);
        return;
    }
    proof {
        if pos < v.len() {
            assert(ip_rank(v@[pos as int]) != ip_rank(x)) by {
                if ip_rank(v@[pos as int]) == ip_rank(x) {
                    lemma_rank_injective(v@[pos as int], x);
                }
            }
        }
    }
    let ghost before = v@;
    v.insert(pos, x);
    assert forall|y: IpAddress| v@.contains(y) <==> (before.contains(y) || y == x) by {
        if v@.contains(y) {
            let i = choose|i: int| 0 <= i < v@.len() && v@[i] == y;
            if i < pos {
                assert(before[i] == y);
            } else if i > pos {
                assert(before[i - 1] == y);
            }
        }
        if before.contains(y) {
            let i = choose|i: int| 0 <= i < before.len() && before[i] == y;
            if i < pos {
                assert(v@[i] == y);
            } else {
                assert(v@[i + 1] == y);
            }
        }
        if y == x {
            assert(v@[pos as int] == x);
        }
    }
}

/// The message for a target that is neither text nor a resolvable name.
pub open spec fn unparsable_target(t: Seq<char>) -> Seq<char> {
    "Unable to parse target '"@ + t + "' as CIDR, IP range, IP address, or hostname"@
}

/// Finish a target that was handed back for resolution: the addresses its name resolved
/// to, ascending and without duplicates, or an error when there are none.
pub fn resolved_targets(target: &str, addrs: Vec<IpAddress>) -> (r: Result<Vec<IpAddress>, String>)
    ensures
        addrs@.len() == 0 ==> (r matches Err(e) && e@ == unparsable_target(target@)),
        addrs@.len() > 0 ==> (r matches Ok(v) && strictly_ranked(v@) && forall|y: IpAddress|
            v@.contains(y) <==> addrs@.contains(y)),
{
    if addrs.len() == 0 {
        let mut msg = String::from_str("Unable to parse target '");
        msg.append(target);
        msg.append("' as CIDR, IP range, IP address, or hostname");
        return Err(msg);
    }
    let mut out: Vec<IpAddress> = Vec::new();
    let mut i: usize = 0;
    while i < addrs.len()
        invariant
            0 <= i <= addrs.len(),
            strictly_ranked(out@),
            forall|y: IpAddress| out@.contains(y) <==> addrs@.take(i as int).contains(y),
        decreases addrs.len() - i,
    {
        let ghost prev = out@;
        insert_sorted(&mut out, addrs[i]);
        assert forall|y: IpAddress| addrs@.take(i + 1).contains(y) <==> (addrs@.take(
            i as int,
        ).contains(y) || y == addrs@[i as int]) by {
            let t1 = addrs@.take(i + 1);
            let t0 = addrs@.take(i as int);
            if t1.contains(y) {
                let j = choose|j: int| 0 <= j < t1.len() && t1[j] == y;
                if j < i {
                    assert(t0[j] == y);
                }
            }
            if t0.contains(y) {
                let j = choose|j: int| 0 <= j < t0.len() && t0[j] == y;
                assert(t1[j] == y);
            }
            if y == addrs@[i as int] {
                assert(addrs@.take(i + 1)[i as int] == y);
            }
        }
        assert forall|y: IpAddress| out@.contains(y) <==> addrs@.take(i + 1).contains(y) by {
            assert(out@.contains(y) <==> (prev.contains(y) || y == addrs@[i as int]));
            assert(prev.contains(y) <==> addrs@.take(i as int).contains(y));
        }
        i += 1;
    }
    assert(addrs@.take(addrs.len() as int) =~= addrs@);
    Ok(out)
}

/// Calls `local_ip_address::local_ip`, which asks the operating system for the machine's
/// address on the local network, and renders it as text. Nothing is stated of the answer,
/// which depends on the machine.
#[verifier::external_body]
fn local_ip_text() -> (r: Option<String>) {
    match local_ip_address::local_ip() {
        Ok(ip) => Some(ip.to_string()),
        Err(_) => None,
    }
}

/// The default range for a local address given as text: `(local_ip, range_start,
/// range_end)` with `.1` to `.254` of its `/24`, or `None` when the text is not an IPv4
/// address.
pub fn local_range_of(ip_text: &str) -> (r: Option<(u32, u32, u32)>)
    ensures
        match ipv4_text(ip_text@) {
            Some(ip) => r == Some(
                (ip, (ip - ip % 256 + 1) as u32, (ip - ip % 256 + 254) as u32),
            ),
            None => r is None,
        },
{
    match parse_ipv4(ip_text) {
        Some(ip) => {
            let base = ip - ip % 256;
            Some((ip, base + 1, base + 254))
        },
        None => None,
    }
}

/// Detect the primary local IPv4 address and derive a default `/24` range from it.
/// Returns `(local_ip, range_start, range_end)`: `.1` to `.254` of the local `/24`, or
/// `None` when the local address is unknown or not IPv4.
pub fn detect_local_range() -> (r: Option<(u32, u32, u32)>)
    ensures
        r matches Some((ip, start, end)) ==> start == ip - ip % 256 + 1 && end == ip - ip % 256
            + 254,
{
    match local_ip_text() {
        Some(t) => local_range_of(t.as_str()),
        None => None,
    }
}

/// The four octets `a.b.c.d` of an address.
pub open spec fn octet(ip: u32, k: int) -> int {
    if k == 0 {
        ip as int / 16777216
    } else if k == 1 {
        (ip as int / 65536) % 256
    } else if k == 2 {
        (ip as int / 256) % 256
    } else {
        ip as int % 256
    }
}

/// Addresses that can exist on the public Internet: not unspecified, private, loopback,
/// link-local, broadcast, multicast, documentation, "this network", carrier-grade NAT,
/// IETF protocol assignments, benchmarking or reserved space.
pub open spec fn is_public(ip: u32) -> bool {
    let a = octet(ip, 0);
    let b = octet(ip, 1);
    let c = octet(ip, 2);
    !({
        ||| ip == 0
        ||| a == 10
        ||| (a == 172 && 16 <= b <= 31)
        ||| (a == 192 && b == 168)
        ||| a == 127
        ||| (a == 169 && b == 254)
        ||| ip == 0xFFFF_FFFF
        ||| 224 <= a <= 239
        ||| (a == 192 && b == 0 && c == 2)
        ||| (a == 198 && b == 51 && c == 100)
        ||| (a == 203 && b == 0 && c == 113)
        ||| a == 0
        ||| a >= 224
        ||| (a == 100 && 64 <= b <= 127)
        ||| (a == 192 && b == 0 && c == 0)
        ||| (a == 198 && 18 <= b <= 19)
    })
}

/// True for addresses that can exist on the public Internet.
pub fn is_public_ipv4(ip: u32) -> (r: bool)
    ensures
        r == is_public(ip),
{
    let a = ip / 16777216;
    let b = (ip / 65536) % 256;
    let c = (ip / 256) % 256;
    let unspecified = ip == 0;
    let private = a == 10 || (a == 172 && 16 <= b && b <= 31) || (a == 192 && b == 168);
    let loopback = a == 127;
    let link_local = a == 169 && b == 254;
    let broadcast = ip == 0xFFFF_FFFF;
    let multicast = 224 <= a && a <= 239;
    let documentation = (a == 192 && b == 0 && c == 2) || (a == 198 && b == 51 && c == 100) || (a
        == 203 && b == 0 && c == 113);
    !(unspecified || private || loopback || link_local || broadcast || multicast || documentation
        || a == 0 || a >= 224 || (a == 100 && 64 <= b && b <= 127) || (a == 192 && b == 0 && c
        == 0) || (a == 198 && 18 <= b && b <= 19))
}

/// One step of the xorshift64 generator.
pub open spec fn xorshift(s: u64) -> u64 {
    let a = s ^ (s << 13u64);
    let b = a ^ (a >> 7u64);
    b ^ (b << 17u64)
}

/// The generator state after `k` steps from `s`.
pub open spec fn state_after(s: u64, k: nat) -> u64
    decreases k,
{
    if k == 0 {
        s
    } else {
        xorshift(state_after(s, (k - 1) as nat))
    }
}

/// The candidate address a state proposes: its upper 32 bits.
pub open spec fn candidate(s: u64) -> u32 {
    (s >> 32u64) as u32
}

/// The public candidates among the first `k` draws from `s`, in order.
pub open spec fn public_draws(s: u64, k: nat) -> Seq<IpAddress>
    decreases k,
{
    if k == 0 {
        seq![]
    } else {
        let prev = public_draws(s, (k - 1) as nat);
        let c = candidate(state_after(s, k));
        if is_public(c) {
            prev.push(IpAddress::V4(c))
        } else {
            prev
        }
    }
}

/// The generator's starting state for a seed (zero would be a fixed point).
pub open spec fn start_state(seed: u64) -> u64 {
    if seed == 0 {
        0x9E37_79B9_7F4A_7C15
    } else {
        seed
    }
}

/// Generate `count` random public IPv4 addresses for the random scan mode
/// from `seed`, with the xorshift64 generator, skipping candidates that are not
/// public. The draws stop once `count` addresses are found, or after `u64::MAX` draws.
pub fn generate_random_ips(count: usize, seed: u64) -> (r: Vec<IpAddress>)
    ensures
        r.len() <= count,
        exists|k: nat|
            k <= u64::MAX && r@ == #[trigger] public_draws(start_state(seed), k) && (r.len()
                == count || k == u64::MAX),
{
    let mut state = if seed == 0 {
        0x9E37_79B9_7F4A_7C15u64
    } else {
        seed
    };
    let ghost s0 = state;
    let mut ips: Vec<IpAddress> = Vec::new();
    let mut draws: u64 = 0;
    while ips.len() < count && draws < u64::MAX
        invariant
            s0 == start_state(seed),
            ips.len() <= count,
            state == state_after(s0, draws as nat),
            ips@ == public_draws(s0, draws as nat),
        decreases u64::MAX - draws,
    {
        state = state ^ (state << 13u64);
        state = state ^ (state >> 7u64);
        state = state ^ (state << 17u64);
        draws += 1;
        let c = (state >> 32u64) as u32;
        if is_public_ipv4(c) {
            ips.push(IpAddress::V4(c));
        }
    }
    assert(public_draws(start_state(seed), draws as nat) == ips@);
    ips
}
/// Every address the random generator yields is a public IPv4 address, whatever the seed
/// and however many draws were made.
pub proof fn random_draws_are_public(s: u64, k: nat)
    ensures
        forall|i: int|
            0 <= i < public_draws(s, k).len() ==> (#[trigger] public_draws(s, k)[i] matches IpAddress::V4(x)
                && is_public(x)),
    decreases k,
{
    if k > 0 {
        random_draws_are_public(s, (k - 1) as nat);
    }
}

/// A range lists the same addresses whichever bound is given first, in strictly ascending
/// order and without gaps, from the lower bound to the higher.
pub proof fn range_ignores_bound_order(a: u32, b: u32)
    ensures
        ascending_range(a, b) == ascending_range(b, a),
        strictly_ranked(ascending_range(a, b)),
        ascending_range(a, b)[0] == IpAddress::V4(if a <= b { a } else { b }),
        ascending_range(a, b).last() == IpAddress::V4(if a <= b { b } else { a }),
{
    assert(ascending_range(a, b) =~= ascending_range(b, a));
}

/// A short range `A-e` (a dotted quad, a dash, a last octet) keeps the typed start as one
/// of its ends: with `d` the last octet of `A`, for `d <= e` it runs from `A` up to `A`
/// with last octet `e` and holds `e - d + 1` addresses, otherwise from `A` with last octet
/// `e` up to `A` and holds `d - e + 1`; every address lies in `A`'s `/24`, ascending.
pub proof fn short_range_keeps_its_start(t: Seq<char>, a: u32, e: nat)
    requires
        count_until(t, '-') < t.len(),
        ipv4_text(trim(t.take(count_until(t, '-') as int))) == Some(a),
        parse_uint(trim(t.skip(count_until(t, '-') + 1 as int)), 255) == Some(e),
    ensures
        range_result(t) matches Some(Ok(v)) && {
            let d = a % 256;
            let other = (a - d + e) as u32;
            &&& d <= e ==> v.len() == e - d + 1 && v[0] == IpAddress::V4(a) && v.last()
                == IpAddress::V4(other)
            &&& e < d ==> v.len() == d - e + 1 && v[0] == IpAddress::V4(other) && v.last()
                == IpAddress::V4(a)
            &&& strictly_ranked(v)
            &&& forall|i: int|
                0 <= i < v.len() ==> (#[trigger] v[i] matches IpAddress::V4(x) && x / 256 == a
                    / 256)
        },
{
    let d = a % 256;
    let other = (a - d + e) as u32;
    assert(e <= 255);
    assert(short_range_end(a, e) == other);
    range_ignores_bound_order(a, other);
    let v = ascending_range(a, other);
    assert forall|i: int| 0 <= i < v.len() implies (#[trigger] v[i] matches IpAddress::V4(x) && x
        / 256 == a / 256) by {
        let lo: int = if a <= other { a as int } else { other as int };
        assert(v[i] == IpAddress::V4((lo + i) as u32));
        assert(a - d <= lo + i <= a - d + 255);
    }
}

} // verus!
