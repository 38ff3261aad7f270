//! MAC addresses from the operating system's ARP/neighbour cache: normalising what the
//! `arp` tools print, and finding the entry for one IP address in their output.
use vstd::prelude::*;
use crate::text::{
    chars_of, contains_seq, count_until_any, find_in, find_seq, first_some, is_hex, is_hex_char, join,
    lemma_first_some_found, lemma_first_some_step, line_windows, lines, opt_view, push_char,
    slices, split_any, split_windows_any, trim, trim_bounds, upper_ascii, upper_ascii_char,
    window_eq, windows_within, word_windows, ws_tokens, is_ws, lemma_trim,
    lemma_count_until_any_prefix, lemma_join_front, lemma_first_some_first,
};

verus! {

/// One to two hex digits.
pub open spec fn octet_ok(p: Seq<char>) -> bool {
    &&& 1 <= p.len() <= 2
    &&& forall|i: int| 0 <= i < p.len() ==> is_hex(#[trigger] p[i])
}

/// An octet upper-cased and zero-padded to two characters (`format!("{:0>2}", ..)`).
pub open spec fn octet_text(p: Seq<char>) -> Seq<char> {
    let u = p.map_values(|c: char| upper_ascii(c));
    if u.len() < 2 {
        seq!['0'] + u
    } else {
        u
    }
}

/// The `:`/`-` separated pieces of a trimmed MAC address.
pub open spec fn mac_parts(raw: Seq<char>) -> Seq<Seq<char>> {
    split_any(trim(raw), ':', '-')
}

/// `raw` in the form `AA:BB:CC:DD:EE:FF`, or `None` when it is not six hex octets or is
/// the all-zero placeholder of an incomplete entry.
pub open spec fn normalized_mac(raw: Seq<char>) -> Option<Seq<char>> {
    let parts = mac_parts(raw);
    if parts.len() != 6 || exists|i: int| 0 <= i < 6 && !octet_ok(#[trigger] parts[i]) {
        None
    } else if forall|i: int| 0 <= i < 6 ==> #[trigger] octet_text(parts[i]) == seq!['0', '0'] {
        None
    } else {
        Some(join(parts.map_values(|p: Seq<char>| octet_text(p)), seq![':']))
    }
}

/// `normalized_mac` of `v[lo..hi]`.
pub fn normalize_mac_window(v: &Vec<char>, lo: usize, hi: usize) -> (r: Option<String>)
    requires
        lo <= hi <= v.len(),
    ensures
        opt_view(r) == normalized_mac(v@.subrange(lo as int, hi as int)),
{
    let ghost raw = v@.subrange(lo as int, hi as int);
    let (a, b) = trim_bounds(v, lo, hi);
    assert(v@.subrange(a as int, b as int) == trim(raw));
    let parts = split_windows_any(v, a, b, ':', '-');
    let ghost ps = mac_parts(raw);
    assert(slices(v@, parts@) == ps);
    if parts.len() != 6 {
        return None;
    }
    let ghost texts = ps.map_values(|p: Seq<char>| octet_text(p));
    let mut out = String::new();
    let mut all_zero = true;
    let mut i: usize = 0;
    while i < 6
        invariant
            0 <= i <= 6,
            parts.len() == 6,
            ps.len() == 6,
            ps == mac_parts(v@.subrange(lo as int, hi as int)),
            lo <= hi <= v.len(),
            slices(v@, parts@) == ps,
            windows_within(parts@, a as int, b as int),
            b <= v.len(),
            texts == ps.map_values(|p: Seq<char>| octet_text(p)),
            forall|j: int| 0 <= j < i ==> octet_ok(#[trigger] ps[j]),
            all_zero == forall|j: int| 0 <= j < i ==> #[trigger] octet_text(ps[j]) == seq![
                '0',
                '0',
            ],
            out@ == join(texts.take(i as int), seq![':']),
        decreases 6 - i,
    {
        let (pa, pb) = parts[i];
        let ghost p = ps[i as int];
        assert(p == v@.subrange(pa as int, pb as int));
        if pb == pa || pb - pa > 2 {
            assert(!octet_ok(ps[i as int]));
            return None;
        }
        if !is_hex_char(v[pa]) {
            assert(p[0] == v@[pa as int]);
            assert(!octet_ok(ps[i as int]));
            return None;
        }
        if pb - pa == 2 && !is_hex_char(v[pa + 1]) {
            assert(p[1] == v@[pa + 1]);
            assert(!octet_ok(ps[i as int]));
            return None;
        }
        assert(octet_ok(p));
        let ghost before = out@;
        if i > 0 {
            push_char(&mut out, ':');
        }
        let c0;
        let c1;
        if pb - pa == 1 {
            c0 = '0';
            c1 = upper_ascii_char(v[pa]);
        } else {
            c0 = upper_ascii_char(v[pa]);
            c1 = upper_ascii_char(v[pa + 1]);
        }
        push_char(&mut out, c0);
        push_char(&mut out, c1);
        assert(octet_text(p) =~= seq![c0, c1]);
        assert(texts[i as int] == octet_text(p));
        assert(texts.take(i + 1).drop_last() =~= texts.take(i as int));
        if i == 0 {
            assert(texts.take(1) =~= seq![texts[0]]);
            assert(out@ =~= join(texts.take(1), seq![':']));
        } else {
            assert(out@ =~= join(texts.take(i as int), seq![':']) + seq![':'] + texts.take(
                i + 1,
            ).last());
        }
        let zero_here = c0 == '0' && c1 == '0';
        assert(zero_here == (octet_text(p) == seq!['0', '0']));
        all_zero = all_zero && zero_here;
        i += 1;
    }
    assert(texts.take(6) =~= texts);
    if all_zero {
        None
    } else {
        Some(out)
    }
}

/// Normalise a MAC address to `AA:BB:CC:DD:EE:FF`.
///
/// macOS `arp` prints octets without zero padding (`3c:7:3f:1a:2b:c`) and Windows uses
/// dashes; both would otherwise break the OUI vendor lookup. Returns `None` for anything
/// that is not six hex octets, and for the all-zero placeholder of an incomplete entry.
pub fn normalize_mac(raw: &str) -> (r: Option<String>)
    ensures
        opt_view(r) == normalized_mac(raw@),
{
    let v = chars_of(raw);
    assert(v@.subrange(0, v.len() as int) =~= raw@);
    normalize_mac_window(&v, 0, v.len())
}

/// An upper-case hex digit.
pub open spec fn is_upper_hex(c: char) -> bool {
    ||| '0' <= c <= '9'
    ||| 'A' <= c <= 'F'
}

/// `AA:BB:CC:DD:EE:FF`: six pairs of upper-case hex digits, separated by colons.
pub open spec fn canonical_mac(m: Seq<char>) -> bool {
    &&& m.len() == 17
    &&& forall|k: int|
        #![trigger m[k]]
        0 <= k < 17 ==> if k % 3 == 2 {
            m[k] == ':'
        } else {
            is_upper_hex(m[k])
        }
}

proof fn lemma_octet_text(p: Seq<char>)
    requires
        octet_ok(p),
    ensures
        octet_text(p).len() == 2,
        forall|j: int| 0 <= j < 2 ==> is_upper_hex(#[trigger] octet_text(p)[j]),
{
    let u = p.map_values(|c: char| upper_ascii(c));
    assert forall|j: int| 0 <= j < u.len() implies is_upper_hex(#[trigger] u[j]) by {
        assert(is_hex(p[j]));
    }
    if u.len() < 2 {
        assert((seq!['0'] + u)[1] == u[0]);
    }
}

proof fn lemma_join_pairs(ts: Seq<Seq<char>>)
    requires
        ts.len() >= 1,
        forall|i: int| 0 <= i < ts.len() ==> (#[trigger] ts[i]).len() == 2,
    ensures
        join(ts, seq![':']).len() == 3 * ts.len() - 1,
        forall|k: int|
            0 <= k < 3 * ts.len() - 1 ==> #[trigger] join(ts, seq![':'])[k] == if k % 3 == 2 {
                ':'
            } else {
                ts[k / 3][k % 3]
            },
    decreases ts.len(),
{
    if ts.len() > 1 {
        let init = ts.drop_last();
        lemma_join_pairs(init);
        let n = init.len();
        let j = join(init, seq![':']);
        let whole = join(ts, seq![':']);
        assert(whole == j + seq![':'] + ts.last());
        assert forall|k: int| 0 <= k < 3 * ts.len() - 1 implies #[trigger] whole[k] == if k % 3
            == 2 {
            ':'
        } else {
            ts[k / 3][k % 3]
        } by {
            if k < 3 * n - 1 {
                assert(whole[k] == j[k]);
                if k % 3 != 2 {
                    assert(k / 3 < n);
                    assert(init[k / 3] == ts[k / 3]);
                }
            } else if k == 3 * n - 1 {
                assert(k % 3 == 2);
            } else {
                assert(k / 3 == n);
                assert(whole[k] == ts.last()[k - 3 * n]);
            }
        }
    }
}

/// A normalised MAC address is in the canonical form `AA:BB:CC:DD:EE:FF`, and is not the
/// all-zero placeholder.
pub proof fn normalized_mac_is_canonical(raw: Seq<char>)
    ensures
        normalized_mac(raw) matches Some(m) ==> canonical_mac(m) && m != seq![
            '0', '0', ':', '0', '0', ':', '0', '0', ':', '0', '0', ':', '0', '0', ':', '0', '0',
        ],
{
    let parts = mac_parts(raw);
    if let Some(m) = normalized_mac(raw) {
        let texts = parts.map_values(|p: Seq<char>| octet_text(p));
        assert forall|i: int| 0 <= i < 6 implies (#[trigger] texts[i]).len() == 2 && forall|j: int|
            0 <= j < 2 ==> is_upper_hex(#[trigger] texts[i][j]) by {
            lemma_octet_text(parts[i]);
        }
        lemma_join_pairs(texts);
        assert forall|k: int| 0 <= k < 17 implies (if k % 3 == 2 {
            m[k] == ':'
        } else {
            is_upper_hex(#[trigger] m[k])
        }) by {
            if k % 3 != 2 {
                assert(0 <= k / 3 < 6);
                assert(is_upper_hex(texts[k / 3][k % 3]));
            }
        }
        let zeros = seq!['0', '0', ':', '0', '0', ':', '0', '0', ':', '0', '0', ':', '0', '0', ':', '0', '0'];
        if m == zeros {
            assert forall|i: int| 0 <= i < 6 implies #[trigger] octet_text(parts[i]) == seq!['0', '0'] by {
                assert(m[3 * i] == texts[i][0]);
                assert(m[3 * i + 1] == texts[i][1]);
                assert(texts[i] =~= seq!['0', '0']);
            }
        }
    }
}

/// Splitting pieces joined by `:` at `:` and `-` gives the pieces back, when no piece
/// holds either separator.
proof fn lemma_split_join(parts: Seq<Seq<char>>)
    requires
        parts.len() >= 1,
        forall|i: int, j: int|
            0 <= i < parts.len() && 0 <= j < parts[i].len() ==> #[trigger] parts[i][j] != ':'
                && parts[i][j] != '-',
    ensures
        split_any(join(parts, seq![':']), ':', '-') == parts,
    decreases parts.len(),
{
    let p0 = parts[0];
    if parts.len() == 1 {
        lemma_count_until_any_prefix(p0, seq![], ':', '-');
        assert(p0 + seq![] =~= p0);
        assert(seq![p0] =~= parts);
    } else {
        let tail = parts.drop_first();
        lemma_join_front(parts, seq![':']);
        let rest = join(tail, seq![':']);
        assert forall|i: int, j: int| 0 <= i < tail.len() && 0 <= j < tail[i].len() implies
            #[trigger] tail[i][j] != ':' && tail[i][j] != '-' by {
            assert(tail[i] == parts[i + 1]);
        }
        lemma_split_join(tail);
        let whole = p0 + seq![':'] + rest;
        assert(whole =~= p0 + (seq![':'] + rest));
        assert forall|i: int| 0 <= i < p0.len() implies #[trigger] p0[i] != ':' && p0[i] != '-' by {
            assert(parts[0][i] == p0[i]);
        }
        lemma_count_until_any_prefix(p0, seq![':'] + rest, ':', '-');
        assert(whole.take(p0.len() as int) =~= p0);
        assert(whole.skip(p0.len() + 1 as int) =~= rest);
        assert(seq![p0] + tail =~= parts);
    }
}

/// Normalising is idempotent: a normalised MAC address normalises to itself.
pub proof fn normalize_is_idempotent(raw: Seq<char>)
    ensures
        normalized_mac(raw) matches Some(m) ==> normalized_mac(m) == Some(m),
{
    normalized_mac_is_canonical(raw);
    if let Some(m) = normalized_mac(raw) {
        let parts = mac_parts(raw);
        let texts = parts.map_values(|p: Seq<char>| octet_text(p));
        assert forall|i: int| 0 <= i < 6 implies (#[trigger] texts[i]).len() == 2 && forall|j: int|
            0 <= j < 2 ==> is_upper_hex(#[trigger] texts[i][j]) by {
            lemma_octet_text(parts[i]);
        }
        lemma_join_pairs(texts);
        assert(m == join(texts, seq![':']));
        // `m` has no white space at either end.
        assert(!is_ws(m[0]) && !is_ws(m.last())) by {
            assert(is_upper_hex(m[0]));
            assert(is_upper_hex(m[16]));
        }
        lemma_trim(m);
        assert forall|i: int, j: int| 0 <= i < texts.len() && 0 <= j < texts[i].len() implies
            #[trigger] texts[i][j] != ':' && texts[i][j] != '-' by {
            assert(is_upper_hex(texts[i][j]));
        }
        lemma_split_join(texts);
        assert(mac_parts(m) == texts);
        assert forall|i: int| 0 <= i < 6 implies octet_ok(#[trigger] texts[i]) && octet_text(texts[i]) == texts[i] by {
            assert(is_upper_hex(texts[i][0]) && is_upper_hex(texts[i][1]));
            assert(octet_text(texts[i]) =~= texts[i]);
        }
        assert(texts.map_values(|p: Seq<char>| octet_text(p)) =~= texts);
        if forall|i: int| 0 <= i < 6 ==> #[trigger] octet_text(texts[i]) == seq!['0', '0'] {
            let zeros = seq!['0', '0', ':', '0', '0', ':', '0', '0', ':', '0', '0', ':', '0', '0', ':', '0', '0'];
            assert forall|k: int| 0 <= k < 17 implies m[k] == #[trigger] zeros[k] by {
                if k % 3 != 2 {
                    assert(octet_text(texts[k / 3]) == seq!['0', '0']);
                }
            }
            assert(m =~= zeros);
        }
    }
}

/// `(ip)`, the way BSD `arp` prints the address of an entry.
pub open spec fn paren_ip(ip: Seq<char>) -> Seq<char> {
    seq!['('] + ip + seq![')']
}

pub open spec fn at_word() -> Seq<char> {
    seq![' ', 'a', 't', ' ']
}

/// The MAC address that one line of BSD `arp` output gives for `ip`.
pub open spec fn bsd_line_mac(line: Seq<char>, ip: Seq<char>) -> Option<Seq<char>> {
    if !contains_seq(line, paren_ip(ip)) {
        None
    } else {
        match find_seq(line, at_word()) {
            None => None,
            Some(k) => {
                let toks = ws_tokens(line.skip(k + 4));
                if toks.len() == 0 {
                    None
                } else {
                    normalized_mac(toks[0])
                }
            },
        }
    }
}

/// The MAC address that `arp -n <ip>` output on macOS/BSD gives for `ip`: the first line
/// that mentions `(ip)` and has a valid address after ` at `.
pub open spec fn bsd_arp_mac(output: Seq<char>, ip: Seq<char>) -> Option<Seq<char>> {
    first_some(lines(output).map_values(|l: Seq<char>| bsd_line_mac(l, ip)))
}

/// The MAC address of a line whose first column is `ip`, taken from column `col`.
pub open spec fn column_line_mac(line: Seq<char>, ip: Seq<char>, col: int) -> Option<Seq<char>> {
    let toks = ws_tokens(line);
    if toks.len() > 0 && toks[0] == ip && col < toks.len() {
        normalized_mac(toks[col])
    } else {
        None
    }
}

/// All lines but the first.
pub open spec fn after_header(ls: Seq<Seq<char>>) -> Seq<Seq<char>> {
    if ls.len() > 0 {
        ls.skip(1)
    } else {
        ls
    }
}

/// The MAC address that Linux `/proc/net/arp` gives for `ip`: after the header line,
/// the first row whose first column is `ip` and whose fourth column is a valid address.
pub open spec fn proc_net_arp_mac(content: Seq<char>, ip: Seq<char>) -> Option<Seq<char>> {
    first_some(after_header(lines(content)).map_values(|l: Seq<char>| column_line_mac(l, ip, 3)))
}

/// The MAC address that Windows `arp -a <ip>` output gives for `ip`: the first row whose
/// first column is exactly `ip` and whose second column is a valid address.
pub open spec fn windows_arp_mac(output: Seq<char>, ip: Seq<char>) -> Option<Seq<char>> {
    first_some(lines(output).map_values(|l: Seq<char>| column_line_mac(l, ip, 1)))
}

fn bsd_line(v: &Vec<char>, a: usize, b: usize, needle: &Vec<char>, ip: Ghost<Seq<char>>) -> (r:
    Option<String>)
    requires
        a <= b <= v.len(),
        needle@ == paren_ip(ip@),
    ensures
        opt_view(r) == bsd_line_mac(v@.subrange(a as int, b as int), ip@),
{
    let ghost line = v@.subrange(a as int, b as int);
    if find_in(v, a, b, needle).is_none() {
        return None;
    }
    let at = vec![' ', 'a', 't', ' '];
    assert(at@ =~= at_word());
    match find_in(v, a, b, &at) {
        None => None,
        Some(k) => {
            assert(find_seq(line, at_word()) == Some(k - a));
            assert(contains_seq(line, paren_ip(ip@)));
            assert(line.skip(k - a + 4) =~= v@.subrange(k + 4, b as int));
            let toks = word_windows(v, k + 4, b);
            assert(slices(v@, toks@) == ws_tokens(line.skip(k - a + 4)));
            if toks.len() == 0 {
                None
            } else {
                let (ta, tb) = toks[0];
                assert(ws_tokens(line.skip(k - a + 4))[0] == v@.subrange(ta as int, tb as int));
                normalize_mac_window(v, ta, tb)
            }
        },
    }
}

fn column_line(v: &Vec<char>, a: usize, b: usize, ip: &Vec<char>, col: usize) -> (r: Option<
    String,
>)
    requires
        a <= b <= v.len(),
    ensures
        opt_view(r) == column_line_mac(v@.subrange(a as int, b as int), ip@, col as int),
{
    let toks = word_windows(v, a, b);
    if toks.len() == 0 {
        return None;
    }
    let (ta, tb) = toks[0];
    if !window_eq(v, ta, tb, ip) {
        return None;
    }
    if col >= toks.len() {
        return None;
    }
    let (ca, cb) = toks[col];
    normalize_mac_window(v, ca, cb)
}

/// Parse `arp -n <ip>` output on macOS/BSD, e.g.
/// `? (192.168.1.1) at 3c:7c:3f:1a:2b:3c on en0 ifscope [ethernet]`.
pub fn parse_bsd_arp(output: &str, ip: &str) -> (r: Option<String>)
    ensures
        opt_view(r) == bsd_arp_mac(output@, ip@),
{
    let v = chars_of(output);
    let ipv = chars_of(ip);
    let mut needle: Vec<char> = vec!['('];
    let mut j: usize = 0;
    while j < ipv.len()
        invariant
            0 <= j <= ipv.len(),
            needle@ == seq!['('] + ipv@.take(j as int),
        decreases ipv.len() - j,
    {
        needle.push(ipv[j]);
        assert(ipv@.take(j + 1) =~= ipv@.take(j as int).push(ipv@[j as int]));
        j += 1;
    }
    needle.push(')');
    assert(ipv@.take(ipv.len() as int) =~= ipv@);
    assert(needle@ =~= paren_ip(ip@));
    let ls = line_windows(&v, 0, v.len());
    assert(v@.subrange(0, v.len() as int) =~= output@);
    let ghost ms = lines(output@).map_values(|l: Seq<char>| bsd_line_mac(l, ip@));
    let mut i: usize = 0;
    while i < ls.len()
        invariant
            0 <= i <= ls.len(),
            slices(v@, ls@) == lines(output@),
            windows_within(ls@, 0, v.len() as int),
            needle@ == paren_ip(ip@),
            ms == lines(output@).map_values(|l: Seq<char>| bsd_line_mac(l, ip@)),
            first_some(ms.take(i as int)) is None,
        decreases ls.len() - i,
    {
        let (a, b) = ls[i];
        let res = bsd_line(&v, a, b, &needle, Ghost(ip@));
        assert(ms[i as int] == opt_view(res));
        proof {
            lemma_first_some_step(ms, i as int);
        }
        if res.is_some() {
            proof {
                lemma_first_some_found(ms, i as int);
            }
            return res;
        }
        i += 1;
    }
    assert(ms.take(i as int) =~= ms);
    None
}

fn column_lines(v: &Vec<char>, ip: &Vec<char>, col: usize, skip_first: bool) -> (r: Option<
    String,
>)
    ensures
        opt_view(r) == first_some(
            (if skip_first {
                after_header(lines(v@))
            } else {
                lines(v@)
            }).map_values(|l: Seq<char>| column_line_mac(l, ip@, col as int)),
        ),
{
    let ls = line_windows(v, 0, v.len());
    assert(v@.subrange(0, v.len() as int) =~= v@);
    let ghost all = lines(v@);
    let ghost chosen = if skip_first {
        after_header(all)
    } else {
        all
    };
    let ghost ms = chosen.map_values(|l: Seq<char>| column_line_mac(l, ip@, col as int));
    let start: usize = if skip_first && ls.len() > 0 {
        1
    } else {
        0
    };
    assert(chosen =~= all.skip(start as int));
    let mut i: usize = start;
    while i < ls.len()
        invariant
            start <= i <= ls.len(),
            all == lines(v@),
            chosen == (if skip_first {
                after_header(all)
            } else {
                all
            }),
            slices(v@, ls@) == all,
            chosen == all.skip(start as int),
            windows_within(ls@, 0, v.len() as int),
            ms == chosen.map_values(|l: Seq<char>| column_line_mac(l, ip@, col as int)),
            first_some(ms.take(i - start)) is None,
        decreases ls.len() - i,
    {
        let (a, b) = ls[i];
        let res = column_line(v, a, b, ip, col);
        assert(ms[i - start] == opt_view(res));
        proof {
            lemma_first_some_step(ms, i - start);
        }
        if res.is_some() {
            proof {
                lemma_first_some_found(ms, i - start);
            }
            assert(ms == (if skip_first {
                after_header(lines(v@))
            } else {
                lines(v@)
            }).map_values(|l: Seq<char>| column_line_mac(l, ip@, col as int)));
            return res;
        }
        i += 1;
    }
    assert(ms.take(i - start) =~= ms);
    None
}

/// Parse `/proc/net/arp` on Linux (header line, then whitespace separated columns:
/// `IP address, HW type, Flags, HW address, Mask, Device`).
pub fn parse_proc_net_arp(content: &str, ip: &str) -> (r: Option<String>)
    ensures
        opt_view(r) == proc_net_arp_mac(content@, ip@),
{
    let v = chars_of(content);
    let ipv = chars_of(ip);
    column_lines(&v, &ipv, 3, true)
}

/// Parse `arp -a <ip>` output on Windows, e.g.
/// `  192.168.1.1           3c-7c-3f-1a-2b-3c     dynamic`.
pub fn parse_windows_arp(output: &str, ip: &str) -> (r: Option<String>)
    ensures
        opt_view(r) == windows_arp_mac(output@, ip@),
{
    let v = chars_of(output);
    let ipv = chars_of(ip);
    column_lines(&v, &ipv, 1, false)
}

/// Whether a table row (a line of white-space separated columns) has exactly `ip` as its
/// first column and a valid MAC address in column `col`.
pub open spec fn row_has_mac(line: Seq<char>, ip: Seq<char>, col: int) -> bool {
    let cols = ws_tokens(line);
    cols.len() > col && cols.len() > 0 && cols[0] == ip && normalized_mac(cols[col]) is Some
}

/// Linux `/proc/net/arp`: a MAC address comes only from a row after the header whose first
/// column is exactly the address asked for (a longer address that merely starts with it
/// does not count); it is the normalised fourth column of the first such row with a valid
/// one, and there is none when no row has one.
pub proof fn proc_net_arp_matches_exact_ip(content: Seq<char>, ip: Seq<char>)
    ensures
        proc_net_arp_mac(content, ip) matches Some(m) ==> exists|i: int|
            1 <= i < lines(content).len() && #[trigger] row_has_mac(lines(content)[i], ip, 3)
                && normalized_mac(ws_tokens(lines(content)[i])[3]) == Some(m) && forall|j: int|
                1 <= j < i ==> !row_has_mac(#[trigger] lines(content)[j], ip, 3),
        proc_net_arp_mac(content, ip) is None ==> forall|j: int|
            1 <= j < lines(content).len() ==> !row_has_mac(#[trigger] lines(content)[j], ip, 3),
{
    let ls = lines(content);
    let rows = after_header(ls);
    let ms = rows.map_values(|l: Seq<char>| column_line_mac(l, ip, 3));
    lemma_first_some_first(ms);
    assert forall|j: int| 1 <= j < ls.len() implies (ms[j - 1] is None <==> !row_has_mac(
        #[trigger] ls[j],
        ip,
        3,
    )) && (ms[j - 1] matches Some(m) ==> normalized_mac(ws_tokens(ls[j])[3]) == Some(m)) by {
        assert(rows[j - 1] == ls[j]);
    }
    if let Some(m) = proc_net_arp_mac(content, ip) {
        let i = choose|i: int|
            0 <= i < ms.len() && ms[i] == first_some(ms) && forall|j: int| 0 <= j < i ==> (#[trigger] ms[j]) is None;
        assert(rows[i] == ls[i + 1]);
        assert forall|j: int| 1 <= j < i + 1 implies !row_has_mac(#[trigger] ls[j], ip, 3) by {
            assert(ms[j - 1] is None);
        }
        assert(row_has_mac(ls[i + 1], ip, 3));
    } else {
        assert forall|j: int| 1 <= j < ls.len() implies !row_has_mac(#[trigger] ls[j], ip, 3) by {
            assert(ms[j - 1] is None);
        }
    }
}

/// Windows `arp -a`: a MAC address comes only from a row whose first column is exactly the
/// address asked for; it is the normalised second column of the first such row with a
/// valid one, and there is none when no row has one.
pub proof fn windows_arp_matches_exact_ip(output: Seq<char>, ip: Seq<char>)
    ensures
        windows_arp_mac(output, ip) matches Some(m) ==> exists|i: int|
            0 <= i < lines(output).len() && #[trigger] row_has_mac(lines(output)[i], ip, 1)
                && normalized_mac(ws_tokens(lines(output)[i])[1]) == Some(m) && forall|j: int|
                0 <= j < i ==> !row_has_mac(#[trigger] lines(output)[j], ip, 1),
        windows_arp_mac(output, ip) is None ==> forall|j: int|
            0 <= j < lines(output).len() ==> !row_has_mac(#[trigger] lines(output)[j], ip, 1),
{
    let ls = lines(output);
    let ms = ls.map_values(|l: Seq<char>| column_line_mac(l, ip, 1));
    lemma_first_some_first(ms);
    assert forall|j: int| 0 <= j < ls.len() implies (ms[j] is None <==> !row_has_mac(
        #[trigger] ls[j],
        ip,
        1,
    )) && (ms[j] matches Some(m) ==> normalized_mac(ws_tokens(ls[j])[1]) == Some(m)) by {
    }
    if let Some(m) = windows_arp_mac(output, ip) {
        let i = choose|i: int|
            0 <= i < ms.len() && ms[i] == first_some(ms) && forall|j: int| 0 <= j < i ==> (#[trigger] ms[j]) is None;
        assert forall|j: int| 0 <= j < i implies !row_has_mac(#[trigger] ls[j], ip, 1) by {
            assert(ms[j] is None);
        }
        assert(row_has_mac(ls[i], ip, 1));
    } else {
        assert forall|j: int| 0 <= j < ls.len() implies !row_has_mac(#[trigger] ls[j], ip, 1) by {
            assert(ms[j] is None);
        }
    }
}

} // verus!
