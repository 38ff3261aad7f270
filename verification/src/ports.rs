//! Port lists: parsing user input such as `"80, 443, 8000-8010"` and rendering lists back.
use vstd::prelude::*;
use crate::text::{
    all_digits, chars_of, count_until, dec_value, digit_char, is_trimmed, lead_ws, lemma_count_until_any_prefix,
    lemma_split_join_sep, lemma_trim, trail_ws, decimal, join, is_ws, lemma_lead_ws_prefix,
    lemma_trail_ws_suffix, parse_uint, parse_uint_in, piece_end, push_decimal, slices,
    split_on, split_windows, string_of, trim, trim_bounds, windows_within,
};

verus! {

/// The inclusive port range that one comma-separated piece of a port list stands for:
/// a single port, or two ports joined by `-` in either order. `None` for an empty or
/// unparsable piece.
pub open spec fn piece_bounds(piece: Seq<char>) -> Option<(nat, nat)> {
    let t = trim(piece);
    if t.len() == 0 {
        None
    } else {
        let n = count_until(t, '-');
        if n < t.len() {
            match (
                parse_uint(trim(t.take(n as int)), 65535),
                parse_uint(trim(t.skip(n + 1 as int)), 65535),
            ) {
                (Some(a), Some(b)) => if a <= b {
                    Some((a, b))
                } else {
                    Some((b, a))
                },
                _ => None,
            }
        } else {
            match parse_uint(t, 65535) {
                Some(a) => Some((a, a)),
                None => None,
            }
        }
    }
}

/// The piece names port `p`.
pub open spec fn piece_covers(piece: Seq<char>, p: nat) -> bool {
    match piece_bounds(piece) {
        Some((a, b)) => a <= p <= b,
        None => false,
    }
}

/// One of the first `k` pieces names port `p`.
pub open spec fn covered_by(pieces: Seq<Seq<char>>, k: int, p: nat) -> bool {
    exists|i: int| 0 <= i < k && #[trigger] piece_covers(pieces[i], p)
}

/// Port `p` is named by some comma-separated piece of `s`.
pub open spec fn port_listed(s: Seq<char>, p: nat) -> bool {
    let pieces = split_on(s, ',');
    covered_by(pieces, pieces.len() as int, p)
}

/// Strictly ascending, hence free of duplicates.
pub open spec fn strictly_ascending(s: Seq<u16>) -> bool {
    forall|i: int, j: int| 0 <= i < j < s.len() ==> s[i] < s[j]
}

fn piece_bounds_in(v: &Vec<char>, lo: usize, hi: usize) -> (r: Option<(u16, u16)>)
    requires
        lo <= hi <= v.len(),
    ensures
        match piece_bounds(v@.subrange(lo as int, hi as int)) {
            Some((a, b)) => r == Some((a as u16, b as u16)) && a <= b <= 65535,
            None => r is None,
        },
{
    let (a, b) = trim_bounds(v, lo, hi);
    let ghost t = v@.subrange(a as int, b as int);
    if a == b {
        return None;
    }
    let e = piece_end(v, a, b, '-');
    if e < b {
        assert(t.take(e - a) =~= v@.subrange(a as int, e as int));
        assert(t.skip(e - a + 1) =~= v@.subrange(e + 1, b as int));
        let (x0, x1) = trim_bounds(v, a, e);
        let (y0, y1) = trim_bounds(v, e + 1, b);
        match (parse_uint_in(v, x0, x1, 65535), parse_uint_in(v, y0, y1, 65535)) {
            (Some(x), Some(y)) => {
                if x <= y {
                    Some((x as u16, y as u16))
                } else {
                    Some((y as u16, x as u16))
                }
            },
            _ => None,
        }
    } else {
        match parse_uint_in(v, a, b, 65535) {
            Some(x) => Some((x as u16, x as u16)),
            None => None,
        }
    }
}

/// Parse a user-supplied port list such as `"80, 443, 8080"` or `"8000-8010, 22"`.
///
/// The result holds exactly the non-zero ports that some piece names, ascending and
/// without duplicates; empty and unparsable pieces are skipped.
pub fn parse_ports(port_str: &str) -> (r: Vec<u16>)
    ensures
        strictly_ascending(r@),
        forall|p: u16| r@.contains(p) <==> (p != 0 && port_listed(port_str@, p as nat)),
{
    let v = chars_of(port_str);
    let pieces = split_windows(&v, 0, v.len(), ',');
    let ghost ps = split_on(v@.subrange(0, v.len() as int), ',');
    assert(v@.subrange(0, v.len() as int) =~= port_str@);
    let mut seen: Vec<bool> = vec![false; 65536];
    let mut k: usize = 0;
    while k < pieces.len()
        invariant
            0 <= k <= pieces.len(),
            seen.len() == 65536,
            slices(v@, pieces@) == ps,
            windows_within(pieces@, 0, v.len() as int),
            forall|p: int| 0 <= p < 65536 ==> (seen@[p] <==> covered_by(ps, k as int, p as nat)),
        decreases pieces.len() - k,
    {
        let (a, b) = pieces[k];
        assert(ps[k as int] == v@.subrange(a as int, b as int));
        let ghost before = seen@;
        let bounds = piece_bounds_in(&v, a, b);
        match bounds {
            Some((x, y)) => {
                let mut q: u32 = x as u32;
                while q <= y as u32
                    invariant
                        x <= q <= y as u32 + 1,
                        y <= 65535,
                        seen.len() == 65536,
                        forall|p: int|
                            0 <= p < 65536 ==> (seen@[p] <==> (before[p] || (x <= p < q))),
                    decreases y as u32 + 1 - q,
                {
                    seen.set(q as usize, true);
                    q += 1;
                }
            },
            None => {},
        }
        assert forall|p: int| 0 <= p < 65536 implies (seen@[p] <==> (before[p] || piece_covers(
            ps[k as int],
            p as nat,
        ))) by {}
        assert forall|p: int| 0 <= p < 65536 implies (seen@[p] <==> covered_by(
            ps,
            k + 1,
            p as nat,
        )) by {
            let pn = p as nat;
            assert(before[p] <==> covered_by(ps, k as int, pn));
            if covered_by(ps, k + 1, pn) {
                let i = choose|i: int| 0 <= i < k + 1 && #[trigger] piece_covers(ps[i], pn);
                if i < k {
                    assert(covered_by(ps, k as int, pn));
                    assert(seen@[p]);
                } else {
                    assert(piece_covers(ps[k as int], pn));
                    assert(seen@[p]);
                }
            }
            if seen@[p] {
                if before[p] {
                    let i = choose|i: int| 0 <= i < k && #[trigger] piece_covers(ps[i], pn);
                    assert(piece_covers(ps[i], pn));
                    assert(covered_by(ps, k + 1, pn));
                } else {
                    assert(piece_covers(ps[k as int], pn));
                    assert(covered_by(ps, k + 1, pn));
                }
            }
        }
        k += 1;
    }
    let mut r: Vec<u16> = Vec::new();
    let mut p: u32 = 1;
    while p < 65536
        invariant
            1 <= p <= 65536,
            seen.len() == 65536,
            strictly_ascending(r@),
            forall|i: int| 0 <= i < r.len() ==> 1 <= #[trigger] r@[i] < p,
            forall|q: u16| r@.contains(q) <==> (1 <= q < p && seen@[q as int]),
        decreases 65536 - p,
    {
        if seen[p as usize] {
            let ghost prev = r@;
            r.push(p as u16);
            assert forall|q: u16| r@.contains(q) <==> (1 <= q < p + 1 && seen@[q as int]) by {
                if q == p {
                    assert(r@[r.len() - 1] == q);
                }
                if r@.contains(q) && q != p {
                    let i = choose|i: int| 0 <= i < r.len() && r@[i] == q;
                    assert(prev[i] == q);
                }
                if prev.contains(q) {
                    let i = choose|i: int| 0 <= i < prev.len() && prev[i] == q;
                    assert(r@[i] == q);
                }
            }
        }
        p += 1;
    }
    r
}

/// Join a port list for display, e.g. `format_ports(&[80, 443], ", ")` is `"80, 443"`.
pub fn format_ports(ports: &[u16], separator: &str) -> (r: String)
    ensures
        r@ == join(ports@.map_values(|p: u16| decimal(p as nat)), separator@),
{
    let ghost decs = ports@.map_values(|p: u16| decimal(p as nat));
    let sep = chars_of(separator);
    let mut out: Vec<char> = Vec::new();
    let mut i: usize = 0;
    while i < ports.len()
        invariant
            0 <= i <= ports.len(),
            sep@ == separator@,
            decs == ports@.map_values(|p: u16| decimal(p as nat)),
            out@ == join(decs.take(i as int), sep@),
        decreases ports.len() - i,
    {
        let ghost before = out@;
        if i > 0 {
            let mut j: usize = 0;
            while j < sep.len()
                invariant
                    0 <= j <= sep.len(),
                    out@ == before + sep@.take(j as int),
                decreases sep.len() - j,
            {
                out.push(sep[j]);
                assert(sep@.take(j + 1) =~= sep@.take(j as int).push(sep@[j as int]));
                j += 1;
            }
            assert(sep@.take(sep.len() as int) =~= sep@);
        }
        let ghost mid = out@;
        push_decimal(&mut out, ports[i] as u64);
        assert(decs.take(i + 1).drop_last() =~= decs.take(i as int));
        assert(decs.take(i + 1).last() == decimal(ports@[i as int] as nat));
        if i == 0 {
            assert(decs.take(1) =~= seq![decs[0]]);
            assert(out@ =~= join(decs.take(1), sep@));
        } else {
            assert(out@ =~= join(decs.take(i as int), sep@) + sep@ + decs.take(i + 1).last());
        }
        i += 1;
    }
    assert(decs.take(ports.len() as int) =~= decs);
    string_of(&out, 0, out.len())
}

proof fn lemma_decimal(n: nat)
    ensures
        decimal(n).len() > 0,
        all_digits(decimal(n)),
        dec_value(decimal(n)) == n,
    decreases n,
{
    let d = decimal(n);
    if n >= 10 {
        lemma_decimal(n / 10);
        assert(d.drop_last() =~= decimal(n / 10));
        assert(d.last() == digit_char(n % 10));
        assert(digit_char(n % 10) as int == n % 10 + 48);
        assert(crate::text::digit_val(d.last()) == n % 10);
        assert(n == (n / 10) * 10 + n % 10);
        assert(dec_value(d) == dec_value(d.drop_last()) * 10 + crate::text::digit_val(d.last()));
        assert forall|i: int| 0 <= i < d.len() implies crate::text::is_digit(#[trigger] d[i]) by {
            if i < d.len() - 1 {
                assert(d[i] == decimal(n / 10)[i]);
            }
        }
    } else {
        assert(d.drop_last() =~= Seq::<char>::empty());
        assert(digit_char(n) as int == n + 48);
        assert(dec_value(d) == dec_value(d.drop_last()) * 10 + crate::text::digit_val(d.last()));
        assert(dec_value(d.drop_last()) == 0);
    }
}

/// One formatted piece: the decimal digits of `n`, with `extra` (nothing or one space)
/// in front.
proof fn lemma_piece(extra: Seq<char>, n: nat)
    requires
        0 < n <= 65535,
        extra == Seq::<char>::empty() || extra == seq![' '],
    ensures
        forall|p: nat| piece_covers(extra + decimal(n), p) <==> p == n,
{
    let d = decimal(n);
    lemma_decimal(n);
    assert(crate::text::is_digit(d[0]) && crate::text::is_digit(d.last()));
    assert(is_trimmed(d));
    lemma_trim(d);
    let x = extra + d;
    if extra.len() == 1 {
        assert(x[0] == ' ');
        assert(x.drop_first() =~= d);
        assert(lead_ws(x) == 1);
        assert(x.skip(1) =~= d);
        assert(trail_ws(d) == 0);
        assert(trim(x) =~= d);
    } else {
        assert(x =~= d);
    }
    assert(trim(x) == d);
    assert forall|i: int| 0 <= i < d.len() implies #[trigger] d[i] != '-' && d[i] != '-' by {
        assert(crate::text::is_digit(d[i]));
    }
    lemma_count_until_any_prefix(d, seq![], '-', '-');
    assert(d + seq![] =~= d);
    assert(piece_bounds(x) == Some((n, n)));
}

/// A strictly ascending list of non-zero ports, joined with `,` or `, ` as `format_ports`
/// joins it, names exactly its own ports.
pub proof fn formatted_ports_name_themselves(v: Seq<u16>, sep: Seq<char>)
    requires
        strictly_ascending(v),
        forall|i: int| 0 <= i < v.len() ==> #[trigger] v[i] != 0,
        sep == seq![','] || sep == seq![',', ' '],
    ensures
        forall|p: u16|
            (p != 0 && port_listed(join(v.map_values(|q: u16| decimal(q as nat)), sep), p as nat))
                <==> v.contains(p),
{
    let decs = v.map_values(|q: u16| decimal(q as nat));
    let text = join(decs, sep);
    let pieces = split_on(text, ',');
    if v.len() == 0 {
        assert(text =~= Seq::<char>::empty());
        assert(count_until(text, ',') == 0);
        assert(pieces =~= seq![text]);
        assert(trim(text).len() == 0) by {
            lemma_trim(text);
        }
        assert forall|p: u16| !port_listed(text, p as nat) by {
            if port_listed(text, p as nat) {
                let i = choose|i: int| 0 <= i < pieces.len() && #[trigger] piece_covers(pieces[i], p as nat);
                assert(pieces[i] == text);
            }
        }
    } else {
        let extra = sep.drop_first();
        assert(sep =~= seq![','] + extra);
        if sep == seq![','] {
            assert(extra =~= Seq::<char>::empty());
        } else {
            assert(extra =~= seq![' ']);
        }
        assert forall|i: int, j: int| 0 <= i < decs.len() && 0 <= j < decs[i].len() implies
            #[trigger] decs[i][j] != ',' by {
            lemma_decimal(v[i] as nat);
            assert(crate::text::is_digit(decs[i][j]));
        }
        lemma_split_join_sep(Seq::<char>::empty(), decs, extra, ',');
        assert(Seq::<char>::empty() + text =~= text);
        assert forall|i: int, p: nat| 0 <= i < pieces.len() implies (#[trigger] piece_covers(
            pieces[i],
            p,
        ) <==> p == v[i] as nat) by {
            if i == 0 {
                assert(pieces[0] =~= Seq::<char>::empty() + decs[0]);
                lemma_piece(Seq::<char>::empty(), v[0] as nat);
            } else {
                lemma_piece(extra, v[i] as nat);
            }
        }
        assert forall|p: u16| (p != 0 && port_listed(text, p as nat)) <==> v.contains(p) by {
            if port_listed(text, p as nat) {
                let i = choose|i: int| 0 <= i < pieces.len() && #[trigger] piece_covers(pieces[i], p as nat);
                assert(v[i] == p);
            }
            if v.contains(p) {
                let i = choose|i: int| 0 <= i < v.len() && v[i] == p;
                assert(piece_covers(pieces[i], p as nat));
            }
        }
    }
}

proof fn lemma_ascending_unique(a: Seq<u16>, b: Seq<u16>)
    requires
        strictly_ascending(a),
        strictly_ascending(b),
        forall|p: u16| a.contains(p) <==> b.contains(p),
    ensures
        a == b,
    decreases a.len(),
{
    if a.len() == 0 {
        if b.len() > 0 {
            assert(b.contains(b[0]));
        }
        assert(a =~= b);
    } else if b.len() == 0 {
        assert(a.contains(a[0]));
    } else {
        assert(a.contains(a[0]));
        assert(b.contains(b[0]));
        let j = choose|j: int| 0 <= j < b.len() && b[j] == a[0];
        let i = choose|i: int| 0 <= i < a.len() && a[i] == b[0];
        assert(a[0] == b[0]);
        let (a1, b1) = (a.drop_first(), b.drop_first());
        assert forall|p: u16| a1.contains(p) <==> b1.contains(p) by {
            if a1.contains(p) {
                let k = choose|k: int| 0 <= k < a1.len() && a1[k] == p;
                assert(a[k + 1] == p);
                assert(b.contains(p));
                let m = choose|m: int| 0 <= m < b.len() && b[m] == p;
                assert(m != 0);
                assert(b1[m - 1] == p);
            }
            if b1.contains(p) {
                let k = choose|k: int| 0 <= k < b1.len() && b1[k] == p;
                assert(b[k + 1] == p);
                assert(a.contains(p));
                let m = choose|m: int| 0 <= m < a.len() && a[m] == p;
                assert(m != 0);
                assert(a1[m - 1] == p);
            }
        }
        lemma_ascending_unique(a1, b1);
        assert(a =~= seq![a[0]] + a1);
        assert(b =~= seq![b[0]] + b1);
    }
}

/// Formatting a port list and parsing it back gives the list: for a strictly ascending
/// list of non-zero ports joined with `,` or `, `, every list that `parse_ports` may
/// return for the text (strictly ascending, holding exactly the non-zero ports the text
/// names) is the original list.
pub proof fn format_then_parse(v: Seq<u16>, sep: Seq<char>, parsed: Seq<u16>)
    requires
        strictly_ascending(v),
        forall|i: int| 0 <= i < v.len() ==> #[trigger] v[i] != 0,
        sep == seq![','] || sep == seq![',', ' '],
        strictly_ascending(parsed),
        forall|p: u16|
            parsed.contains(p) <==> (p != 0 && port_listed(
                join(v.map_values(|q: u16| decimal(q as nat)), sep),
                p as nat,
            )),
    ensures
        parsed == v,
{
    formatted_ports_name_themselves(v, sep);
    lemma_ascending_unique(parsed, v);
}

/// White space around the dash of a range does not matter: for ports `a` and `b`, the
/// piece `a<w1>-<w2>b`, with any white space `w1` and `w2` (none included), names exactly
/// the ports from the lower to the higher of `a` and `b`.
pub proof fn spaced_ranges_name_the_same_ports(a: nat, b: nat, w1: Seq<char>, w2: Seq<char>)
    requires
        a <= 65535,
        b <= 65535,
        forall|i: int| 0 <= i < w1.len() ==> is_ws(#[trigger] w1[i]),
        forall|i: int| 0 <= i < w2.len() ==> is_ws(#[trigger] w2[i]),
    ensures
        forall|p: nat|
            #[trigger] port_listed(decimal(a) + w1 + seq!['-'] + w2 + decimal(b), p) <==> (if a <= b {
                a <= p <= b
            } else {
                b <= p <= a
            }),
{
    let da = decimal(a);
    let db = decimal(b);
    lemma_decimal(a);
    lemma_decimal(b);
    let s = da + w1 + seq!['-'] + w2 + db;
    assert(crate::text::is_digit(da[0]) && crate::text::is_digit(da.last()));
    assert(crate::text::is_digit(db[0]) && crate::text::is_digit(db.last()));
    // one piece: no comma
    assert forall|i: int| 0 <= i < s.len() implies #[trigger] s[i] != ',' && s[i] != ',' by {
        if i < da.len() {
            assert(s[i] == da[i]);
            assert(crate::text::is_digit(da[i]));
        } else if i < da.len() + w1.len() {
            assert(s[i] == w1[i - da.len()]);
            assert(is_ws(w1[i - da.len()]));
        } else if i == da.len() + w1.len() {
        } else if i < da.len() + w1.len() + 1 + w2.len() {
            assert(s[i] == w2[i - da.len() - w1.len() - 1]);
            assert(is_ws(w2[i - da.len() - w1.len() - 1]));
        } else {
            assert(s[i] == db[i - da.len() - w1.len() - 1 - w2.len()]);
            assert(crate::text::is_digit(db[i - da.len() - w1.len() - 1 - w2.len()]));
        }
    }
    lemma_count_until_any_prefix(s, seq![], ',', ',');
    assert(s + seq![] =~= s);
    assert(split_on(s, ',') =~= seq![s]);
    // the piece is trimmed
    assert(s[0] == da[0]);
    assert(s.last() == db.last());
    assert(is_trimmed(s));
    lemma_trim(s);
    // the dash
    let left = da + w1;
    assert forall|i: int| 0 <= i < left.len() implies #[trigger] left[i] != '-' && left[i] != '-' by {
        if i < da.len() {
            assert(left[i] == da[i]);
            assert(crate::text::is_digit(da[i]));
        } else {
            assert(left[i] == w1[i - da.len()]);
            assert(is_ws(w1[i - da.len()]));
        }
    }
    assert(s =~= left + (seq!['-'] + (w2 + db)));
    lemma_count_until_any_prefix(left, seq!['-'] + (w2 + db), '-', '-');
    let n = left.len() as int;
    assert(s.take(n) =~= left);
    assert(s.skip(n + 1) =~= w2 + db);
    // both ends trim to their digits
    assert(left.skip(0) =~= left);
    assert(lead_ws(left) == 0);
    lemma_trail_ws_suffix(da, w1);
    assert(trim(left) =~= da);
    lemma_lead_ws_prefix(w2, db);
    assert((w2 + db).skip(w2.len() as int) =~= db);
    assert(trail_ws(db) == 0);
    assert(trim(w2 + db) =~= db);
    assert(parse_uint(da, 65535) == Some(a));
    assert(parse_uint(db, 65535) == Some(b));
    assert forall|p: nat| #[trigger] port_listed(s, p) <==> (if a <= b {
        a <= p <= b
    } else {
        b <= p <= a
    }) by {
        if port_listed(s, p) {
            let i = choose|i: int| 0 <= i < 1 && #[trigger] piece_covers(split_on(s, ',')[i], p);
            assert(split_on(s, ',')[i] == s);
        }
        if (if a <= b { a <= p <= b } else { b <= p <= a }) {
            assert(piece_covers(split_on(s, ',')[0], p));
        }
    }
}

} // verus!
