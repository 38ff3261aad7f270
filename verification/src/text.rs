//! Character-level text handling shared by the parsers: Unicode white space, trimming,
//! splitting, line breaking, substring search and decimal numbers, each given as a
//! specification over `Seq<char>` and implemented over a window `lo..hi` of a `Vec<char>`.
use vstd::prelude::*;

verus! {

/// Appends one character to a `String` (std's `String::push`).
#[verifier::external_body]
pub(crate) fn push_char(s: &mut String, c: char)
    ensures
        final(s)@ == old(s)@.push(c),
{
    s.push(c);
}

/// Unicode `White_Space`, the property behind `char::is_whitespace`, `str::trim` and
/// `str::split_whitespace`.
pub open spec fn is_ws(c: char) -> bool {
    let u = c as u32;
    ||| 0x09 <= u <= 0x0d
    ||| u == 0x20
    ||| u == 0x85
    ||| u == 0xa0
    ||| u == 0x1680
    ||| 0x2000 <= u <= 0x200a
    ||| u == 0x2028
    ||| u == 0x2029
    ||| u == 0x202f
    ||| u == 0x205f
    ||| u == 0x3000
}

pub fn is_ws_char(c: char) -> (r: bool)
    ensures
        r == is_ws(c),
{
    let u = c as u32;
    (0x09 <= u && u <= 0x0d) || u == 0x20 || u == 0x85 || u == 0xa0 || u == 0x1680 || (0x2000
        <= u && u <= 0x200a) || u == 0x2028 || u == 0x2029 || u == 0x202f || u == 0x205f || u
        == 0x3000
}

/// Number of white-space characters at the start of `s`.
pub open spec fn lead_ws(s: Seq<char>) -> nat
    decreases s.len(),
{
    if s.len() > 0 && is_ws(s[0]) {
        1 + lead_ws(s.drop_first())
    } else {
        0
    }
}

/// Number of white-space characters at the end of `s`.
pub open spec fn trail_ws(s: Seq<char>) -> nat
    decreases s.len(),
{
    if s.len() > 0 && is_ws(s.last()) {
        1 + trail_ws(s.drop_last())
    } else {
        0
    }
}

/// `s` without leading and trailing white space (`str::trim`).
pub open spec fn trim(s: Seq<char>) -> Seq<char> {
    let t = s.skip(lead_ws(s) as int);
    t.take(t.len() - trail_ws(t))
}

/// Number of characters of `s` before the first `c1` or `c2` (all of `s` when there is none).
pub open spec fn count_until_any(s: Seq<char>, c1: char, c2: char) -> nat
    decreases s.len(),
{
    if s.len() == 0 || s[0] == c1 || s[0] == c2 {
        0
    } else {
        1 + count_until_any(s.drop_first(), c1, c2)
    }
}

/// Number of characters of `s` before the first `c` (all of `s` when there is none).
pub open spec fn count_until(s: Seq<char>, c: char) -> nat {
    count_until_any(s, c, c)
}

/// The pieces of `s` between occurrences of `c1` or `c2` (`str::split` with a char set).
pub open spec fn split_any(s: Seq<char>, c1: char, c2: char) -> Seq<Seq<char>>
    decreases s.len(),
{
    let n = count_until_any(s, c1, c2);
    if n >= s.len() {
        seq![s]
    } else {
        seq![s.take(n as int)] + split_any(s.skip(n + 1 as int), c1, c2)
    }
}

/// The pieces of `s` between occurrences of `c` (`str::split` with a char pattern).
pub open spec fn split_on(s: Seq<char>, c: char) -> Seq<Seq<char>> {
    split_any(s, c, c)
}

/// Number of non-white-space characters at the start of `s`.
pub open spec fn word_len(s: Seq<char>) -> nat
    decreases s.len(),
{
    if s.len() == 0 || is_ws(s[0]) {
        0
    } else {
        1 + word_len(s.drop_first())
    }
}

pub proof fn lemma_word_len_bound(s: Seq<char>)
    ensures
        word_len(s) <= s.len(),
    decreases s.len(),
{
    if s.len() > 0 && !is_ws(s[0]) {
        lemma_word_len_bound(s.drop_first());
    }
}

/// The white-space separated words of `s` (`str::split_whitespace`).
pub open spec fn ws_tokens(s: Seq<char>) -> Seq<Seq<char>>
    decreases s.len(),
{
    if s.len() == 0 {
        seq![]
    } else if is_ws(s[0]) {
        ws_tokens(s.drop_first())
    } else {
        let n = word_len(s);
        proof {
            lemma_word_len_bound(s);
        }
        seq![s.take(n as int)] + ws_tokens(s.skip(n as int))
    }
}

/// Neither starts nor ends with white space.
pub open spec fn is_trimmed(s: Seq<char>) -> bool {
    s.len() == 0 || (!is_ws(s[0]) && !is_ws(s.last()))
}

proof fn lemma_lead_ws(s: Seq<char>)
    ensures
        lead_ws(s) <= s.len(),
        lead_ws(s) < s.len() ==> !is_ws(s[lead_ws(s) as int]),
    decreases s.len(),
{
    if s.len() > 0 && is_ws(s[0]) {
        lemma_lead_ws(s.drop_first());
        if lead_ws(s) < s.len() {
            assert(s[lead_ws(s) as int] == s.drop_first()[lead_ws(s.drop_first()) as int]);
        }
    }
}

proof fn lemma_trail_ws(s: Seq<char>)
    ensures
        trail_ws(s) <= s.len(),
        trail_ws(s) < s.len() ==> !is_ws(s[s.len() - 1 - trail_ws(s)]),
        forall|j: int| s.len() - trail_ws(s) <= j < s.len() ==> is_ws(#[trigger] s[j]),
    decreases s.len(),
{
    if s.len() > 0 && is_ws(s.last()) {
        let d = s.drop_last();
        lemma_trail_ws(d);
        assert forall|j: int| s.len() - trail_ws(s) <= j < s.len() implies is_ws(#[trigger] s[j]) by {
            if j < s.len() - 1 {
                assert(s[j] == d[j]);
            }
        }
        if trail_ws(s) < s.len() {
            assert(s[s.len() - 1 - trail_ws(s)] == d[d.len() - 1 - trail_ws(d)]);
        }
    }
}

/// White space in front of text that starts with a non-space character is exactly what
/// `trim` drops at the start.
pub proof fn lemma_lead_ws_prefix(w: Seq<char>, d: Seq<char>)
    requires
        forall|i: int| 0 <= i < w.len() ==> is_ws(#[trigger] w[i]),
        d.len() > 0,
        !is_ws(d[0]),
    ensures
        lead_ws(w + d) == w.len(),
    decreases w.len(),
{
    if w.len() > 0 {
        assert((w + d)[0] == w[0]);
        assert((w + d).drop_first() =~= w.drop_first() + d);
        assert forall|i: int| 0 <= i < w.drop_first().len() implies is_ws(#[trigger] w.drop_first()[i]) by {
            assert(w.drop_first()[i] == w[i + 1]);
        }
        lemma_lead_ws_prefix(w.drop_first(), d);
    } else {
        assert(w + d =~= d);
    }
}

/// White space after text that ends with a non-space character is exactly what `trim`
/// drops at the end.
pub proof fn lemma_trail_ws_suffix(d: Seq<char>, w: Seq<char>)
    requires
        forall|i: int| 0 <= i < w.len() ==> is_ws(#[trigger] w[i]),
        d.len() > 0,
        !is_ws(d.last()),
    ensures
        trail_ws(d + w) == w.len(),
    decreases w.len(),
{
    if w.len() > 0 {
        assert((d + w).last() == w.last());
        assert((d + w).drop_last() =~= d + w.drop_last());
        assert forall|i: int| 0 <= i < w.drop_last().len() implies is_ws(#[trigger] w.drop_last()[i]) by {
            assert(w.drop_last()[i] == w[i]);
        }
        lemma_trail_ws_suffix(d, w.drop_last());
    } else {
        assert(d + w =~= d);
    }
}

/// Trimmed text stays as it is under `trim`, and `trim` gives trimmed text.
pub proof fn lemma_trim(s: Seq<char>)
    ensures
        is_trimmed(trim(s)),
        is_trimmed(s) ==> trim(s) == s,
{
    lemma_lead_ws(s);
    let t = s.skip(lead_ws(s) as int);
    lemma_trail_ws(t);
    let u = t.take(t.len() - trail_ws(t));
    if u.len() > 0 {
        assert(u[0] == t[0]);
        assert(!is_ws(t[0]));
        assert(u.last() == t[t.len() - 1 - trail_ws(t)]);
    }
    if is_trimmed(s) && s.len() > 0 {
        assert(lead_ws(s) == 0);
        assert(t =~= s);
        assert(trail_ws(t) == 0);
        assert(u =~= s);
    }
    if s.len() == 0 {
        assert(u =~= s);
    }
}

proof fn lemma_word_chars(s: Seq<char>)
    ensures
        forall|j: int| 0 <= j < word_len(s) ==> !is_ws(#[trigger] s[j]),
    decreases s.len(),
{
    if s.len() > 0 && !is_ws(s[0]) {
        lemma_word_chars(s.drop_first());
        lemma_word_len_bound(s.drop_first());
        assert forall|j: int| 0 <= j < word_len(s) implies !is_ws(#[trigger] s[j]) by {
            if j > 0 {
                assert(s[j] == s.drop_first()[j - 1]);
            }
        }
    }
}

/// The words of a text are non-empty and hold no white space.
pub proof fn lemma_ws_tokens(s: Seq<char>)
    ensures
        forall|i: int|
            0 <= i < ws_tokens(s).len() ==> (#[trigger] ws_tokens(s)[i]).len() > 0
                && is_trimmed(ws_tokens(s)[i]),
    decreases s.len(),
{
    if s.len() > 0 {
        if is_ws(s[0]) {
            lemma_ws_tokens(s.drop_first());
            assert(ws_tokens(s) == ws_tokens(s.drop_first()));
        } else {
            let n = word_len(s);
            lemma_word_len_bound(s);
            lemma_word_chars(s);
            lemma_ws_tokens(s.skip(n as int));
            let toks = ws_tokens(s);
            assert(toks == seq![s.take(n as int)] + ws_tokens(s.skip(n as int)));
            assert forall|i: int| 0 <= i < toks.len() implies (#[trigger] toks[i]).len() > 0
                && is_trimmed(toks[i]) by {
                if i == 0 {
                    assert(toks[0] == s.take(n as int));
                    assert(s.take(n as int)[0] == s[0]);
                    assert(s.take(n as int).last() == s[n - 1]);
                } else {
                    assert(toks[i] == ws_tokens(s.skip(n as int))[i - 1]);
                }
            }
        }
    }
}

/// Joining non-empty trimmed pieces with single spaces gives trimmed text.
pub proof fn lemma_join_trimmed(parts: Seq<Seq<char>>)
    requires
        forall|i: int| 0 <= i < parts.len() ==> (#[trigger] parts[i]).len() > 0 && is_trimmed(
            parts[i],
        ),
    ensures
        is_trimmed(join(parts, seq![' '])),
        parts.len() > 0 ==> join(parts, seq![' ']).len() > 0 && join(parts, seq![' '])[0]
            == parts[0][0],
    decreases parts.len(),
{
    if parts.len() > 1 {
        let init = parts.drop_last();
        lemma_join_trimmed(init);
        let j = join(init, seq![' ']);
        let whole = j + seq![' '] + parts.last();
        assert(join(parts, seq![' ']) == whole);
        assert(init[0] == parts[0]);
        assert(whole[0] == j[0]);
        assert(whole.last() == parts.last().last());
    }
}

/// The first separator after a separator-free prefix is right after it.
pub proof fn lemma_count_until_any_prefix(a: Seq<char>, rest: Seq<char>, c1: char, c2: char)
    requires
        forall|i: int| 0 <= i < a.len() ==> #[trigger] a[i] != c1 && a[i] != c2,
        rest.len() == 0 || rest[0] == c1 || rest[0] == c2,
    ensures
        count_until_any(a + rest, c1, c2) == a.len(),
    decreases a.len(),
{
    if a.len() > 0 {
        assert((a + rest)[0] == a[0]);
        assert((a + rest).drop_first() =~= a.drop_first() + rest);
        lemma_count_until_any_prefix(a.drop_first(), rest, c1, c2);
    } else {
        assert(a + rest =~= rest);
    }
}

/// `join` seen from the front.
pub proof fn lemma_join_front(parts: Seq<Seq<char>>, sep: Seq<char>)
    requires
        parts.len() >= 2,
    ensures
        join(parts, sep) == parts[0] + sep + join(parts.drop_first(), sep),
    decreases parts.len(),
{
    let tail = parts.drop_first();
    if parts.len() == 2 {
        assert(parts.drop_last() =~= seq![parts[0]]);
        assert(tail =~= seq![parts[1]]);
        assert(join(parts.drop_last(), sep) == parts.drop_last()[0]);
        assert(join(tail, sep) == tail[0]);
    } else {
        let init = parts.drop_last();
        lemma_join_front(init, sep);
        assert(init.drop_first() =~= tail.drop_last());
        assert(tail.last() == parts.last());
        assert(join(tail, sep) == join(tail.drop_last(), sep) + sep + tail.last());
        assert(join(parts, sep) =~= parts[0] + sep + join(tail, sep));
    }
}

/// Splitting at `c` a prefix free of `c` followed by pieces joined with `c` plus `extra`:
/// the first piece carries the prefix, every later one starts with `extra`.
pub proof fn lemma_split_join_sep(pre: Seq<char>, parts: Seq<Seq<char>>, extra: Seq<char>, c: char)
    requires
        parts.len() >= 1,
        forall|j: int| 0 <= j < pre.len() ==> #[trigger] pre[j] != c,
        forall|j: int| 0 <= j < extra.len() ==> #[trigger] extra[j] != c,
        forall|i: int, j: int|
            0 <= i < parts.len() && 0 <= j < parts[i].len() ==> #[trigger] parts[i][j] != c,
    ensures
        split_on(pre + join(parts, seq![c] + extra), c).len() == parts.len(),
        split_on(pre + join(parts, seq![c] + extra), c)[0] == pre + parts[0],
        forall|i: int|
            1 <= i < parts.len() ==> #[trigger] split_on(pre + join(parts, seq![c] + extra), c)[i]
                == extra + parts[i],
    decreases parts.len(),
{
    let sep = seq![c] + extra;
    let p0 = pre + parts[0];
    assert forall|j: int| 0 <= j < p0.len() implies #[trigger] p0[j] != c && p0[j] != c by {
        if j >= pre.len() {
            assert(p0[j] == parts[0][j - pre.len()]);
        }
    }
    if parts.len() == 1 {
        assert(pre + join(parts, sep) =~= p0 + seq![]);
        lemma_count_until_any_prefix(p0, seq![], c, c);
    } else {
        let tail = parts.drop_first();
        lemma_join_front(parts, sep);
        let rest = join(tail, sep);
        let whole = pre + join(parts, sep);
        assert(whole =~= p0 + (seq![c] + (extra + rest)));
        lemma_count_until_any_prefix(p0, seq![c] + (extra + rest), c, c);
        assert(whole.take(p0.len() as int) =~= p0);
        assert(whole.skip(p0.len() + 1 as int) =~= extra + rest);
        assert forall|i: int, j: int| 0 <= i < tail.len() && 0 <= j < tail[i].len() implies
            #[trigger] tail[i][j] != c by {
            assert(tail[i] == parts[i + 1]);
        }
        lemma_split_join_sep(extra, tail, extra, c);
        let sp = split_on(whole, c);
        assert(sp == seq![p0] + split_on(extra + rest, c));
        assert forall|i: int| 1 <= i < parts.len() implies #[trigger] sp[i] == extra + parts[i] by {
            assert(sp[i] == split_on(extra + rest, c)[i - 1]);
            if i == 1 {
            } else {
                assert(tail[i - 1] == parts[i]);
            }
        }
    }
}

/// `s` without one trailing carriage return.
pub open spec fn strip_cr(s: Seq<char>) -> Seq<char> {
    if s.len() > 0 && s.last() == '\r' {
        s.drop_last()
    } else {
        s
    }
}

/// The lines of `s` (`str::lines`): split at `\n`, a `\r` before a `\n` belongs to the
/// line ending, and a final empty line after the last `\n` is not a line.
pub open spec fn lines(s: Seq<char>) -> Seq<Seq<char>> {
    let p = split_on(s, '\n');
    let body = p.drop_last().map_values(|x: Seq<char>| strip_cr(x));
    if p.last().len() == 0 {
        body
    } else {
        body.push(p.last())
    }
}

/// The first position at or after `k` where `pat` occurs in `s`.
pub open spec fn find_from(s: Seq<char>, pat: Seq<char>, k: int) -> Option<int>
    decreases s.len() - k,
{
    if k < 0 || k + pat.len() > s.len() {
        None
    } else if s.subrange(k, k + pat.len()) == pat {
        Some(k)
    } else if k >= s.len() {
        None
    } else {
        find_from(s, pat, k + 1)
    }
}

/// The first position where `pat` occurs in `s` (`str::find`).
pub open spec fn find_seq(s: Seq<char>, pat: Seq<char>) -> Option<int> {
    find_from(s, pat, 0)
}

/// `s` holds `pat` somewhere (`str::contains`).
pub open spec fn contains_seq(s: Seq<char>, pat: Seq<char>) -> bool {
    find_seq(s, pat) is Some
}

pub open spec fn is_digit(c: char) -> bool {
    '0' <= c <= '9'
}

pub open spec fn digit_val(c: char) -> nat {
    (c as int - '0' as int) as nat
}

pub open spec fn all_digits(s: Seq<char>) -> bool {
    forall|i: int| 0 <= i < s.len() ==> is_digit(#[trigger] s[i])
}

/// The value of a string of decimal digits.
pub open spec fn dec_value(s: Seq<char>) -> nat
    decreases s.len(),
{
    if s.len() == 0 {
        0
    } else {
        dec_value(s.drop_last()) * 10 + digit_val(s.last())
    }
}

/// `FromStr` of an unsigned integer type whose largest value is `max`: an optional `+`,
/// then one or more ASCII digits, with a value no larger than `max`.
pub open spec fn parse_uint(s: Seq<char>, max: nat) -> Option<nat> {
    let d = if s.len() > 1 && s[0] == '+' {
        s.drop_first()
    } else {
        s
    };
    if d.len() > 0 && all_digits(d) && dec_value(d) <= max {
        Some(dec_value(d))
    } else {
        None
    }
}

pub open spec fn digit_char(d: nat) -> char {
    (d + 48) as char
}

/// Decimal rendering of `n` without leading zeros (`ToString` of an integer).
pub open spec fn decimal(n: nat) -> Seq<char>
    decreases n,
{
    if n < 10 {
        seq![digit_char(n)]
    } else {
        decimal(n / 10).push(digit_char(n % 10))
    }
}

/// `parts` joined with `sep` between neighbours (`[T]::join`).
pub open spec fn join(parts: Seq<Seq<char>>, sep: Seq<char>) -> Seq<char>
    decreases parts.len(),
{
    if parts.len() == 0 {
        seq![]
    } else if parts.len() == 1 {
        parts[0]
    } else {
        join(parts.drop_last(), sep) + sep + parts.last()
    }
}

/// The slices of `v` that the index pairs of `r` delimit.
pub open spec fn slices(v: Seq<char>, r: Seq<(usize, usize)>) -> Seq<Seq<char>> {
    r.map_values(|p: (usize, usize)| v.subrange(p.0 as int, p.1 as int))
}

/// Every pair of `r` is an ordered window inside `lo..hi`.
pub open spec fn windows_within(r: Seq<(usize, usize)>, lo: int, hi: int) -> bool {
    forall|i: int| 0 <= i < r.len() ==> lo <= (#[trigger] r[i]).0 <= r[i].1 <= hi
}

/// The characters of a string slice, in order.
pub fn chars_of(s: &str) -> (v: Vec<char>)
    ensures
        v@ == s@,
{
    let mut v: Vec<char> = Vec::new();
    for c in it: s.chars()
        invariant
            v.len() == it.index(),
            forall|i: int| 0 <= i < v.len() ==> v@[i] == it.seq()[i],
    {
        v.push(c);
    }
    assert(v@ =~= s@);
    v
}

/// A `String` holding `v[lo..hi]`.
pub fn string_of(v: &Vec<char>, lo: usize, hi: usize) -> (s: String)
    requires
        lo <= hi <= v.len(),
    ensures
        s@ == v@.subrange(lo as int, hi as int),
{
    let mut s = String::new();
    let mut i = lo;
    while i < hi
        invariant
            lo <= i <= hi <= v.len(),
            s@ == v@.subrange(lo as int, i as int),
        decreases hi - i,
    {
        push_char(&mut s, v[i]);
        assert(v@.subrange(lo as int, i + 1) =~= v@.subrange(lo as int, i as int).push(v@[i as int]));
        i += 1;
    }
    s
}

/// Appends `v[lo..hi]` to `s`.
pub fn push_window(s: &mut String, v: &Vec<char>, lo: usize, hi: usize)
    requires
        lo <= hi <= v.len(),
    ensures
        final(s)@ == old(s)@ + v@.subrange(lo as int, hi as int),
{
    let mut i = lo;
    while i < hi
        invariant
            lo <= i <= hi <= v.len(),
            s@ == old(s)@ + v@.subrange(lo as int, i as int),
        decreases hi - i,
    {
        push_char(s, v[i]);
        assert(v@.subrange(lo as int, i + 1) =~= v@.subrange(lo as int, i as int).push(v@[i as int]));
        i += 1;
    }
}

/// Bounds of the trimmed window: `v[a..b] == trim(v[lo..hi])`.
pub fn trim_bounds(v: &Vec<char>, lo: usize, hi: usize) -> (r: (usize, usize))
    requires
        lo <= hi <= v.len(),
    ensures
        lo <= r.0 <= r.1 <= hi,
        v@.subrange(r.0 as int, r.1 as int) == trim(v@.subrange(lo as int, hi as int)),
{
    let ghost s = v@.subrange(lo as int, hi as int);
    let mut a = lo;
    while a < hi && is_ws_char(v[a])
        invariant
            lo <= a <= hi <= v.len(),
            lead_ws(s) == (a - lo) + lead_ws(v@.subrange(a as int, hi as int)),
        decreases hi - a,
    {
        assert(v@.subrange(a as int, hi as int).drop_first() =~= v@.subrange(a + 1, hi as int));
        a += 1;
    }
    assert(lead_ws(v@.subrange(a as int, hi as int)) == 0);
    let ghost t = s.skip(lead_ws(s) as int);
    assert(t =~= v@.subrange(a as int, hi as int));
    let mut b = hi;
    while b > a && is_ws_char(v[b - 1])
        invariant
            lo <= a <= b <= hi <= v.len(),
            trail_ws(t) == (hi - b) + trail_ws(v@.subrange(a as int, b as int)),
        decreases b - a,
    {
        assert(v@.subrange(a as int, b as int).drop_last() =~= v@.subrange(a as int, b - 1));
        b -= 1;
    }
    assert(trail_ws(v@.subrange(a as int, b as int)) == 0);
    assert(t.take(t.len() - trail_ws(t)) =~= v@.subrange(a as int, b as int));
    (a, b)
}

/// The end of the piece that starts at `start`: the first `c1` or `c2` at or after
/// `start`, or `hi`.
pub fn piece_end_any(v: &Vec<char>, start: usize, hi: usize, c1: char, c2: char) -> (e: usize)
    requires
        start <= hi <= v.len(),
    ensures
        start <= e <= hi,
        e - start == count_until_any(v@.subrange(start as int, hi as int), c1, c2),
        e < hi ==> (v@[e as int] == c1 || v@[e as int] == c2),
        forall|i: int| start <= i < e ==> v@[i] != c1 && v@[i] != c2,
{
    let mut e = start;
    while e < hi && v[e] != c1 && v[e] != c2
        invariant
            start <= e <= hi <= v.len(),
            count_until_any(v@.subrange(start as int, hi as int), c1, c2) == (e - start)
                + count_until_any(v@.subrange(e as int, hi as int), c1, c2),
            forall|i: int| start <= i < e ==> v@[i] != c1 && v@[i] != c2,
        decreases hi - e,
    {
        assert(v@.subrange(e as int, hi as int).drop_first() =~= v@.subrange(e + 1, hi as int));
        e += 1;
    }
    e
}

/// The end of the piece that starts at `start`: the first `c` at or after `start`, or `hi`.
pub fn piece_end(v: &Vec<char>, start: usize, hi: usize, c: char) -> (e: usize)
    requires
        start <= hi <= v.len(),
    ensures
        start <= e <= hi,
        e - start == count_until(v@.subrange(start as int, hi as int), c),
        e < hi ==> v@[e as int] == c,
        forall|i: int| start <= i < e ==> v@[i] != c,
{
    piece_end_any(v, start, hi, c, c)
}

/// Windows of the pieces of `v[lo..hi]` between occurrences of `c1` or `c2`.
pub fn split_windows_any(v: &Vec<char>, lo: usize, hi: usize, c1: char, c2: char) -> (r: Vec<
    (usize, usize),
>)
    requires
        lo <= hi <= v.len(),
    ensures
        windows_within(r@, lo as int, hi as int),
        slices(v@, r@) == split_any(v@.subrange(lo as int, hi as int), c1, c2),
{
    let mut r: Vec<(usize, usize)> = Vec::new();
    let mut start = lo;
    loop
        invariant
            lo <= start <= hi <= v.len(),
            windows_within(r@, lo as int, hi as int),
            split_any(v@.subrange(lo as int, hi as int), c1, c2) == slices(v@, r@) + split_any(
                v@.subrange(start as int, hi as int),
                c1,
                c2,
            ),
        decreases hi - start,
    {
        let e = piece_end_any(v, start, hi, c1, c2);
        let ghost t = v@.subrange(start as int, hi as int);
        let ghost prev = r@;
        r.push((start, e));
        assert(slices(v@, r@) =~= slices(v@, prev).push(v@.subrange(start as int, e as int)));
        if e == hi {
            assert(split_any(t, c1, c2) == seq![t]);
            return r;
        }
        assert(t.take(e - start) =~= v@.subrange(start as int, e as int));
        assert(t.skip(e - start + 1) =~= v@.subrange(e + 1, hi as int));
        start = e + 1;
    }
}

/// Windows of the pieces of `v[lo..hi]` between occurrences of `c`.
pub fn split_windows(v: &Vec<char>, lo: usize, hi: usize, c: char) -> (r: Vec<(usize, usize)>)
    requires
        lo <= hi <= v.len(),
    ensures
        windows_within(r@, lo as int, hi as int),
        slices(v@, r@) == split_on(v@.subrange(lo as int, hi as int), c),
{
    split_windows_any(v, lo, hi, c, c)
}

/// Windows of the white-space separated words of `v[lo..hi]`.
pub fn word_windows(v: &Vec<char>, lo: usize, hi: usize) -> (r: Vec<(usize, usize)>)
    requires
        lo <= hi <= v.len(),
    ensures
        windows_within(r@, lo as int, hi as int),
        slices(v@, r@) == ws_tokens(v@.subrange(lo as int, hi as int)),
{
    let mut r: Vec<(usize, usize)> = Vec::new();
    let mut i = lo;
    while i < hi
        invariant
            lo <= i <= hi <= v.len(),
            windows_within(r@, lo as int, hi as int),
            ws_tokens(v@.subrange(lo as int, hi as int)) == slices(v@, r@) + ws_tokens(
                v@.subrange(i as int, hi as int),
            ),
        decreases hi - i,
    {
        let ghost t = v@.subrange(i as int, hi as int);
        if is_ws_char(v[i]) {
            assert(t.drop_first() =~= v@.subrange(i + 1, hi as int));
            i += 1;
        } else {
            let mut j = i;
            while j < hi && !is_ws_char(v[j])
                invariant
                    i <= j <= hi <= v.len(),
                    word_len(t) == (j - i) + word_len(v@.subrange(j as int, hi as int)),
                decreases hi - j,
            {
                assert(v@.subrange(j as int, hi as int).drop_first() =~= v@.subrange(
                    j + 1,
                    hi as int,
                ));
                j += 1;
            }
            assert(word_len(v@.subrange(j as int, hi as int)) == 0);
            assert(t.take(j - i) =~= v@.subrange(i as int, j as int));
            assert(t.skip(j - i) =~= v@.subrange(j as int, hi as int));
            let ghost prev = r@;
            r.push((i, j));
            assert(slices(v@, r@) =~= slices(v@, prev).push(v@.subrange(i as int, j as int)));
            i = j;
        }
    }
    assert(ws_tokens(v@.subrange(i as int, hi as int)) =~= Seq::<Seq<char>>::empty());
    assert(slices(v@, r@) + Seq::<Seq<char>>::empty() =~= slices(v@, r@));
    r
}

proof fn lemma_split_nonempty(s: Seq<char>, c: char)
    ensures
        split_on(s, c).len() >= 1,
    decreases s.len(),
{
    let n = count_until(s, c);
    if n < s.len() {
        lemma_split_nonempty(s.skip(n + 1 as int), c);
    }
    assert(split_on(s, c) == split_any(s, c, c));
}

/// Windows of the lines of `v[lo..hi]`.
pub fn line_windows(v: &Vec<char>, lo: usize, hi: usize) -> (r: Vec<(usize, usize)>)
    requires
        lo <= hi <= v.len(),
    ensures
        windows_within(r@, lo as int, hi as int),
        slices(v@, r@) == lines(v@.subrange(lo as int, hi as int)),
{
    let pieces = split_windows(v, lo, hi, '\n');
    let ghost p = split_on(v@.subrange(lo as int, hi as int), '\n');
    proof {
        lemma_split_nonempty(v@.subrange(lo as int, hi as int), '\n');
    }
    let n = pieces.len();
    let mut r: Vec<(usize, usize)> = Vec::new();
    let mut i: usize = 0;
    while i + 1 < n
        invariant
            0 <= i < n == pieces.len(),
            lo <= hi <= v.len(),
            p.len() == n,
            slices(v@, pieces@) == p,
            windows_within(pieces@, lo as int, hi as int),
            windows_within(r@, lo as int, hi as int),
            slices(v@, r@) == p.take(i as int).map_values(|x: Seq<char>| strip_cr(x)),
        decreases n - i,
    {
        let (a, b) = pieces[i];
        assert(p[i as int] == v@.subrange(a as int, b as int));
        let e = if b > a && v[b - 1] == '\r' {
            assert(v@.subrange(a as int, b as int).drop_last() =~= v@.subrange(a as int, b - 1));
            b - 1
        } else {
            b
        };
        let ghost prev = r@;
        r.push((a, e));
        assert(slices(v@, r@) =~= slices(v@, prev).push(strip_cr(p[i as int])));
        assert(p.take(i + 1).map_values(|x: Seq<char>| strip_cr(x)) =~= p.take(
            i as int,
        ).map_values(|x: Seq<char>| strip_cr(x)).push(strip_cr(p[i as int])));
        i += 1;
    }
    assert(p.take(i as int) =~= p.drop_last());
    let (a, b) = pieces[n - 1];
    assert(p.last() == v@.subrange(a as int, b as int));
    if a < b {
        let ghost prev = r@;
        r.push((a, b));
        assert(slices(v@, r@) =~= slices(v@, prev).push(p.last()));
    }
    r
}

/// `v[k..k + |pat|] == pat`.
pub fn matches_at(v: &Vec<char>, k: usize, pat: &Vec<char>) -> (r: bool)
    requires
        k + pat.len() <= v.len(),
    ensures
        r == (v@.subrange(k as int, k + pat.len()) == pat@),
{
    let mut i: usize = 0;
    while i < pat.len()
        invariant
            k + pat.len() <= v.len(),
            0 <= i <= pat.len(),
            forall|j: int| 0 <= j < i ==> v@[k + j] == pat@[j],
        decreases pat.len() - i,
    {
        if v[k + i] != pat[i] {
            assert(v@.subrange(k as int, k + pat.len())[i as int] != pat@[i as int]);
            return false;
        }
        i += 1;
    }
    assert(v@.subrange(k as int, k + pat.len()) =~= pat@);
    true
}

/// The first occurrence of `pat` in `v[lo..hi]`, as an index into `v`.
pub fn find_in(v: &Vec<char>, lo: usize, hi: usize, pat: &Vec<char>) -> (r: Option<usize>)
    requires
        lo <= hi <= v.len(),
    ensures
        r is None <==> find_seq(v@.subrange(lo as int, hi as int), pat@) is None,
        r matches Some(k) ==> lo <= k && k + pat.len() <= hi && find_seq(
            v@.subrange(lo as int, hi as int),
            pat@,
        ) == Some(k - lo),
{
    let ghost s = v@.subrange(lo as int, hi as int);
    let mut k = lo;
    while k <= hi && pat.len() <= hi - k
        invariant
            lo <= k <= hi <= v.len(),
            s == v@.subrange(lo as int, hi as int),
            find_seq(s, pat@) == find_from(s, pat@, k - lo),
        decreases hi - k,
    {
        if matches_at(v, k, pat) {
            assert(s.subrange(k - lo, k - lo + pat.len()) =~= v@.subrange(k as int, k + pat.len()));
            return Some(k);
        }
        assert(s.subrange(k - lo, k - lo + pat.len()) =~= v@.subrange(k as int, k + pat.len()));
        if k >= hi {
            return None;
        }
        k += 1;
    }
    None
}

proof fn lemma_dec_value_prefix(s: Seq<char>, i: int)
    requires
        0 <= i <= s.len(),
        all_digits(s),
    ensures
        dec_value(s.take(i)) <= dec_value(s),
    decreases s.len(),
{
    if i < s.len() {
        assert(s.drop_last().take(i) =~= s.take(i));
        lemma_dec_value_prefix(s.drop_last(), i);
    } else {
        assert(s.take(i) =~= s);
    }
}

/// `FromStr` of an unsigned integer whose largest value is `max`, on `v[lo..hi]`.
pub fn parse_uint_in(v: &Vec<char>, lo: usize, hi: usize, max: u32) -> (r: Option<u32>)
    requires
        lo <= hi <= v.len(),
        max <= 0x1000_0000,
    ensures
        match parse_uint(v@.subrange(lo as int, hi as int), max as nat) {
            Some(n) => r == Some(n as u32),
            None => r is None,
        },
{
    let ghost s = v@.subrange(lo as int, hi as int);
    let start = if hi - lo > 1 && v[lo] == '+' {
        lo + 1
    } else {
        lo
    };
    let ghost d = v@.subrange(start as int, hi as int);
    assert(d =~= (if s.len() > 1 && s[0] == '+' {
        s.drop_first()
    } else {
        s
    }));
    if start == hi {
        return None;
    }
    let mut value: u32 = 0;
    let mut i = start;
    while i < hi
        invariant
            lo <= start <= i <= hi <= v.len(),
            d == v@.subrange(start as int, hi as int),
            s == v@.subrange(lo as int, hi as int),
            d == (if s.len() > 1 && s[0] == '+' {
                s.drop_first()
            } else {
                s
            }),
            max <= 0x1000_0000,
            value <= max,
            all_digits(v@.subrange(start as int, i as int)),
            value == dec_value(v@.subrange(start as int, i as int)),
        decreases hi - i,
    {
        let c = v[i];
        if !('0' <= c && c <= '9') {
            assert(d[i - start] == c);
            assert(!is_digit(d[i - start]));
            assert(!all_digits(d));
            return None;
        }
        let digit = (c as u32) - ('0' as u32);
        let ghost pre = v@.subrange(start as int, i as int);
        let ghost next = v@.subrange(start as int, i + 1);
        assert(next.drop_last() =~= pre);
        value = value * 10 + digit;
        assert(next.last() == c);
        assert(dec_value(next) == value);
        assert(all_digits(next));
        if value > max {
            proof {
                if all_digits(d) {
                    assert(d.take(i + 1 - start) =~= next);
                    lemma_dec_value_prefix(d, i + 1 - start);
                }
            }
            return None;
        }
        i += 1;
    }
    Some(value)
}

/// Appends the decimal digits of `n`.
pub fn push_decimal(out: &mut Vec<char>, n: u64)
    ensures
        final(out)@ == old(out)@ + decimal(n as nat),
    decreases n,
{
    if n >= 10 {
        push_decimal(out, n / 10);
    }
    let d = (n % 10) as u32;
    let c = char_from_digit(d);
    let ghost before = out@;
    out.push(c);
    proof {
        if n >= 10 {
            assert(decimal(n as nat) == decimal((n / 10) as nat).push(digit_char((n % 10) as nat)));
        }
        assert(out@ =~= old(out)@ + decimal(n as nat));
    }
}

/// The ASCII digit for `d < 10`.
pub fn char_from_digit(d: u32) -> (c: char)
    requires
        d < 10,
    ensures
        c == digit_char(d as nat),
{
    if d == 0 { '0' }
    else if d == 1 { '1' }
    else if d == 2 { '2' }
    else if d == 3 { '3' }
    else if d == 4 { '4' }
    else if d == 5 { '5' }
    else if d == 6 { '6' }
    else if d == 7 { '7' }
    else if d == 8 { '8' }
    else { '9' }
}


/// The first `Some` of a sequence of options (`Iterator::find_map`).
pub open spec fn first_some<T>(s: Seq<Option<T>>) -> Option<T>
    decreases s.len(),
{
    if s.len() == 0 {
        None
    } else if s[0] is Some {
        s[0]
    } else {
        first_some(s.drop_first())
    }
}

/// `first_some` of a prefix grows one element at a time.
pub proof fn lemma_first_some_step<T>(s: Seq<Option<T>>, i: int)
    requires
        0 <= i < s.len(),
        first_some(s.take(i)) is None,
    ensures
        first_some(s.take(i + 1)) == s[i],
        s[i] is None ==> first_some(s.take(i + 1)) is None,
    decreases i,
{
    if i == 0 {
        assert(s.take(1).drop_first() =~= Seq::<Option<T>>::empty());
        assert(s.take(1)[0] == s[0]);
        assert(first_some(s.take(1).drop_first()) is None);
    } else {
        let t = s.take(i);
        assert(t[0] == s[0]);
        assert(s[0] is None);
        assert(t.drop_first() =~= s.drop_first().take(i - 1));
        assert(first_some(s.drop_first().take(i - 1)) is None);
        let u = s.take(i + 1);
        assert(u[0] == s[0]);
        assert(u.drop_first() =~= s.drop_first().take(i));
        lemma_first_some_step(s.drop_first(), i - 1);
        assert(first_some(u) == first_some(u.drop_first()));
    }
}

/// What `first_some` gives is one of the elements.
pub proof fn lemma_first_some_member<T>(s: Seq<Option<T>>)
    ensures
        first_some(s) is Some ==> exists|i: int| 0 <= i < s.len() && s[i] == first_some(s),
    decreases s.len(),
{
    if s.len() > 0 && s[0] is None {
        lemma_first_some_member(s.drop_first());
        if first_some(s.drop_first()) is Some {
            let i = choose|i: int| 0 <= i < s.drop_first().len() && s.drop_first()[i] == first_some(s.drop_first());
            assert(s[i + 1] == first_some(s));
        }
    } else if s.len() > 0 {
        assert(s[0] == first_some(s));
    }
}

/// What `first_some` gives is the first `Some` of the sequence.
pub proof fn lemma_first_some_first<T>(s: Seq<Option<T>>)
    ensures
        first_some(s) is Some ==> exists|i: int|
            0 <= i < s.len() && s[i] == first_some(s) && forall|j: int| 0 <= j < i ==> (#[trigger] s[j]) is None,
        first_some(s) is None ==> forall|j: int| 0 <= j < s.len() ==> (#[trigger] s[j]) is None,
    decreases s.len(),
{
    if s.len() > 0 && s[0] is None {
        let t = s.drop_first();
        lemma_first_some_first(t);
        if first_some(t) is Some {
            let i = choose|i: int|
                0 <= i < t.len() && t[i] == first_some(t) && forall|j: int| 0 <= j < i ==> (#[trigger] t[j]) is None;
            assert(s[i + 1] == first_some(s));
            assert forall|j: int| 0 <= j < i + 1 implies (#[trigger] s[j]) is None by {
                if j > 0 {
                    assert(s[j] == t[j - 1]);
                }
            }
        } else {
            assert forall|j: int| 0 <= j < s.len() implies (#[trigger] s[j]) is None by {
                if j > 0 {
                    assert(s[j] == t[j - 1]);
                }
            }
        }
    } else if s.len() > 0 {
        assert(s[0] == first_some(s));
    }
}

/// `first_some` is settled by the first `Some`.
pub proof fn lemma_first_some_found<T>(s: Seq<Option<T>>, i: int)
    requires
        0 <= i < s.len(),
        first_some(s.take(i)) is None,
        s[i] is Some,
    ensures
        first_some(s) == s[i],
    decreases i,
{
    if i > 0 {
        assert(s.take(i)[0] == s[0]);
        assert(s[0] is None);
        assert(s.take(i).drop_first() =~= s.drop_first().take(i - 1));
        lemma_first_some_found(s.drop_first(), i - 1);
    }
}

/// `v[lo..hi] == w`.
pub fn window_eq(v: &Vec<char>, lo: usize, hi: usize, w: &Vec<char>) -> (r: bool)
    requires
        lo <= hi <= v.len(),
    ensures
        r == (v@.subrange(lo as int, hi as int) == w@),
{
    if hi - lo != w.len() {
        assert(v@.subrange(lo as int, hi as int).len() != w@.len());
        return false;
    }
    matches_at(v, lo, w)
}

/// The character view of an optional string.
pub open spec fn opt_view(o: Option<String>) -> Option<Seq<char>> {
    match o {
        Some(s) => Some(s@),
        None => None,
    }
}

pub open spec fn is_hex(c: char) -> bool {
    ||| '0' <= c <= '9'
    ||| 'a' <= c <= 'f'
    ||| 'A' <= c <= 'F'
}

pub fn is_hex_char(c: char) -> (r: bool)
    ensures
        r == is_hex(c),
{
    ('0' <= c && c <= '9') || ('a' <= c && c <= 'f') || ('A' <= c && c <= 'F')
}

/// `char::to_ascii_uppercase`.
pub open spec fn upper_ascii(c: char) -> char {
    if 'a' <= c <= 'z' {
        ((c as u32) - 32) as char
    } else {
        c
    }
}

/// `char::to_ascii_lowercase`.
pub open spec fn lower_ascii(c: char) -> char {
    if 'A' <= c <= 'Z' {
        ((c as u32) + 32) as char
    } else {
        c
    }
}

pub fn upper_ascii_char(c: char) -> (r: char)
    ensures
        r == upper_ascii(c),
{
    if 'a' <= c && c <= 'z' {
        let b = (c as u8) - 32;
        b as char
    } else {
        c
    }
}

pub fn lower_ascii_char(c: char) -> (r: char)
    ensures
        r == lower_ascii(c),
{
    if 'A' <= c && c <= 'Z' {
        let b = (c as u8) + 32;
        b as char
    } else {
        c
    }
}

pub proof fn lemma_find_from_bound(s: Seq<char>, pat: Seq<char>, k: int)
    ensures
        find_from(s, pat, k) matches Some(j) ==> k <= j && j + pat.len() <= s.len()
            && s.subrange(j, j + pat.len()) == pat,
    decreases s.len() - k,
{
    if k < 0 || k + pat.len() > s.len() {
    } else if s.subrange(k, k + pat.len()) == pat {
    } else if k >= s.len() {
    } else {
        lemma_find_from_bound(s, pat, k + 1);
    }
}

/// No occurrence of `pat` at or after `k` means `find_from` finds none.
pub proof fn lemma_find_from_none(s: Seq<char>, pat: Seq<char>, k: int)
    requires
        0 <= k,
        forall|j: int|
            k <= j && j + pat.len() <= s.len() ==> #[trigger] s.subrange(j, j + pat.len()) != pat,
    ensures
        find_from(s, pat, k) is None,
    decreases s.len() - k,
{
    if k + pat.len() <= s.len() && k < s.len() {
        lemma_find_from_none(s, pat, k + 1);
    }
}

/// The first occurrence of `pat` at or after `k` is the one `find_from` finds.
pub proof fn lemma_find_from_at(s: Seq<char>, pat: Seq<char>, k: int, m: int)
    requires
        0 <= k <= m,
        m + pat.len() <= s.len(),
        s.subrange(m, m + pat.len()) == pat,
        forall|j: int| k <= j < m ==> #[trigger] s.subrange(j, j + pat.len()) != pat,
    ensures
        find_from(s, pat, k) == Some(m),
    decreases m - k,
{
    if k < m {
        lemma_find_from_at(s, pat, k + 1, m);
    }
}

/// `s` with every non-overlapping occurrence of `pat`, left to right, replaced by `rep`
/// (`str::replace` with a non-empty pattern).
pub open spec fn replace_all(s: Seq<char>, pat: Seq<char>, rep: Seq<char>) -> Seq<char>
    decreases s.len(),
{
    if pat.len() == 0 {
        s
    } else {
        match find_seq(s, pat) {
            None => s,
            Some(k) => {
                proof {
                    lemma_find_from_bound(s, pat, 0);
                }
                s.take(k) + rep + replace_all(s.skip(k + pat.len()), pat, rep)
            },
        }
    }
}

/// `s` with ASCII letters lower-cased (`str::to_ascii_lowercase`).
pub open spec fn lower_seq(s: Seq<char>) -> Seq<char> {
    s.map_values(|c: char| lower_ascii(c))
}

/// Appends `w[lo..hi]` to `out`.
pub fn extend_window(out: &mut Vec<char>, w: &Vec<char>, lo: usize, hi: usize)
    requires
        lo <= hi <= w.len(),
    ensures
        final(out)@ == old(out)@ + w@.subrange(lo as int, hi as int),
{
    let mut i = lo;
    while i < hi
        invariant
            lo <= i <= hi <= w.len(),
            out@ == old(out)@ + w@.subrange(lo as int, i as int),
        decreases hi - i,
    {
        out.push(w[i]);
        assert(w@.subrange(lo as int, i + 1) =~= w@.subrange(lo as int, i as int).push(w@[i as int]));
        i += 1;
    }
}

/// `replace_all` on a whole vector.
pub fn replace_all_vec(v: &Vec<char>, pat: &Vec<char>, rep: &Vec<char>) -> (r: Vec<char>)
    requires
        pat.len() > 0,
    ensures
        r@ == replace_all(v@, pat@, rep@),
{
    let mut out: Vec<char> = Vec::new();
    let mut i: usize = 0;
    let n = v.len();
    assert(v@.subrange(0, n as int) =~= v@);
    while i < n
        invariant
            0 <= i <= n == v.len(),
            pat.len() > 0,
            replace_all(v@, pat@, rep@) == out@ + replace_all(
                v@.subrange(i as int, n as int),
                pat@,
                rep@,
            ),
        decreases n - i,
    {
        let ghost t = v@.subrange(i as int, n as int);
        match find_in(v, i, n, pat) {
            None => {
                extend_window(&mut out, v, i, n);
                assert(replace_all(t, pat@, rep@) == t);
                assert(out@ + replace_all(v@.subrange(n as int, n as int), pat@, rep@) =~= out@) by {
                    assert(find_seq(v@.subrange(n as int, n as int), pat@) is None) by {
                        assert(find_from(v@.subrange(n as int, n as int), pat@, 0) is None);
                    }
                }
                i = n;
            },
            Some(k) => {
                proof {
                    lemma_find_from_bound(t, pat@, 0);
                }
                extend_window(&mut out, v, i, k);
                extend_window(&mut out, rep, 0, rep.len());
                assert(t.take(k - i) =~= v@.subrange(i as int, k as int));
                assert(rep@.subrange(0, rep.len() as int) =~= rep@);
                assert(t.skip(k - i + pat.len()) =~= v@.subrange(k + pat.len(), n as int));
                i = k + pat.len();
            },
        }
    }
    assert(replace_all(v@.subrange(n as int, n as int), pat@, rep@) =~= Seq::<char>::empty()) by {
        assert(find_from(v@.subrange(n as int, n as int), pat@, 0) is None);
    }
    assert(out@ + Seq::<char>::empty() =~= out@);
    out
}

/// `lower_seq` of a vector.
pub fn lower_vec(v: &Vec<char>) -> (r: Vec<char>)
    ensures
        r@ == lower_seq(v@),
{
    let mut r: Vec<char> = Vec::new();
    let mut i: usize = 0;
    while i < v.len()
        invariant
            0 <= i <= v.len(),
            r@ == lower_seq(v@.take(i as int)),
        decreases v.len() - i,
    {
        r.push(lower_ascii_char(v[i]));
        assert(lower_seq(v@.take(i + 1)) =~= lower_seq(v@.take(i as int)).push(lower_ascii(v@[i as int])));
        i += 1;
    }
    assert(v@.take(v.len() as int) =~= v@);
    r
}
} // verus!
