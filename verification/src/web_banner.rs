//! Summarising an HTTP response as a one-line banner: the page `<title>`, else the
//! `Server:` header, else the status line.
use vstd::prelude::*;
use crate::text::{
    chars_of, count_until, extend_window, find_in, find_seq, first_some, join, lemma_first_some_found,
    lemma_first_some_member, is_trimmed, lemma_trim, lemma_ws_tokens, lemma_join_trimmed,
    lemma_first_some_step, line_windows, lines, lower_ascii, lower_ascii_char, lower_seq,
    lower_vec, opt_view, piece_end, replace_all, replace_all_vec, slices, string_of, trim,
    trim_bounds, windows_within, word_windows, ws_tokens, lemma_find_from_none, lemma_find_from_at,
};

verus! {

/// Longest banner kept, in characters, so a verbose title cannot blow up the results table.
pub const MAX_BANNER_CHARS: usize = 120;

/// Stop reading a response after this many bytes; titles live near the top of a page.
pub const MAX_RESPONSE_BYTES: usize = 16384;

/// `t` cut to `MAX_BANNER_CHARS` characters, the last of them an ellipsis when cut.
pub open spec fn truncated(t: Seq<char>) -> Seq<char> {
    if t.len() <= 120 {
        t
    } else {
        t.take(119).push('…')
    }
}

/// Runs of white space collapsed to one space, and none at either end.
pub open spec fn collapsed(s: Seq<char>) -> Seq<char> {
    join(ws_tokens(s), seq![' '])
}

/// The HTML entities that titles commonly use, decoded one after the other.
pub open spec fn decoded(s: Seq<char>) -> Seq<char> {
    let s1 = replace_all(s, seq!['&', 'a', 'm', 'p', ';'], seq!['&']);
    let s2 = replace_all(s1, seq!['&', 'l', 't', ';'], seq!['<']);
    let s3 = replace_all(s2, seq!['&', 'g', 't', ';'], seq!['>']);
    let s4 = replace_all(s3, seq!['&', 'q', 'u', 'o', 't', ';'], seq!['"']);
    let s5 = replace_all(s4, seq!['&', '#', '3', '9', ';'], seq!['\'']);
    let s6 = replace_all(s5, seq!['&', 'a', 'p', 'o', 's', ';'], seq!['\'']);
    replace_all(s6, seq!['&', 'n', 'b', 's', 'p', ';'], seq![' '])
}

pub open spec fn title_open() -> Seq<char> {
    seq!['<', 't', 'i', 't', 'l', 'e']
}

pub open spec fn title_close() -> Seq<char> {
    seq!['<', '/', 't', 'i', 't', 'l', 'e', '>']
}

/// The text of the first `<title ...>...</title>` element (tag names in any case),
/// entity-decoded, with white space collapsed and cut to length; `None` when there is no
/// such element or its text is blank.
pub open spec fn html_title(html: Seq<char>) -> Option<Seq<char>> {
    let lower = lower_seq(html);
    match find_seq(lower, title_open()) {
        None => None,
        Some(ts) => match find_seq(lower.skip(ts), seq!['>']) {
            None => None,
            Some(g) => {
                let cs = ts + g + 1;
                match find_seq(lower.skip(cs), title_close()) {
                    None => None,
                    Some(n) => {
                        let t = collapsed(decoded(html.subrange(cs, cs + n)));
                        if t.len() == 0 {
                            None
                        } else {
                            Some(truncated(t))
                        }
                    },
                }
            },
        },
    }
}

pub open spec fn blank_line_pair() -> Seq<char> {
    seq!['\r', '\n', '\r', '\n']
}

/// The header block: everything before the first blank line (`\r\n\r\n`).
pub open spec fn header_block(r: Seq<char>) -> Seq<char> {
    match find_seq(r, blank_line_pair()) {
        Some(k) => r.take(k),
        None => r,
    }
}

/// `a` and `b` agree up to ASCII case (`str::eq_ignore_ascii_case`).
pub open spec fn eq_ignore_ascii_case(a: Seq<char>, b: Seq<char>) -> bool {
    a.len() == b.len() && forall|i: int| 0 <= i < a.len() ==> lower_ascii(#[trigger] a[i])
        == lower_ascii(b[i])
}

pub open spec fn server_word() -> Seq<char> {
    seq!['s', 'e', 'r', 'v', 'e', 'r']
}

pub open spec fn server_prefix() -> Seq<char> {
    seq!['S', 'e', 'r', 'v', 'e', 'r', ':', ' ']
}

/// `Server: <value>` for a header line `server: <value>` (name in any case, value not blank).
pub open spec fn server_line(line: Seq<char>) -> Option<Seq<char>> {
    let n = count_until(line, ':');
    if n >= line.len() {
        None
    } else {
        let name = trim(line.take(n as int));
        let value = trim(line.skip(n + 1 as int));
        if eq_ignore_ascii_case(name, server_word()) && value.len() > 0 {
            Some(truncated(server_prefix() + value))
        } else {
            None
        }
    }
}

/// The first `Server:` header of the header block.
pub open spec fn server_header(r: Seq<char>) -> Option<Seq<char>> {
    first_some(lines(header_block(r)).map_values(|l: Seq<char>| server_line(l)))
}

pub open spec fn http_prefix() -> Seq<char> {
    seq!['H', 'T', 'T', 'P', '/']
}

/// `301 Moved Permanently` for a first line `HTTP/1.1 301 Moved Permanently`.
pub open spec fn status_line(r: Seq<char>) -> Option<Seq<char>> {
    let ls = lines(r);
    if ls.len() == 0 {
        None
    } else {
        let first = trim(ls[0]);
        if first.len() < 5 || first.take(5) != http_prefix() {
            None
        } else {
            let n = count_until(first, ' ');
            if n >= first.len() {
                None
            } else {
                let status = trim(first.skip(n + 1 as int));
                if status.len() == 0 {
                    None
                } else {
                    Some(truncated(status))
                }
            }
        }
    }
}

/// Title, else `Server:` header, else status line.
pub open spec fn banner(r: Seq<char>) -> Option<Seq<char>> {
    match html_title(r) {
        Some(t) => Some(t),
        None => match server_header(r) {
            Some(s) => Some(s),
            None => status_line(r),
        },
    }
}

/// The bytes hold `</title>` in any ASCII case.
pub open spec fn has_title_close(bytes: Seq<u8>) -> bool {
    exists|k: int| 0 <= k && k + 8 <= bytes.len() && #[trigger] title_close_at(bytes, k)
}

/// `</title>`, in any ASCII case, starts at byte `k`.
pub open spec fn title_close_at(bytes: Seq<u8>, k: int) -> bool {
    forall|j: int| 0 <= j < 8 ==> lower_byte(#[trigger] bytes[k + j]) == title_close_byte(j)
}

pub open spec fn lower_byte(b: u8) -> u8 {
    if 65 <= b <= 90 {
        (b + 32) as u8
    } else {
        b
    }
}

pub open spec fn title_close_byte(j: int) -> u8 {
    title_close()[j] as u8
}

fn title_close_bytes() -> (r: Vec<u8>)
    ensures
        r.len() == 8,
        forall|j: int| 0 <= j < 8 ==> r@[j] == title_close_byte(j),
{
    let r: Vec<u8> = vec![60, 47, 116, 105, 116, 108, 101, 62];
    assert forall|j: int| 0 <= j < 8 implies r@[j] == title_close_byte(j) by {
        assert(title_close() =~= seq!['<', '/', 't', 'i', 't', 'l', 'e', '>']);
    }
    r
}

/// The response read so far already holds a complete title.
///
/// The bytes are searched directly: lossy UTF-8 decoding keeps every ASCII byte as the
/// same character in the same order, so `</title>` appears in the decoded text exactly
/// when its bytes appear here.
pub fn has_complete_title(response: &[u8]) -> (r: bool)
    ensures
        r == has_title_close(response@),
{
    let close = title_close_bytes();
    let n = response.len();
    if n < 8 {
        return false;
    }
    let mut k: usize = 0;
    while k <= n - 8
        invariant
            n == response.len(),
            8 <= n,
            k <= n - 7,
            close.len() == 8,
            forall|j: int| 0 <= j < 8 ==> close@[j] == title_close_byte(j),
            forall|m: int| 0 <= m < k ==> !#[trigger] title_close_at(response@, m),
        decreases n - k,
    {
        let mut j: usize = 0;
        let mut ok = true;
        while j < 8
            invariant
                0 <= j <= 8,
                k + 8 <= n == response.len(),
                close.len() == 8,
                forall|i: int| 0 <= i < 8 ==> close@[i] == title_close_byte(i),
                ok == forall|i: int|
                    0 <= i < j ==> lower_byte(#[trigger] response@[k + i]) == title_close_byte(i),
            decreases 8 - j,
        {
            let b = response[k + j];
            let lb = if 65 <= b && b <= 90 {
                b + 32
            } else {
                b
            };
            if lb != close[j] {
                ok = false;
            }
            j += 1;
        }
        if ok {
            assert(title_close_at(response@, k as int));
            return true;
        }
        k += 1;
    }
    false
}

/// `truncated` of a vector, as a `String`.
fn truncate_vec(t: &Vec<char>) -> (r: String)
    ensures
        r@ == truncated(t@),
{
    if t.len() <= MAX_BANNER_CHARS {
        string_of(t, 0, t.len())
    } else {
        let mut s = string_of(t, 0, MAX_BANNER_CHARS - 1);
        crate::text::push_char(&mut s, '…');
        assert(t@.subrange(0, 119) =~= t@.take(119));
        s
    }
}

/// `collapsed` of `v[lo..hi]`.
fn collapse_window(v: &Vec<char>, lo: usize, hi: usize) -> (r: Vec<char>)
    requires
        lo <= hi <= v.len(),
    ensures
        r@ == collapsed(v@.subrange(lo as int, hi as int)),
{
    let words = word_windows(v, lo, hi);
    let ghost ws = ws_tokens(v@.subrange(lo as int, hi as int));
    let mut out: Vec<char> = Vec::new();
    let mut i: usize = 0;
    while i < words.len()
        invariant
            0 <= i <= words.len(),
            lo <= hi <= v.len(),
            slices(v@, words@) == ws,
            windows_within(words@, lo as int, hi as int),
            out@ == join(ws.take(i as int), seq![' ']),
        decreases words.len() - i,
    {
        let (a, b) = words[i];
        assert(ws[i as int] == v@.subrange(a as int, b as int));
        let ghost before = out@;
        if i > 0 {
            out.push(' ');
        }
        extend_window(&mut out, v, a, b);
        assert(ws.take(i + 1).drop_last() =~= ws.take(i as int));
        if i == 0 {
            assert(ws.take(1) =~= seq![ws[0]]);
            assert(out@ =~= join(ws.take(1), seq![' ']));
        } else {
            assert(out@ =~= join(ws.take(i as int), seq![' ']) + seq![' '] + ws.take(i + 1).last());
        }
        i += 1;
    }
    assert(ws.take(words.len() as int) =~= ws);
    out
}

/// `decoded` of a vector.
fn decode_vec(v: &Vec<char>) -> (r: Vec<char>)
    ensures
        r@ == decoded(v@),
{
    let p1 = vec!['&', 'a', 'm', 'p', ';'];
    let r1 = vec!['&'];
    let s1 = replace_all_vec(v, &p1, &r1);
    let p2 = vec!['&', 'l', 't', ';'];
    let r2 = vec!['<'];
    let s2 = replace_all_vec(&s1, &p2, &r2);
    let p3 = vec!['&', 'g', 't', ';'];
    let r3 = vec!['>'];
    let s3 = replace_all_vec(&s2, &p3, &r3);
    let p4 = vec!['&', 'q', 'u', 'o', 't', ';'];
    let r4 = vec!['"'];
    let s4 = replace_all_vec(&s3, &p4, &r4);
    let p5 = vec!['&', '#', '3', '9', ';'];
    let r5 = vec!['\''];
    let s5 = replace_all_vec(&s4, &p5, &r5);
    let p6 = vec!['&', 'a', 'p', 'o', 's', ';'];
    let r6 = vec!['\''];
    let s6 = replace_all_vec(&s5, &p6, &r6);
    let p7 = vec!['&', 'n', 'b', 's', 'p', ';'];
    let r7 = vec![' '];
    let s7 = replace_all_vec(&s6, &p7, &r7);
    assert(p1@ =~= seq!['&', 'a', 'm', 'p', ';'] && r1@ =~= seq!['&']);
    assert(p2@ =~= seq!['&', 'l', 't', ';'] && r2@ =~= seq!['<']);
    assert(p3@ =~= seq!['&', 'g', 't', ';'] && r3@ =~= seq!['>']);
    assert(p4@ =~= seq!['&', 'q', 'u', 'o', 't', ';'] && r4@ =~= seq!['"']);
    assert(p5@ =~= seq!['&', '#', '3', '9', ';'] && r5@ =~= seq!['\'']);
    assert(p6@ =~= seq!['&', 'a', 'p', 'o', 's', ';'] && r6@ =~= seq!['\'']);
    assert(p7@ =~= seq!['&', 'n', 'b', 's', 'p', ';'] && r7@ =~= seq![' ']);
    s7
}

fn title_in(v: &Vec<char>) -> (r: Option<String>)
    ensures
        opt_view(r) == html_title(v@),
{
    let lower = lower_vec(v);
    let n = lower.len();
    let open = vec!['<', 't', 'i', 't', 'l', 'e'];
    let close = vec!['<', '/', 't', 'i', 't', 'l', 'e', '>'];
    let gt = vec!['>'];
    assert(open@ =~= title_open());
    assert(close@ =~= title_close());
    assert(gt@ =~= seq!['>']);
    assert(lower@.subrange(0, n as int) =~= lower@);
    let ts = match find_in(&lower, 0, n, &open) {
        None => return None,
        Some(ts) => ts,
    };
    assert(lower@.skip(ts as int) =~= lower@.subrange(ts as int, n as int));
    let g = match find_in(&lower, ts, n, &gt) {
        None => return None,
        Some(g) => g,
    };
    let cs = g + 1;
    assert(lower@.skip(cs as int) =~= lower@.subrange(cs as int, n as int));
    let ce = match find_in(&lower, cs, n, &close) {
        None => return None,
        Some(ce) => ce,
    };
    let decoded_text = {
        let mut content: Vec<char> = Vec::new();
        extend_window(&mut content, v, cs, ce);
        decode_vec(&content)
    };
    let t = collapse_window(&decoded_text, 0, decoded_text.len());
    assert(decoded_text@.subrange(0, decoded_text.len() as int) =~= decoded_text@);
    if t.len() == 0 {
        None
    } else {
        Some(truncate_vec(&t))
    }
}

/// `eq_ignore_ascii_case(v[lo..hi], w)`.
fn eq_ignore_case_window(v: &Vec<char>, lo: usize, hi: usize, w: &Vec<char>) -> (r: bool)
    requires
        lo <= hi <= v.len(),
    ensures
        r == eq_ignore_ascii_case(v@.subrange(lo as int, hi as int), w@),
{
    let ghost s = v@.subrange(lo as int, hi as int);
    if hi - lo != w.len() {
        return false;
    }
    let mut i: usize = 0;
    while i < w.len()
        invariant
            0 <= i <= w.len(),
            lo + w.len() == hi <= v.len(),
            s == v@.subrange(lo as int, hi as int),
            forall|j: int| 0 <= j < i ==> lower_ascii(#[trigger] s[j]) == lower_ascii(w@[j]),
        decreases w.len() - i,
    {
        assert(s[i as int] == v@[lo + i]);
        if lower_ascii_char(v[lo + i]) != lower_ascii_char(w[i]) {
            return false;
        }
        i += 1;
    }
    true
}

fn server_line_in(v: &Vec<char>, a: usize, b: usize) -> (r: Option<String>)
    requires
        a <= b <= v.len(),
    ensures
        opt_view(r) == server_line(v@.subrange(a as int, b as int)),
{
    let ghost line = v@.subrange(a as int, b as int);
    let e = piece_end(v, a, b, ':');
    if e == b {
        return None;
    }
    assert(line.take(e - a) =~= v@.subrange(a as int, e as int));
    assert(line.skip(e - a + 1) =~= v@.subrange(e + 1, b as int));
    let (na, nb) = trim_bounds(v, a, e);
    let (va, vb) = trim_bounds(v, e + 1, b);
    let word = vec!['s', 'e', 'r', 'v', 'e', 'r'];
    assert(word@ =~= server_word());
    if !eq_ignore_case_window(v, na, nb, &word) {
        return None;
    }
    if va == vb {
        return None;
    }
    let mut out: Vec<char> = vec!['S', 'e', 'r', 'v', 'e', 'r', ':', ' '];
    assert(out@ =~= server_prefix());
    extend_window(&mut out, v, va, vb);
    Some(truncate_vec(&out))
}

fn server_header_in(v: &Vec<char>) -> (r: Option<String>)
    ensures
        opt_view(r) == server_header(v@),
{
    let n = v.len();
    let blank = vec!['\r', '\n', '\r', '\n'];
    assert(blank@ =~= blank_line_pair());
    assert(v@.subrange(0, n as int) =~= v@);
    let end = match find_in(v, 0, n, &blank) {
        Some(k) => k,
        None => n,
    };
    assert(header_block(v@) =~= v@.subrange(0, end as int));
    let ls = line_windows(v, 0, end);
    let ghost ms = lines(header_block(v@)).map_values(|l: Seq<char>| server_line(l));
    let mut i: usize = 0;
    while i < ls.len()
        invariant
            0 <= i <= ls.len(),
            end <= n == v.len(),
            slices(v@, ls@) == lines(header_block(v@)),
            windows_within(ls@, 0, end as int),
            ms == lines(header_block(v@)).map_values(|l: Seq<char>| server_line(l)),
            first_some(ms.take(i as int)) is None,
        decreases ls.len() - i,
    {
        let (a, b) = ls[i];
        let res = server_line_in(v, a, b);
        assert(ms[i as int] == opt_view(res));
        proof {
            lemma_first_some_step(ms, i as int);
        }
        if res.is_some() {
            proof {
                lemma_first_some_found(ms, i as int);
            }
            return res;
        }
        i += 1;
    }
    assert(ms.take(i as int) =~= ms);
    None
}

fn status_line_in(v: &Vec<char>) -> (r: Option<String>)
    ensures
        opt_view(r) == status_line(v@),
{
    let n = v.len();
    assert(v@.subrange(0, n as int) =~= v@);
    let ls = line_windows(v, 0, n);
    if ls.len() == 0 {
        return None;
    }
    let (a, b) = ls[0];
    let (fa, fb) = trim_bounds(v, a, b);
    let ghost first = v@.subrange(fa as int, fb as int);
    if fb - fa < 5 {
        return None;
    }
    let http = vec!['H', 'T', 'T', 'P', '/'];
    assert(http@ =~= http_prefix());
    assert(first.take(5) =~= v@.subrange(fa as int, fa + 5));
    if !crate::text::window_eq(v, fa, fa + 5, &http) {
        return None;
    }
    let e = piece_end(v, fa, fb, ' ');
    if e == fb {
        return None;
    }
    assert(first.skip(e - fa + 1) =~= v@.subrange(e + 1, fb as int));
    let (sa, sb) = trim_bounds(v, e + 1, fb);
    if sa == sb {
        return None;
    }
    let mut out: Vec<char> = Vec::new();
    extend_window(&mut out, v, sa, sb);
    Some(truncate_vec(&out))
}

/// Summarise a raw HTTP response: `<title>` text, else the `Server:` header, else the
/// status line.
pub fn extract_banner(response: &str) -> (r: Option<String>)
    ensures
        opt_view(r) == banner(response@),
{
    let v = chars_of(response);
    match title_in(&v) {
        Some(t) => Some(t),
        None => match server_header_in(&v) {
            Some(s) => Some(s),
            None => status_line_in(&v),
        },
    }
}

/// The text of the first `<title>` element, decoded, collapsed and cut to length.
pub fn extract_title(html: &str) -> (r: Option<String>)
    ensures
        opt_view(r) == html_title(html@),
{
    title_in(&chars_of(html))
}

/// The first `Server:` header before the body, as `Server: <value>`.
pub fn extract_server_header(response: &str) -> (r: Option<String>)
    ensures
        opt_view(r) == server_header(response@),
{
    server_header_in(&chars_of(response))
}

/// The status of the first line, e.g. `301 Moved Permanently` for
/// `HTTP/1.1 301 Moved Permanently`.
pub fn extract_status_line(response: &str) -> (r: Option<String>)
    ensures
        opt_view(r) == status_line(response@),
{
    status_line_in(&chars_of(response))
}

/// Decode the HTML entities that titles commonly use.
pub fn decode_entities(text: &str) -> (r: String)
    ensures
        r@ == decoded(text@),
{
    let d = decode_vec(&chars_of(text));
    string_of(&d, 0, d.len())
}

/// Collapse runs of white space to one space and drop it at either end.
pub fn collapse_whitespace(text: &str) -> (r: String)
    ensures
        r@ == collapsed(text@),
{
    let v = chars_of(text);
    assert(v@.subrange(0, v.len() as int) =~= text@);
    let c = collapse_window(&v, 0, v.len());
    string_of(&c, 0, c.len())
}

/// Cut a banner to `MAX_BANNER_CHARS` characters, ending it with an ellipsis when cut.
pub fn truncate(text: &str) -> (r: String)
    ensures
        r@ == truncated(text@),
{
    truncate_vec(&chars_of(text))
}

proof fn lemma_truncated_bounds(t: Seq<char>)
    ensures
        truncated(t).len() <= 120,
        t.len() > 0 ==> truncated(t).len() > 0,
{
}

/// A response's banner is never empty and never longer than `MAX_BANNER_CHARS`
/// characters, whichever of the title, the `Server:` header or the status line it is.
pub proof fn banner_is_bounded(response: Seq<char>)
    ensures
        banner(response) matches Some(b) ==> 0 < b.len() <= MAX_BANNER_CHARS,
{
    let lower = lower_seq(response);
    match html_title(response) {
        Some(t) => {
            let ts = find_seq(lower, title_open()).unwrap();
            let g = find_seq(lower.skip(ts), seq!['>']).unwrap();
            let cs = ts + g + 1;
            let n = find_seq(lower.skip(cs), title_close()).unwrap();
            lemma_truncated_bounds(collapsed(decoded(response.subrange(cs, cs + n))));
        },
        None => {
            let lines_seq = lines(header_block(response));
            let ms = lines_seq.map_values(|l: Seq<char>| server_line(l));
            lemma_first_some_member(ms);
            if server_header(response) is Some {
                let i = choose|i: int| 0 <= i < ms.len() && ms[i] == first_some(ms);
                let line = lines_seq[i];
                let k = count_until(line, ':');
                lemma_truncated_bounds(server_prefix() + trim(line.skip(k + 1 as int)));
            } else {
                let ls = lines(response);
                if ls.len() > 0 {
                    let first = trim(ls[0]);
                    let k = count_until(first, ' ');
                    lemma_truncated_bounds(trim(first.skip(k + 1 as int)));
                }
            }
        },
    }
}

proof fn lemma_truncated_trimmed(t: Seq<char>)
    requires
        is_trimmed(t),
    ensures
        is_trimmed(truncated(t)),
{
    if t.len() > 120 {
        let u = t.take(119).push('…');
        assert(u[0] == t[0]);
        assert(u.last() == '…');
        assert(('…' as u32) == 0x2026);
    }
}

/// A banner has no white space at either end: it equals its trimmed form.
pub proof fn banner_is_trimmed(response: Seq<char>)
    ensures
        banner(response) matches Some(b) ==> trim(b) == b,
{
    let lower = lower_seq(response);
    match html_title(response) {
        Some(t) => {
            let ts = find_seq(lower, title_open()).unwrap();
            let g = find_seq(lower.skip(ts), seq!['>']).unwrap();
            let cs = ts + g + 1;
            let n = find_seq(lower.skip(cs), title_close()).unwrap();
            let d = decoded(response.subrange(cs, cs + n));
            lemma_ws_tokens(d);
            lemma_join_trimmed(ws_tokens(d));
            lemma_truncated_trimmed(collapsed(d));
            lemma_trim(t);
        },
        None => {
            let lines_seq = lines(header_block(response));
            let ms = lines_seq.map_values(|l: Seq<char>| server_line(l));
            lemma_first_some_member(ms);
            if server_header(response) is Some {
                let i = choose|i: int| 0 <= i < ms.len() && ms[i] == first_some(ms);
                let line = lines_seq[i];
                let k = count_until(line, ':');
                let v = trim(line.skip(k + 1 as int));
                lemma_trim(line.skip(k + 1 as int));
                let x = server_prefix() + v;
                assert(x[0] == 'S');
                assert(x.last() == v.last());
                lemma_truncated_trimmed(x);
                lemma_trim(truncated(x));
            } else {
                let ls = lines(response);
                if ls.len() > 0 {
                    let first = trim(ls[0]);
                    let k = count_until(first, ' ');
                    let st = trim(first.skip(k + 1 as int));
                    lemma_trim(first.skip(k + 1 as int));
                    lemma_truncated_trimmed(st);
                    lemma_trim(truncated(st));
                }
            }
        },
    }
}

/// No `c` in `s`.
pub open spec fn free_of(s: Seq<char>, c: char) -> bool {
    forall|i: int| 0 <= i < s.len() ==> #[trigger] s[i] != c
}

/// Replacing a pattern that starts with `&` leaves text without `&` as it is.
proof fn lemma_replace_none(z: Seq<char>, p: Seq<char>, rep: Seq<char>)
    requires
        free_of(z, '&'),
        p.len() >= 1,
        p[0] == '&',
    ensures
        replace_all(z, p, rep) == z,
{
    assert forall|j: int| 0 <= j && j + p.len() <= z.len() implies #[trigger] z.subrange(j, j + p.len()) != p by {
        assert(z.subrange(j, j + p.len())[0] == z[j]);
    }
    lemma_find_from_none(z, p, 0);
}

/// Text `x + e + y` with one `&` (at the start of `e`) holds no other pattern `p` that
/// starts with `&` and differs from `e` at position `d`.
proof fn lemma_replace_other(x: Seq<char>, e: Seq<char>, y: Seq<char>, p: Seq<char>, rep: Seq<char>, d: int)
    requires
        free_of(x, '&'),
        free_of(y, '&'),
        e.len() >= 1,
        free_of(e.drop_first(), '&'),
        p.len() >= 1,
        p[0] == '&',
        0 <= d < e.len(),
        d < p.len(),
        e[d] != p[d],
    ensures
        replace_all(x + e + y, p, rep) == x + e + y,
{
    let z = x + e + y;
    assert forall|j: int| 0 <= j && j + p.len() <= z.len() implies #[trigger] z.subrange(j, j + p.len()) != p by {
        let w = z.subrange(j, j + p.len());
        if j == x.len() {
            assert(w[d] == e[d]);
        } else {
            assert(w[0] == z[j]);
            if j < x.len() {
                assert(z[j] == x[j]);
            } else if j < x.len() + e.len() {
                assert(z[j] == e.drop_first()[j - x.len() - 1]);
            } else {
                assert(z[j] == y[j - x.len() - e.len()]);
            }
        }
    }
    lemma_find_from_none(z, p, 0);
}

/// In `x + e + y`, with the only `&` at the start of `e`, the entity `e` is replaced.
proof fn lemma_replace_entity(x: Seq<char>, e: Seq<char>, y: Seq<char>, rep: Seq<char>)
    requires
        free_of(x, '&'),
        free_of(y, '&'),
        e.len() >= 1,
        e[0] == '&',
    ensures
        replace_all(x + e + y, e, rep) == x + rep + y,
{
    let z = x + e + y;
    let m = x.len() as int;
    assert(z.subrange(m, m + e.len()) =~= e);
    assert forall|j: int| 0 <= j < m implies #[trigger] z.subrange(j, j + e.len()) != e by {
        assert(z.subrange(j, j + e.len())[0] == x[j]);
    }
    lemma_find_from_at(z, e, 0, m);
    assert(z.take(m) =~= x);
    assert(z.skip(m + e.len()) =~= y);
    lemma_replace_none(y, e, rep);
}

/// After `&amp;` became `&`, no later pattern (each `&...;`) occurs when `y` holds no `;`.
proof fn lemma_replace_after_amp(x: Seq<char>, y: Seq<char>, p: Seq<char>, rep: Seq<char>)
    requires
        free_of(x, '&'),
        free_of(y, '&'),
        free_of(y, ';'),
        p.len() >= 2,
        p[0] == '&',
        p[p.len() - 1] == ';',
    ensures
        replace_all(x + seq!['&'] + y, p, rep) == x + seq!['&'] + y,
{
    let z = x + seq!['&'] + y;
    assert forall|j: int| 0 <= j && j + p.len() <= z.len() implies #[trigger] z.subrange(j, j + p.len()) != p by {
        let w = z.subrange(j, j + p.len());
        if j == x.len() {
            assert(w[p.len() - 1] == y[p.len() - 2]);
        } else {
            assert(w[0] == z[j]);
            if j < x.len() {
                assert(z[j] == x[j]);
            } else {
                assert(z[j] == y[j - x.len() - 1]);
            }
        }
    }
    lemma_find_from_none(z, p, 0);
}

/// One decoding step on `x + e + y` or, once `e` is replaced, on `x + c + y`.
proof fn lemma_entity_step(
    x: Seq<char>,
    y: Seq<char>,
    e: Seq<char>,
    c: Seq<char>,
    p: Seq<char>,
    rep: Seq<char>,
)
    requires
        free_of(x, '&'),
        free_of(y, '&'),
        e.len() >= 3,
        e[0] == '&',
        free_of(e.drop_first(), '&'),
        p.len() >= 3,
        p[0] == '&',
        p == e ==> rep == c,
        p != e ==> (e[1] != p[1] || e[2] != p[2]),
        c.len() == 1,
        c[0] != '&',
    ensures
        replace_all(x + e + y, p, rep) == if p == e {
            x + c + y
        } else {
            x + e + y
        },
        replace_all(x + c + y, p, rep) == x + c + y,
{
    if p == e {
        lemma_replace_entity(x, e, y, rep);
    } else if e[1] != p[1] {
        lemma_replace_other(x, e, y, p, rep, 1);
    } else {
        lemma_replace_other(x, e, y, p, rep, 2);
    }
    let z = x + c + y;
    assert(free_of(z, '&')) by {
        assert forall|i: int| 0 <= i < z.len() implies #[trigger] z[i] != '&' by {
            if i < x.len() {
                assert(z[i] == x[i]);
            } else if i == x.len() {
                assert(z[i] == c[0]);
            } else {
                assert(z[i] == y[i - x.len() - 1]);
            }
        }
    }
    lemma_replace_none(z, p, rep);
}

/// Decoding text with exactly one entity `e` (not `&amp;`), between texts without `&`.
proof fn entity_step(x: Seq<char>, y: Seq<char>, e: Seq<char>, c: Seq<char>, idx: int)
    requires
        free_of(x, '&'),
        free_of(y, '&'),
        1 <= idx <= 6,
        e == seq![
            seq!['&', 'a', 'm', 'p', ';'],
            seq!['&', 'l', 't', ';'],
            seq!['&', 'g', 't', ';'],
            seq!['&', 'q', 'u', 'o', 't', ';'],
            seq!['&', '#', '3', '9', ';'],
            seq!['&', 'a', 'p', 'o', 's', ';'],
            seq!['&', 'n', 'b', 's', 'p', ';'],
        ][idx],
        c == seq![seq!['&'], seq!['<'], seq!['>'], seq!['"'], seq!['\''], seq!['\''], seq![' ']][idx],
    ensures
        decoded(x + e + y) == x + c + y,
{
    let amp = seq!['&', 'a', 'm', 'p', ';'];
    let lt = seq!['&', 'l', 't', ';'];
    let gt = seq!['&', 'g', 't', ';'];
    let quot = seq!['&', 'q', 'u', 'o', 't', ';'];
    let n39 = seq!['&', '#', '3', '9', ';'];
    let apos = seq!['&', 'a', 'p', 'o', 's', ';'];
    let nbsp = seq!['&', 'n', 'b', 's', 'p', ';'];
    assert(free_of(e.drop_first(), '&'));
    assert(c.len() == 1 && c[0] != '&');
    lemma_entity_step(x, y, e, c, amp, seq!['&']);
    lemma_entity_step(x, y, e, c, lt, seq!['<']);
    lemma_entity_step(x, y, e, c, gt, seq!['>']);
    lemma_entity_step(x, y, e, c, quot, seq!['"']);
    lemma_entity_step(x, y, e, c, n39, seq!['\'']);
    lemma_entity_step(x, y, e, c, apos, seq!['\'']);
    lemma_entity_step(x, y, e, c, nbsp, seq![' ']);
}

/// Entity decoding: text without `&` stays as it is, and each entity that titles commonly
/// use, written once between such texts, becomes its character: `&lt;` `<`, `&gt;` `>`,
/// `&quot;` `"`, `&#39;` and `&apos;` `'`, `&nbsp;` a space, and `&amp;` `&` (when the text
/// after it holds no `;`, so that no new entity forms).
pub proof fn entities_decode(x: Seq<char>, y: Seq<char>)
    requires
        free_of(x, '&'),
        free_of(y, '&'),
    ensures
        decoded(x) == x,
        decoded(x + seq!['&', 'l', 't', ';'] + y) == x + seq!['<'] + y,
        decoded(x + seq!['&', 'g', 't', ';'] + y) == x + seq!['>'] + y,
        decoded(x + seq!['&', 'q', 'u', 'o', 't', ';'] + y) == x + seq!['"'] + y,
        decoded(x + seq!['&', '#', '3', '9', ';'] + y) == x + seq!['\''] + y,
        decoded(x + seq!['&', 'a', 'p', 'o', 's', ';'] + y) == x + seq!['\''] + y,
        decoded(x + seq!['&', 'n', 'b', 's', 'p', ';'] + y) == x + seq![' '] + y,
        free_of(y, ';') ==> decoded(x + seq!['&', 'a', 'm', 'p', ';'] + y) == x + seq!['&'] + y,
{
    let amp = seq!['&', 'a', 'm', 'p', ';'];
    let lt = seq!['&', 'l', 't', ';'];
    let gt = seq!['&', 'g', 't', ';'];
    let quot = seq!['&', 'q', 'u', 'o', 't', ';'];
    let n39 = seq!['&', '#', '3', '9', ';'];
    let apos = seq!['&', 'a', 'p', 'o', 's', ';'];
    let nbsp = seq!['&', 'n', 'b', 's', 'p', ';'];
    let pats = seq![amp, lt, gt, quot, n39, apos, nbsp];
    // text without `&`
    lemma_replace_none(x, amp, seq!['&']);
    lemma_replace_none(x, lt, seq!['<']);
    lemma_replace_none(x, gt, seq!['>']);
    lemma_replace_none(x, quot, seq!['"']);
    lemma_replace_none(x, n39, seq!['\'']);
    lemma_replace_none(x, apos, seq!['\'']);
    lemma_replace_none(x, nbsp, seq![' ']);
    // each entity but `&amp;`: others leave it, its own step replaces it, the rest find no `&`
    entity_step(x, y, lt, seq!['<'], 1);
    entity_step(x, y, gt, seq!['>'], 2);
    entity_step(x, y, quot, seq!['"'], 3);
    entity_step(x, y, n39, seq!['\''], 4);
    entity_step(x, y, apos, seq!['\''], 5);
    entity_step(x, y, nbsp, seq![' '], 6);
    if free_of(y, ';') {
        lemma_replace_entity(x, amp, y, seq!['&']);
        lemma_replace_after_amp(x, y, lt, seq!['<']);
        lemma_replace_after_amp(x, y, gt, seq!['>']);
        lemma_replace_after_amp(x, y, quot, seq!['"']);
        lemma_replace_after_amp(x, y, n39, seq!['\'']);
        lemma_replace_after_amp(x, y, apos, seq!['\'']);
        lemma_replace_after_amp(x, y, nbsp, seq![' ']);
    }
}

} // verus!
