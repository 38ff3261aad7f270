//! Text safety for exported results.
use vstd::prelude::*;
use crate::text::{chars_of, push_char, string_of};

verus! {

/// A cell that a spreadsheet would read as a formula or a control sequence.
pub open spec fn starts_like_formula(s: Seq<char>) -> bool {
    s.len() > 0 && (s[0] == '=' || s[0] == '+' || s[0] == '-' || s[0] == '@' || s[0] == '\t'
        || s[0] == '\r')
}

/// Make a remote-supplied string safe to open in a spreadsheet.
///
/// A scanned host controls its reverse-DNS name and HTML title, so it could return
/// `=HYPERLINK(...)` or `+cmd|...` and have Excel or LibreOffice evaluate it when the CSV is
/// opened. Prefixing such cells with a single quote makes spreadsheets treat them as plain
/// text.
pub fn csv_text(value: &str) -> (r: String)
    ensures
        starts_like_formula(value@) ==> r@ == seq!['\''] + value@,
        !starts_like_formula(value@) ==> r@ == value@,
{
    let v = chars_of(value);
    let mut out = String::new();
    if v.len() > 0 && (v[0] == '=' || v[0] == '+' || v[0] == '-' || v[0] == '@' || v[0] == '\t'
        || v[0] == '\r') {
        push_char(&mut out, '\'');
    }
    crate::text::push_window(&mut out, &v, 0, v.len());
    assert(v@.subrange(0, v.len() as int) =~= value@);
    assert(seq!['\''] + value@ =~= Seq::<char>::empty().push('\'') + value@);
    out
}

} // verus!
