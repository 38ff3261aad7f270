//! Device vendor from the OUI (first three octets) of a MAC address.
use vstd::prelude::*;
use vstd::utf8::{encode_utf8, is_char_boundary, is_continuation_byte};
use vstd::string::StringSliceAdditionalSpecFns;
use crate::text::{chars_of, push_char, upper_ascii};

verus! {

/// The upper-case form of a string (std's `str::to_uppercase`), which follows Unicode's
/// case mapping and so may change the length of the text.
pub uninterp spec fn unicode_upper(s: Seq<char>) -> Seq<char>;

/// All characters are ASCII.
pub open spec fn all_ascii(s: Seq<char>) -> bool {
    forall|i: int| 0 <= i < s.len() ==> (#[trigger] s[i] as u32) < 128
}

/// Calls `str::to_uppercase`. The contract names the result; of ASCII text it states
/// that letters `a`-`z` become `A`-`Z` and everything else stays.
#[verifier::external_body]
fn to_uppercase(s: &str) -> (r: String)
    ensures
        r@ == unicode_upper(s@),
        all_ascii(s@) ==> r@ == s@.map_values(|c: char| crate::text::upper_ascii(c)),
{
    s.to_uppercase()
}

pub open spec fn is_mac_separator(c: char) -> bool {
    c == ':' || c == '-' || c == '.'
}

/// `s` without `:`, `-` and `.`.
pub open spec fn without_separators(s: Seq<char>) -> Seq<char>
    decreases s.len(),
{
    if s.len() == 0 {
        s
    } else if is_mac_separator(s.last()) {
        without_separators(s.drop_last())
    } else {
        without_separators(s.drop_last()).push(s.last())
    }
}

/// The upper-case form of a text as `str::to_uppercase` gives it: on ASCII text each
/// letter `a`-`z` becomes `A`-`Z` and everything else stays; other text follows Unicode's
/// mapping.
pub open spec fn upper_text(s: Seq<char>) -> Seq<char> {
    if all_ascii(s) {
        s.map_values(|c: char| upper_ascii(c))
    } else {
        unicode_upper(s)
    }
}

/// The UTF-8 bytes of the upper-cased, separator-free address, from which the six-byte
/// OUI prefix is read.
pub open spec fn vendor_key_bytes(mac: Seq<char>) -> Seq<u8> {
    encode_utf8(upper_text(without_separators(mac)))
}

/// The lookup key of an ASCII address: separators removed, letters upper-cased.
pub open spec fn ascii_key(mac: Seq<char>) -> Seq<char> {
    without_separators(mac).map_values(|c: char| upper_ascii(c))
}

/// The vendor named by the first six characters of an ASCII key, read as a hex OUI;
/// `None` for a key shorter than six characters.
pub open spec fn oui_vendor(key: Seq<char>) -> Option<&'static str> {
    if key.len() < 6 {
        None
    } else {
        match oui_of(key.take(6).map_values(|c: char| c as u8)) {
            Some(v) => vendor_by_oui(v),
            None => None,
        }
    }
}

/// The vendor names of the built-in table.
pub open spec fn known_vendor(n: &'static str) -> bool {
    ||| n == "Apple, Inc."
    ||| n == "Raspberry Pi"
    ||| n == "Google / Nest"
    ||| n == "Amazon Technologies"
    ||| n == "Espressif IoT"
    ||| n == "TP-Link Technologies"
    ||| n == "Netgear"
    ||| n == "Cisco Systems"
    ||| n == "Intel Corporate"
    ||| n == "Dell Inc."
    ||| n == "HP Inc."
    ||| n == "Samsung Electronics"
    ||| n == "Microsoft Corporation"
    ||| n == "Ubiquiti Networks"
    ||| n == "Synology Inc."
    ||| n == "ASUSTeK Computer"
}

proof fn lemma_without_separators_ascii(s: Seq<char>)
    requires
        all_ascii(s),
    ensures
        all_ascii(without_separators(s)),
    decreases s.len(),
{
    if s.len() > 0 {
        lemma_without_separators_ascii(s.drop_last());
        let w = without_separators(s.drop_last());
        if !is_mac_separator(s.last()) {
            assert forall|i: int| 0 <= i < w.push(s.last()).len() implies (#[trigger] w.push(
                s.last(),
            )[i] as u32) < 128 by {
                if i < w.len() {
                    assert(w.push(s.last())[i] == w[i]);
                }
            }
        }
    }
}

proof fn lemma_ascii_byte(c: char)
    requires
        (c as u32) < 128,
    ensures
        vstd::utf8::encode_scalar(c as u32) == seq![c as u8],
        !is_continuation_byte(c as u8),
{
    let u = c as u32;
    assert(((u & 0x7F) as u8) == (u as u8) && (u as u8) < 128) by (bit_vector)
        requires
            u < 128,
    ;
    let b = c as u8;
    assert(b < 128 ==> (b & 0xC0) != 0x80) by (bit_vector);
    assert(seq![(u & 0x7F) as u8] =~= seq![c as u8]);
}

proof fn lemma_encode_ascii(s: Seq<char>)
    requires
        all_ascii(s),
    ensures
        encode_utf8(s) == s.map_values(|c: char| c as u8),
    decreases s.len(),
{
    if s.len() > 0 {
        assert((s[0] as u32) < 128);
        lemma_ascii_byte(s[0]);
        assert(all_ascii(s.drop_first())) by {
            assert forall|i: int| 0 <= i < s.drop_first().len() implies (#[trigger] s.drop_first()[i] as u32) < 128 by {
                assert(s.drop_first()[i] == s[i + 1]);
            }
        }
        lemma_encode_ascii(s.drop_first());
        assert(encode_utf8(s) =~= s.map_values(|c: char| c as u8));
    } else {
        assert(encode_utf8(s) =~= s.map_values(|c: char| c as u8));
    }
}

/// Every ASCII address can be looked up: its six-byte key prefix ends on a character
/// boundary, and its vendor is the one that the first six characters of its upper-cased,
/// separator-free form name.
pub proof fn ascii_mac_lookup(mac: Seq<char>)
    requires
        all_ascii(mac),
    ensures
        prefix_on_boundary(mac),
        vendor_key_bytes(mac) == ascii_key(mac).map_values(|c: char| c as u8),
        vendor_of(mac) == oui_vendor(ascii_key(mac)),
{
    let w = without_separators(mac);
    lemma_without_separators_ascii(mac);
    let k = ascii_key(mac);
    assert(all_ascii(k)) by {
        assert forall|i: int| 0 <= i < k.len() implies (#[trigger] k[i] as u32) < 128 by {
            assert((w[i] as u32) < 128);
        }
    }
    assert(upper_text(w) == k);
    lemma_encode_ascii(k);
    let b = vendor_key_bytes(mac);
    assert(b == k.map_values(|c: char| c as u8));
    vstd::utf8::encode_utf8_valid_utf8(k);
    if b.len() > 6 {
        lemma_ascii_byte(k[6]);
        assert(b[6] == k[6] as u8);
        vstd::utf8::is_char_boundary_iff_not_is_continuation_byte(b, 6);
    } else if b.len() == 6 {
        vstd::utf8::is_char_boundary_start_end_of_seq(b);
    }
    if b.len() >= 6 {
        assert(b.subrange(0, 6) =~= k.take(6).map_values(|c: char| c as u8));
    }
}

/// The vendor depends only on the OUI: two ASCII addresses whose upper-cased,
/// separator-free forms start with the same six characters have the same vendor, whatever
/// their case and separators.
pub proof fn vendor_depends_only_on_oui(m1: Seq<char>, m2: Seq<char>)
    requires
        all_ascii(m1),
        all_ascii(m2),
        ascii_key(m1).len() >= 6,
        ascii_key(m2).len() >= 6,
        ascii_key(m1).take(6) == ascii_key(m2).take(6),
    ensures
        vendor_of(m1) == vendor_of(m2),
{
    ascii_mac_lookup(m1);
    ascii_mac_lookup(m2);
}

/// The six-byte prefix ends on a character boundary (or the key is too short to have one).
pub open spec fn prefix_on_boundary(mac: Seq<char>) -> bool {
    let b = vendor_key_bytes(mac);
    b.len() >= 6 ==> vstd::utf8::is_char_boundary(b, 6)
}

pub open spec fn hex_byte_value(b: u8) -> Option<u32> {
    if 48 <= b <= 57 {
        Some((b - 48) as u32)
    } else if 65 <= b <= 70 {
        Some((b - 55) as u32)
    } else {
        None
    }
}

/// The number that the first `n` bytes of `p` spell as hex digits.
pub open spec fn hex_digits_value(p: Seq<u8>, n: int) -> nat
    decreases n,
{
    if n <= 0 {
        0
    } else {
        hex_digits_value(p, n - 1) * 16 + match hex_byte_value(p[n - 1]) {
            Some(d) => d as nat,
            None => 0,
        }
    }
}

/// The 24-bit number that six upper-case hex digits spell, if they do.
pub open spec fn oui_of(p: Seq<u8>) -> Option<u32> {
    if p.len() == 6 && forall|i: int| 0 <= i < 6 ==> #[trigger] hex_byte_value(p[i]) is Some {
        Some(hex_digits_value(p, 6) as u32)
    } else {
        None
    }
}

/// The curated table of high-frequency vendor OUIs.
pub open spec fn vendor_by_oui(v: u32) -> Option<&'static str> {
    match v {
        0x0017F2 | 0x0019E3 | 0x001B63 | 0x001C42 | 0x001D4F | 0x001E52 | 0x001F5B | 0x0021E9
        | 0x002241 | 0x002312 | 0x002332 | 0x00236C | 0x002436 | 0x002500 | 0x00254B
        | 0x002608 | 0x00264A | 0x0026B0 | 0x3C0754 | 0x40A6D9 | 0x70CD60 | 0x7CE9D3
        | 0x8C8590 | 0xA483E7 | 0xACDE48 | 0xB8E856 | 0xC82A14 | 0xDC2B61 | 0xF4D488
        | 0xF01898 | 0xF431C3 | 0xFCFC48 | 0xF0D5BF | 0x9C04EB | 0xB019C6 => Some("Apple, Inc."),
        0xB827EB | 0xDCA632 | 0xE45F01 | 0x28CDC4 => Some("Raspberry Pi"),
        0xF4F5DB | 0x546009 | 0xD86C63 | 0x3C5AB4 | 0x689A87 | 0xA47733 => Some("Google / Nest"),
        0x44650D | 0x747548 | 0xFC65DE | 0x68545A | 0x38F7CD | 0xAC63BE | 0x50F5DA => Some(
            "Amazon Technologies",
        ),
        0x240AC4 | 0x30AEA4 | 0x246F28 | 0x840D8E | 0xA4CF12 | 0x3C71BF | 0x807D3A | 0xCC50E3
        | 0x485519 | 0xDC5475 => Some("Espressif IoT"),
        0x50C7BF | 0x54AF97 | 0x60E327 | 0x90F652 | 0xC025E9 | 0xE848B8 | 0xEC086B | 0x001D0F
        | 0x0023CD | 0x002586 => Some("TP-Link Technologies"),
        0x00146C | 0x00184D | 0x001E2A | 0x001F33 | 0x0024B2 | 0x0026F2 | 0x204E7F => Some(
            "Netgear",
        ),
        0x00000C | 0x000142 | 0x000143 | 0x000163 | 0x000164 | 0x000196 | 0x000197 | 0x000216
        | 0x000217 | 0x00024A => Some("Cisco Systems"),
        0x001B21 | 0x001E67 | 0x00215C | 0x00216A | 0x002314 | 0x0024D7 | 0x080046 | 0x6805CA
        | 0x8086F2 => Some("Intel Corporate"),
        0x001422 | 0x00188B | 0x0019B9 | 0x001A4B | 0x001C23 | 0x001D09 | 0x1866DA | 0x70B5E8
        | 0xB8AC6F | 0xF04DA2 => Some("Dell Inc."),
        0x000E7F | 0x001185 | 0x001279 | 0x001321 | 0x0014C2 | 0x001560 | 0x3C4A92 => Some(
            "HP Inc.",
        ),
        0x0000F0 | 0x000278 | 0x0007AB | 0x000D3A | 0x001247 | 0x001599 | 0x342387 | 0x508569
        | 0x946372 | 0xBC79AD => Some("Samsung Electronics"),
        0x00155D | 0x00125A | 0x0017FA | 0x002248 | 0x0025AE | 0x281878 | 0x6045BD => Some(
            "Microsoft Corporation",
        ),
        0x00156D | 0x002722 | 0x24A43C | 0x44D9E7 | 0x68D79A | 0x7483C2 | 0x802AA8 => Some(
            "Ubiquiti Networks",
        ),
        0x001132 => Some("Synology Inc."),
        0x00112F | 0x0013D4 | 0x0015F2 | 0x0018F3 | 0x001BFC | 0x04D9F5 | 0x10BF48 => Some(
            "ASUSTeK Computer",
        ),
        _ => None,
    }
}

/// The vendor that `lookup_vendor` names for `mac`.
pub open spec fn vendor_of(mac: Seq<char>) -> Option<&'static str> {
    let b = vendor_key_bytes(mac);
    if b.len() < 6 {
        None
    } else {
        match oui_of(b.subrange(0, 6)) {
            Some(v) => vendor_by_oui(v),
            None => None,
        }
    }
}

fn vendor_for_oui(v: u32) -> (r: Option<&'static str>)
    ensures
        r == vendor_by_oui(v),
{
    match v {
        0x0017F2 | 0x0019E3 | 0x001B63 | 0x001C42 | 0x001D4F | 0x001E52 | 0x001F5B | 0x0021E9
        | 0x002241 | 0x002312 | 0x002332 | 0x00236C | 0x002436 | 0x002500 | 0x00254B
        | 0x002608 | 0x00264A | 0x0026B0 | 0x3C0754 | 0x40A6D9 | 0x70CD60 | 0x7CE9D3
        | 0x8C8590 | 0xA483E7 | 0xACDE48 | 0xB8E856 | 0xC82A14 | 0xDC2B61 | 0xF4D488
        | 0xF01898 | 0xF431C3 | 0xFCFC48 | 0xF0D5BF | 0x9C04EB | 0xB019C6 => Some("Apple, Inc."),
        0xB827EB | 0xDCA632 | 0xE45F01 | 0x28CDC4 => Some("Raspberry Pi"),
        0xF4F5DB | 0x546009 | 0xD86C63 | 0x3C5AB4 | 0x689A87 | 0xA47733 => Some("Google / Nest"),
        0x44650D | 0x747548 | 0xFC65DE | 0x68545A | 0x38F7CD | 0xAC63BE | 0x50F5DA => Some(
            "Amazon Technologies",
        ),
        0x240AC4 | 0x30AEA4 | 0x246F28 | 0x840D8E | 0xA4CF12 | 0x3C71BF | 0x807D3A | 0xCC50E3
        | 0x485519 | 0xDC5475 => Some("Espressif IoT"),
        0x50C7BF | 0x54AF97 | 0x60E327 | 0x90F652 | 0xC025E9 | 0xE848B8 | 0xEC086B | 0x001D0F
        | 0x0023CD | 0x002586 => Some("TP-Link Technologies"),
        0x00146C | 0x00184D | 0x001E2A | 0x001F33 | 0x0024B2 | 0x0026F2 | 0x204E7F => Some(
            "Netgear",
        ),
        0x00000C | 0x000142 | 0x000143 | 0x000163 | 0x000164 | 0x000196 | 0x000197 | 0x000216
        | 0x000217 | 0x00024A => Some("Cisco Systems"),
        0x001B21 | 0x001E67 | 0x00215C | 0x00216A | 0x002314 | 0x0024D7 | 0x080046 | 0x6805CA
        | 0x8086F2 => Some("Intel Corporate"),
        0x001422 | 0x00188B | 0x0019B9 | 0x001A4B | 0x001C23 | 0x001D09 | 0x1866DA | 0x70B5E8
        | 0xB8AC6F | 0xF04DA2 => Some("Dell Inc."),
        0x000E7F | 0x001185 | 0x001279 | 0x001321 | 0x0014C2 | 0x001560 | 0x3C4A92 => Some(
            "HP Inc.",
        ),
        0x0000F0 | 0x000278 | 0x0007AB | 0x000D3A | 0x001247 | 0x001599 | 0x342387 | 0x508569
        | 0x946372 | 0xBC79AD => Some("Samsung Electronics"),
        0x00155D | 0x00125A | 0x0017FA | 0x002248 | 0x0025AE | 0x281878 | 0x6045BD => Some(
            "Microsoft Corporation",
        ),
        0x00156D | 0x002722 | 0x24A43C | 0x44D9E7 | 0x68D79A | 0x7483C2 | 0x802AA8 => Some(
            "Ubiquiti Networks",
        ),
        0x001132 => Some("Synology Inc."),
        0x00112F | 0x0013D4 | 0x0015F2 | 0x0018F3 | 0x001BFC | 0x04D9F5 | 0x10BF48 => Some(
            "ASUSTeK Computer",
        ),
        _ => None,
    }
}

fn hex_byte(b: u8) -> (r: Option<u32>)
    ensures
        r == hex_byte_value(b),
{
    if 48 <= b && b <= 57 {
        Some((b - 48) as u32)
    } else if 65 <= b && b <= 70 {
        Some((b - 55) as u32)
    } else {
        None
    }
}

/// `mac` without separators, as a `String`.
fn strip_separators(mac: &str) -> (r: String)
    ensures
        r@ == without_separators(mac@),
{
    let v = chars_of(mac);
    let mut out = String::new();
    let mut i: usize = 0;
    while i < v.len()
        invariant
            0 <= i <= v.len(),
            v@ == mac@,
            out@ == without_separators(v@.take(i as int)),
        decreases v.len() - i,
    {
        let c = v[i];
        assert(v@.take(i + 1).drop_last() =~= v@.take(i as int));
        if !(c == ':' || c == '-' || c == '.') {
            push_char(&mut out, c);
        }
        i += 1;
    }
    assert(v@.take(v.len() as int) =~= v@);
    out
}

/// Look up the device vendor by the OUI prefix of a MAC address, in any case and with or
/// without `:`, `-` or `.` separators.
pub fn lookup_vendor(mac_str: &str) -> (r: Option<&'static str>)
    requires
        all_ascii(mac_str@) || prefix_on_boundary(mac_str@),
    ensures
        r == vendor_of(mac_str@),
        all_ascii(mac_str@) ==> r == oui_vendor(ascii_key(mac_str@)),
        r matches Some(n) ==> known_vendor(n),
{
    proof {
        if all_ascii(mac_str@) {
            ascii_mac_lookup(mac_str@);
        }
    }
    let clean = to_uppercase(strip_separators(mac_str).as_str());
    let bytes = clean.as_str().as_bytes();
    assert(bytes@ == vendor_key_bytes(mac_str@));
    if bytes.len() < 6 {
        return None;
    }
    let ghost p = bytes@.subrange(0, 6);
    let mut value: u32 = 0;
    let mut i: usize = 0;
    while i < 6
        invariant
            0 <= i <= 6,
            6 <= bytes.len(),
            bytes@ == vendor_key_bytes(mac_str@),
            all_ascii(mac_str@) ==> vendor_of(mac_str@) == oui_vendor(ascii_key(mac_str@)),
            p == bytes@.subrange(0, 6),
            forall|j: int| 0 <= j < i ==> #[trigger] hex_byte_value(p[j]) is Some,
            value == hex_digits_value(p, i as int),
            value < (if i == 0 {
                1u32
            } else if i == 1 {
                16u32
            } else if i == 2 {
                256u32
            } else if i == 3 {
                4096u32
            } else if i == 4 {
                65536u32
            } else if i == 5 {
                1048576u32
            } else {
                16777216u32
            }),
        decreases 6 - i,
    {
        assert(p[i as int] == bytes@[i as int]);
        match hex_byte(bytes[i]) {
            None => {
                assert(hex_byte_value(p[i as int]) is None);
                assert(oui_of(p) is None);
                return None;
            },
            Some(d) => {
                value = value * 16 + d;
            },
        }
        i += 1;
    }
    assert(oui_of(p) == Some(value));
    vendor_for_oui(value)
}

/// `lookup_vendor` where the OUI prefix can be cut from the upper-cased address, and
/// `None` where the six-byte prefix would split a character.
pub fn vendor_for_mac(mac_str: &str) -> (r: Option<&'static str>)
    ensures
        prefix_on_boundary(mac_str@) ==> r == vendor_of(mac_str@),
        !prefix_on_boundary(mac_str@) ==> r is None,
        all_ascii(mac_str@) ==> r == oui_vendor(ascii_key(mac_str@)),
        r matches Some(n) ==> known_vendor(n),
{
    proof {
        if all_ascii(mac_str@) {
            ascii_mac_lookup(mac_str@);
        }
    }
    let clean = to_uppercase(strip_separators(mac_str).as_str());
    let key = clean.as_str();
    assert(key.spec_bytes() == vendor_key_bytes(mac_str@));
    proof {
        vstd::utf8::encode_utf8_valid_utf8(key@);
    }
    if key.is_char_boundary(6) {
        lookup_vendor(mac_str)
    } else {
        None
    }
}

/// An upper-case hex digit.
pub open spec fn is_upper_hex_char(c: char) -> bool {
    ||| '0' <= c <= '9'
    ||| 'A' <= c <= 'F'
}

/// Six upper-case hex digits.
pub open spec fn is_oui_text(o: Seq<char>) -> bool {
    o.len() == 6 && forall|i: int| 0 <= i < 6 ==> is_upper_hex_char(#[trigger] o[i])
}

/// The value of an upper-case hex digit.
pub open spec fn hex_char_value(c: char) -> int {
    if '0' <= c <= '9' {
        c as int - 48
    } else {
        c as int - 55
    }
}

/// The number that six hex digits spell.
pub open spec fn hex6(o: Seq<char>) -> int {
    ((((hex_char_value(o[0]) * 16 + hex_char_value(o[1])) * 16 + hex_char_value(o[2])) * 16
        + hex_char_value(o[3])) * 16 + hex_char_value(o[4])) * 16 + hex_char_value(o[5])
}

/// How many OUIs the curated list holds.
pub open spec fn oui_count() -> int {
    147
}

/// The curated OUI list, entry `k`: the OUI as six upper-case hex digits and its vendor.
pub open spec fn oui_entry(k: u32) -> (Seq<char>, &'static str) {
    match k {
        0 => (seq!['0', '0', '1', '7', 'F', '2'], "Apple, Inc."),
        1 => (seq!['0', '0', '1', '9', 'E', '3'], "Apple, Inc."),
        2 => (seq!['0', '0', '1', 'B', '6', '3'], "Apple, Inc."),
        3 => (seq!['0', '0', '1', 'C', '4', '2'], "Apple, Inc."),
        4 => (seq!['0', '0', '1', 'D', '4', 'F'], "Apple, Inc."),
        5 => (seq!['0', '0', '1', 'E', '5', '2'], "Apple, Inc."),
        6 => (seq!['0', '0', '1', 'F', '5', 'B'], "Apple, Inc."),
        7 => (seq!['0', '0', '2', '1', 'E', '9'], "Apple, Inc."),
        8 => (seq!['0', '0', '2', '2', '4', '1'], "Apple, Inc."),
        9 => (seq!['0', '0', '2', '3', '1', '2'], "Apple, Inc."),
        10 => (seq!['0', '0', '2', '3', '3', '2'], "Apple, Inc."),
        11 => (seq!['0', '0', '2', '3', '6', 'C'], "Apple, Inc."),
        12 => (seq!['0', '0', '2', '4', '3', '6'], "Apple, Inc."),
        13 => (seq!['0', '0', '2', '5', '0', '0'], "Apple, Inc."),
        14 => (seq!['0', '0', '2', '5', '4', 'B'], "Apple, Inc."),
        15 => (seq!['0', '0', '2', '6', '0', '8'], "Apple, Inc."),
        16 => (seq!['0', '0', '2', '6', '4', 'A'], "Apple, Inc."),
        17 => (seq!['0', '0', '2', '6', 'B', '0'], "Apple, Inc."),
        18 => (seq!['3', 'C', '0', '7', '5', '4'], "Apple, Inc."),
        19 => (seq!['4', '0', 'A', '6', 'D', '9'], "Apple, Inc."),
        20 => (seq!['7', '0', 'C', 'D', '6', '0'], "Apple, Inc."),
        21 => (seq!['7', 'C', 'E', '9', 'D', '3'], "Apple, Inc."),
        22 => (seq!['8', 'C', '8', '5', '9', '0'], "Apple, Inc."),
        23 => (seq!['A', '4', '8', '3', 'E', '7'], "Apple, Inc."),
        24 => (seq!['A', 'C', 'D', 'E', '4', '8'], "Apple, Inc."),
        25 => (seq!['B', '8', 'E', '8', '5', '6'], "Apple, Inc."),
        26 => (seq!['C', '8', '2', 'A', '1', '4'], "Apple, Inc."),
        27 => (seq!['D', 'C', '2', 'B', '6', '1'], "Apple, Inc."),
        28 => (seq!['F', '4', 'D', '4', '8', '8'], "Apple, Inc."),
        29 => (seq!['F', '0', '1', '8', '9', '8'], "Apple, Inc."),
        30 => (seq!['F', '4', '3', '1', 'C', '3'], "Apple, Inc."),
        31 => (seq!['F', 'C', 'F', 'C', '4', '8'], "Apple, Inc."),
        32 => (seq!['F', '0', 'D', '5', 'B', 'F'], "Apple, Inc."),
        33 => (seq!['9', 'C', '0', '4', 'E', 'B'], "Apple, Inc."),
        34 => (seq!['B', '0', '1', '9', 'C', '6'], "Apple, Inc."),
        35 => (seq!['B', '8', '2', '7', 'E', 'B'], "Raspberry Pi"),
        36 => (seq!['D', 'C', 'A', '6', '3', '2'], "Raspberry Pi"),
        37 => (seq!['E', '4', '5', 'F', '0', '1'], "Raspberry Pi"),
        38 => (seq!['2', '8', 'C', 'D', 'C', '4'], "Raspberry Pi"),
        39 => (seq!['F', '4', 'F', '5', 'D', 'B'], "Google / Nest"),
        40 => (seq!['5', '4', '6', '0', '0', '9'], "Google / Nest"),
        41 => (seq!['D', '8', '6', 'C', '6', '3'], "Google / Nest"),
        42 => (seq!['3', 'C', '5', 'A', 'B', '4'], "Google / Nest"),
        43 => (seq!['6', '8', '9', 'A', '8', '7'], "Google / Nest"),
        44 => (seq!['A', '4', '7', '7', '3', '3'], "Google / Nest"),
        45 => (seq!['4', '4', '6', '5', '0', 'D'], "Amazon Technologies"),
        46 => (seq!['7', '4', '7', '5', '4', '8'], "Amazon Technologies"),
        47 => (seq!['F', 'C', '6', '5', 'D', 'E'], "Amazon Technologies"),
        48 => (seq!['6', '8', '5', '4', '5', 'A'], "Amazon Technologies"),
        49 => (seq!['3', '8', 'F', '7', 'C', 'D'], "Amazon Technologies"),
        50 => (seq!['A', 'C', '6', '3', 'B', 'E'], "Amazon Technologies"),
        51 => (seq!['5', '0', 'F', '5', 'D', 'A'], "Amazon Technologies"),
        52 => (seq!['2', '4', '0', 'A', 'C', '4'], "Espressif IoT"),
        53 => (seq!['3', '0', 'A', 'E', 'A', '4'], "Espressif IoT"),
        54 => (seq!['2', '4', '6', 'F', '2', '8'], "Espressif IoT"),
        55 => (seq!['8', '4', '0', 'D', '8', 'E'], "Espressif IoT"),
        56 => (seq!['A', '4', 'C', 'F', '1', '2'], "Espressif IoT"),
        57 => (seq!['3', 'C', '7', '1', 'B', 'F'], "Espressif IoT"),
        58 => (seq!['8', '0', '7', 'D', '3', 'A'], "Espressif IoT"),
        59 => (seq!['C', 'C', '5', '0', 'E', '3'], "Espressif IoT"),
        60 => (seq!['4', '8', '5', '5', '1', '9'], "Espressif IoT"),
        61 => (seq!['D', 'C', '5', '4', '7', '5'], "Espressif IoT"),
        62 => (seq!['5', '0', 'C', '7', 'B', 'F'], "TP-Link Technologies"),
        63 => (seq!['5', '4', 'A', 'F', '9', '7'], "TP-Link Technologies"),
        64 => (seq!['6', '0', 'E', '3', '2', '7'], "TP-Link Technologies"),
        65 => (seq!['9', '0', 'F', '6', '5', '2'], "TP-Link Technologies"),
        66 => (seq!['C', '0', '2', '5', 'E', '9'], "TP-Link Technologies"),
        67 => (seq!['E', '8', '4', '8', 'B', '8'], "TP-Link Technologies"),
        68 => (seq!['E', 'C', '0', '8', '6', 'B'], "TP-Link Technologies"),
        69 => (seq!['0', '0', '1', 'D', '0', 'F'], "TP-Link Technologies"),
        70 => (seq!['0', '0', '2', '3', 'C', 'D'], "TP-Link Technologies"),
        71 => (seq!['0', '0', '2', '5', '8', '6'], "TP-Link Technologies"),
        72 => (seq!['0', '0', '1', '4', '6', 'C'], "Netgear"),
        73 => (seq!['0', '0', '1', '8', '4', 'D'], "Netgear"),
        74 => (seq!['0', '0', '1', 'E', '2', 'A'], "Netgear"),
        75 => (seq!['0', '0', '1', 'F', '3', '3'], "Netgear"),
        76 => (seq!['0', '0', '2', '4', 'B', '2'], "Netgear"),
        77 => (seq!['0', '0', '2', '6', 'F', '2'], "Netgear"),
        78 => (seq!['2', '0', '4', 'E', '7', 'F'], "Netgear"),
        79 => (seq!['0', '0', '0', '0', '0', 'C'], "Cisco Systems"),
        80 => (seq!['0', '0', '0', '1', '4', '2'], "Cisco Systems"),
        81 => (seq!['0', '0', '0', '1', '4', '3'], "Cisco Systems"),
        82 => (seq!['0', '0', '0', '1', '6', '3'], "Cisco Systems"),
        83 => (seq!['0', '0', '0', '1', '6', '4'], "Cisco Systems"),
        84 => (seq!['0', '0', '0', '1', '9', '6'], "Cisco Systems"),
        85 => (seq!['0', '0', '0', '1', '9', '7'], "Cisco Systems"),
        86 => (seq!['0', '0', '0', '2', '1', '6'], "Cisco Systems"),
        87 => (seq!['0', '0', '0', '2', '1', '7'], "Cisco Systems"),
        88 => (seq!['0', '0', '0', '2', '4', 'A'], "Cisco Systems"),
        89 => (seq!['0', '0', '1', 'B', '2', '1'], "Intel Corporate"),
        90 => (seq!['0', '0', '1', 'E', '6', '7'], "Intel Corporate"),
        91 => (seq!['0', '0', '2', '1', '5', 'C'], "Intel Corporate"),
        92 => (seq!['0', '0', '2', '1', '6', 'A'], "Intel Corporate"),
        93 => (seq!['0', '0', '2', '3', '1', '4'], "Intel Corporate"),
        94 => (seq!['0', '0', '2', '4', 'D', '7'], "Intel Corporate"),
        95 => (seq!['0', '8', '0', '0', '4', '6'], "Intel Corporate"),
        96 => (seq!['6', '8', '0', '5', 'C', 'A'], "Intel Corporate"),
        97 => (seq!['8', '0', '8', '6', 'F', '2'], "Intel Corporate"),
        98 => (seq!['0', '0', '1', '4', '2', '2'], "Dell Inc."),
        99 => (seq!['0', '0', '1', '8', '8', 'B'], "Dell Inc."),
        100 => (seq!['0', '0', '1', '9', 'B', '9'], "Dell Inc."),
        101 => (seq!['0', '0', '1', 'A', '4', 'B'], "Dell Inc."),
        102 => (seq!['0', '0', '1', 'C', '2', '3'], "Dell Inc."),
        103 => (seq!['0', '0', '1', 'D', '0', '9'], "Dell Inc."),
        104 => (seq!['1', '8', '6', '6', 'D', 'A'], "Dell Inc."),
        105 => (seq!['7', '0', 'B', '5', 'E', '8'], "Dell Inc."),
        106 => (seq!['B', '8', 'A', 'C', '6', 'F'], "Dell Inc."),
        107 => (seq!['F', '0', '4', 'D', 'A', '2'], "Dell Inc."),
        108 => (seq!['0', '0', '0', 'E', '7', 'F'], "HP Inc."),
        109 => (seq!['0', '0', '1', '1', '8', '5'], "HP Inc."),
        110 => (seq!['0', '0', '1', '2', '7', '9'], "HP Inc."),
        111 => (seq!['0', '0', '1', '3', '2', '1'], "HP Inc."),
        112 => (seq!['0', '0', '1', '4', 'C', '2'], "HP Inc."),
        113 => (seq!['0', '0', '1', '5', '6', '0'], "HP Inc."),
        114 => (seq!['3', 'C', '4', 'A', '9', '2'], "HP Inc."),
        115 => (seq!['0', '0', '0', '0', 'F', '0'], "Samsung Electronics"),
        116 => (seq!['0', '0', '0', '2', '7', '8'], "Samsung Electronics"),
        117 => (seq!['0', '0', '0', '7', 'A', 'B'], "Samsung Electronics"),
        118 => (seq!['0', '0', '0', 'D', '3', 'A'], "Samsung Electronics"),
        119 => (seq!['0', '0', '1', '2', '4', '7'], "Samsung Electronics"),
        120 => (seq!['0', '0', '1', '5', '9', '9'], "Samsung Electronics"),
        121 => (seq!['3', '4', '2', '3', '8', '7'], "Samsung Electronics"),
        122 => (seq!['5', '0', '8', '5', '6', '9'], "Samsung Electronics"),
        123 => (seq!['9', '4', '6', '3', '7', '2'], "Samsung Electronics"),
        124 => (seq!['B', 'C', '7', '9', 'A', 'D'], "Samsung Electronics"),
        125 => (seq!['0', '0', '1', '5', '5', 'D'], "Microsoft Corporation"),
        126 => (seq!['0', '0', '1', '2', '5', 'A'], "Microsoft Corporation"),
        127 => (seq!['0', '0', '1', '7', 'F', 'A'], "Microsoft Corporation"),
        128 => (seq!['0', '0', '2', '2', '4', '8'], "Microsoft Corporation"),
        129 => (seq!['0', '0', '2', '5', 'A', 'E'], "Microsoft Corporation"),
        130 => (seq!['2', '8', '1', '8', '7', '8'], "Microsoft Corporation"),
        131 => (seq!['6', '0', '4', '5', 'B', 'D'], "Microsoft Corporation"),
        132 => (seq!['0', '0', '1', '5', '6', 'D'], "Ubiquiti Networks"),
        133 => (seq!['0', '0', '2', '7', '2', '2'], "Ubiquiti Networks"),
        134 => (seq!['2', '4', 'A', '4', '3', 'C'], "Ubiquiti Networks"),
        135 => (seq!['4', '4', 'D', '9', 'E', '7'], "Ubiquiti Networks"),
        136 => (seq!['6', '8', 'D', '7', '9', 'A'], "Ubiquiti Networks"),
        137 => (seq!['7', '4', '8', '3', 'C', '2'], "Ubiquiti Networks"),
        138 => (seq!['8', '0', '2', 'A', 'A', '8'], "Ubiquiti Networks"),
        139 => (seq!['0', '0', '1', '1', '3', '2'], "Synology Inc."),
        140 => (seq!['0', '0', '1', '1', '2', 'F'], "ASUSTeK Computer"),
        141 => (seq!['0', '0', '1', '3', 'D', '4'], "ASUSTeK Computer"),
        142 => (seq!['0', '0', '1', '5', 'F', '2'], "ASUSTeK Computer"),
        143 => (seq!['0', '0', '1', '8', 'F', '3'], "ASUSTeK Computer"),
        144 => (seq!['0', '0', '1', 'B', 'F', 'C'], "ASUSTeK Computer"),
        145 => (seq!['0', '4', 'D', '9', 'F', '5'], "ASUSTeK Computer"),
        146 => (seq!['1', '0', 'B', 'F', '4', '8'], "ASUSTeK Computer"),
        _ => (seq![], ""),
    }
}

proof fn lemma_digits_step(x: int, a: int, y: int, b: int)
    by (nonlinear_arith)
    requires
        0 <= a < 16,
        0 <= b < 16,
        x * 16 + a == y * 16 + b,
    ensures
        x == y,
        a == b,
{
}

/// Six hex digits are read back from the number they spell.
proof fn lemma_hex6_injective(o1: Seq<char>, o2: Seq<char>)
    requires
        is_oui_text(o1),
        is_oui_text(o2),
        hex6(o1) == hex6(o2),
    ensures
        o1 == o2,
{
    assert forall|i: int| 0 <= i < 6 implies 0 <= hex_char_value(#[trigger] o1[i]) < 16
        && 0 <= hex_char_value(o2[i]) < 16 by {
        assert(is_upper_hex_char(o1[i]) && is_upper_hex_char(o2[i]));
    }
    let h1 = |i: int| hex_char_value(o1[i]);
    let h2 = |i: int| hex_char_value(o2[i]);
    assert(0 <= h1(0) < 16 && 0 <= h1(1) < 16 && 0 <= h1(2) < 16 && 0 <= h1(3) < 16 && 0 <= h1(4) < 16 && 0 <= h1(5) < 16);
    assert(0 <= h2(0) < 16 && 0 <= h2(1) < 16 && 0 <= h2(2) < 16 && 0 <= h2(3) < 16 && 0 <= h2(4) < 16 && 0 <= h2(5) < 16);
    let a1 = h1(0) * 16 + h1(1);
    let a2 = h2(0) * 16 + h2(1);
    let b1 = a1 * 16 + h1(2);
    let b2 = a2 * 16 + h2(2);
    let c1 = b1 * 16 + h1(3);
    let c2 = b2 * 16 + h2(3);
    let d1 = c1 * 16 + h1(4);
    let d2 = c2 * 16 + h2(4);
    lemma_digits_step(d1, h1(5), d2, h2(5));
    lemma_digits_step(c1, h1(4), c2, h2(4));
    lemma_digits_step(b1, h1(3), b2, h2(3));
    lemma_digits_step(a1, h1(2), a2, h2(2));
    lemma_digits_step(h1(0), h1(1), h2(0), h2(1));
    assert forall|i: int| 0 <= i < 6 implies o1[i] == o2[i] by {
        assert(is_upper_hex_char(o1[i]) && is_upper_hex_char(o2[i]));
        assert(h1(i) == h2(i));
    }
    assert(o1 =~= o2);
}

/// The bytes of six upper-case hex digits spell, as an OUI, the number the digits spell.
proof fn lemma_oui_text(o: Seq<char>)
    requires
        is_oui_text(o),
    ensures
        0 <= hex6(o) < 0x1000000,
        oui_of(o.map_values(|c: char| c as u8)) == Some(hex6(o) as u32),
{
    let b = o.map_values(|c: char| c as u8);
    assert forall|i: int| 0 <= i < 6 implies #[trigger] hex_byte_value(b[i]) == Some(
        hex_char_value(o[i]) as u32,
    ) && 0 <= hex_char_value(o[i]) < 16 by {
        assert(is_upper_hex_char(o[i]));
        assert(b[i] == o[i] as u8);
        assert((o[i] as u8) as int == o[i] as int);
    }
    reveal_with_fuel(hex_digits_value, 7);
    assert(hex_digits_value(b, 6) == hex6(o));
}

#[verifier::spinoff_prover]
proof fn lemma_entry_0(k: u32)
    requires
        0 <= k < 37,
    ensures
        is_oui_text(oui_entry(k).0),
        vendor_by_oui(hex6(oui_entry(k).0) as u32) == Some(oui_entry(k).1),
        0 <= hex6(oui_entry(k).0) < 0x1000000,
{
    if k == 0 {
        assert(oui_entry(0).0 == seq!['0', '0', '1', '7', 'F', '2']);
    } else if k == 1 {
        assert(oui_entry(1).0 == seq!['0', '0', '1', '9', 'E', '3']);
    } else if k == 2 {
        assert(oui_entry(2).0 == seq!['0', '0', '1', 'B', '6', '3']);
    } else if k == 3 {
        assert(oui_entry(3).0 == seq!['0', '0', '1', 'C', '4', '2']);
    } else if k == 4 {
        assert(oui_entry(4).0 == seq!['0', '0', '1', 'D', '4', 'F']);
    } else if k == 5 {
        assert(oui_entry(5).0 == seq!['0', '0', '1', 'E', '5', '2']);
    } else if k == 6 {
        assert(oui_entry(6).0 == seq!['0', '0', '1', 'F', '5', 'B']);
    } else if k == 7 {
        assert(oui_entry(7).0 == seq!['0', '0', '2', '1', 'E', '9']);
    } else if k == 8 {
        assert(oui_entry(8).0 == seq!['0', '0', '2', '2', '4', '1']);
    } else if k == 9 {
        assert(oui_entry(9).0 == seq!['0', '0', '2', '3', '1', '2']);
    } else if k == 10 {
        assert(oui_entry(10).0 == seq!['0', '0', '2', '3', '3', '2']);
    } else if k == 11 {
        assert(oui_entry(11).0 == seq!['0', '0', '2', '3', '6', 'C']);
    } else if k == 12 {
        assert(oui_entry(12).0 == seq!['0', '0', '2', '4', '3', '6']);
    } else if k == 13 {
        assert(oui_entry(13).0 == seq!['0', '0', '2', '5', '0', '0']);
    } else if k == 14 {
        assert(oui_entry(14).0 == seq!['0', '0', '2', '5', '4', 'B']);
    } else if k == 15 {
        assert(oui_entry(15).0 == seq!['0', '0', '2', '6', '0', '8']);
    } else if k == 16 {
        assert(oui_entry(16).0 == seq!['0', '0', '2', '6', '4', 'A']);
    } else if k == 17 {
        assert(oui_entry(17).0 == seq!['0', '0', '2', '6', 'B', '0']);
    } else if k == 18 {
        assert(oui_entry(18).0 == seq!['3', 'C', '0', '7', '5', '4']);
    } else if k == 19 {
        assert(oui_entry(19).0 == seq!['4', '0', 'A', '6', 'D', '9']);
    } else if k == 20 {
        assert(oui_entry(20).0 == seq!['7', '0', 'C', 'D', '6', '0']);
    } else if k == 21 {
        assert(oui_entry(21).0 == seq!['7', 'C', 'E', '9', 'D', '3']);
    } else if k == 22 {
        assert(oui_entry(22).0 == seq!['8', 'C', '8', '5', '9', '0']);
    } else if k == 23 {
        assert(oui_entry(23).0 == seq!['A', '4', '8', '3', 'E', '7']);
    } else if k == 24 {
        assert(oui_entry(24).0 == seq!['A', 'C', 'D', 'E', '4', '8']);
    } else if k == 25 {
        assert(oui_entry(25).0 == seq!['B', '8', 'E', '8', '5', '6']);
    } else if k == 26 {
        assert(oui_entry(26).0 == seq!['C', '8', '2', 'A', '1', '4']);
    } else if k == 27 {
        assert(oui_entry(27).0 == seq!['D', 'C', '2', 'B', '6', '1']);
    } else if k == 28 {
        assert(oui_entry(28).0 == seq!['F', '4', 'D', '4', '8', '8']);
    } else if k == 29 {
        assert(oui_entry(29).0 == seq!['F', '0', '1', '8', '9', '8']);
    } else if k == 30 {
        assert(oui_entry(30).0 == seq!['F', '4', '3', '1', 'C', '3']);
    } else if k == 31 {
        assert(oui_entry(31).0 == seq!['F', 'C', 'F', 'C', '4', '8']);
    } else if k == 32 {
        assert(oui_entry(32).0 == seq!['F', '0', 'D', '5', 'B', 'F']);
    } else if k == 33 {
        assert(oui_entry(33).0 == seq!['9', 'C', '0', '4', 'E', 'B']);
    } else if k == 34 {
        assert(oui_entry(34).0 == seq!['B', '0', '1', '9', 'C', '6']);
    } else if k == 35 {
        assert(oui_entry(35).0 == seq!['B', '8', '2', '7', 'E', 'B']);
    } else if k == 36 {
        assert(oui_entry(36).0 == seq!['D', 'C', 'A', '6', '3', '2']);
    }
}

#[verifier::spinoff_prover]
proof fn lemma_entry_1(k: u32)
    requires
        37 <= k < 74,
    ensures
        is_oui_text(oui_entry(k).0),
        vendor_by_oui(hex6(oui_entry(k).0) as u32) == Some(oui_entry(k).1),
        0 <= hex6(oui_entry(k).0) < 0x1000000,
{
    if k == 37 {
        assert(oui_entry(37).0 == seq!['E', '4', '5', 'F', '0', '1']);
    } else if k == 38 {
        assert(oui_entry(38).0 == seq!['2', '8', 'C', 'D', 'C', '4']);
    } else if k == 39 {
        assert(oui_entry(39).0 == seq!['F', '4', 'F', '5', 'D', 'B']);
    } else if k == 40 {
        assert(oui_entry(40).0 == seq!['5', '4', '6', '0', '0', '9']);
    } else if k == 41 {
        assert(oui_entry(41).0 == seq!['D', '8', '6', 'C', '6', '3']);
    } else if k == 42 {
        assert(oui_entry(42).0 == seq!['3', 'C', '5', 'A', 'B', '4']);
    } else if k == 43 {
        assert(oui_entry(43).0 == seq!['6', '8', '9', 'A', '8', '7']);
    } else if k == 44 {
        assert(oui_entry(44).0 == seq!['A', '4', '7', '7', '3', '3']);
    } else if k == 45 {
        assert(oui_entry(45).0 == seq!['4', '4', '6', '5', '0', 'D']);
    } else if k == 46 {
        assert(oui_entry(46).0 == seq!['7', '4', '7', '5', '4', '8']);
    } else if k == 47 {
        assert(oui_entry(47).0 == seq!['F', 'C', '6', '5', 'D', 'E']);
    } else if k == 48 {
        assert(oui_entry(48).0 == seq!['6', '8', '5', '4', '5', 'A']);
    } else if k == 49 {
        assert(oui_entry(49).0 == seq!['3', '8', 'F', '7', 'C', 'D']);
    } else if k == 50 {
        assert(oui_entry(50).0 == seq!['A', 'C', '6', '3', 'B', 'E']);
    } else if k == 51 {
        assert(oui_entry(51).0 == seq!['5', '0', 'F', '5', 'D', 'A']);
    } else if k == 52 {
        assert(oui_entry(52).0 == seq!['2', '4', '0', 'A', 'C', '4']);
    } else if k == 53 {
        assert(oui_entry(53).0 == seq!['3', '0', 'A', 'E', 'A', '4']);
    } else if k == 54 {
        assert(oui_entry(54).0 == seq!['2', '4', '6', 'F', '2', '8']);
    } else if k == 55 {
        assert(oui_entry(55).0 == seq!['8', '4', '0', 'D', '8', 'E']);
    } else if k == 56 {
        assert(oui_entry(56).0 == seq!['A', '4', 'C', 'F', '1', '2']);
    } else if k == 57 {
        assert(oui_entry(57).0 == seq!['3', 'C', '7', '1', 'B', 'F']);
    } else if k == 58 {
        assert(oui_entry(58).0 == seq!['8', '0', '7', 'D', '3', 'A']);
    } else if k == 59 {
        assert(oui_entry(59).0 == seq!['C', 'C', '5', '0', 'E', '3']);
    } else if k == 60 {
        assert(oui_entry(60).0 == seq!['4', '8', '5', '5', '1', '9']);
    } else if k == 61 {
        assert(oui_entry(61).0 == seq!['D', 'C', '5', '4', '7', '5']);
    } else if k == 62 {
        assert(oui_entry(62).0 == seq!['5', '0', 'C', '7', 'B', 'F']);
    } else if k == 63 {
        assert(oui_entry(63).0 == seq!['5', '4', 'A', 'F', '9', '7']);
    } else if k == 64 {
        assert(oui_entry(64).0 == seq!['6', '0', 'E', '3', '2', '7']);
    } else if k == 65 {
        assert(oui_entry(65).0 == seq!['9', '0', 'F', '6', '5', '2']);
    } else if k == 66 {
        assert(oui_entry(66).0 == seq!['C', '0', '2', '5', 'E', '9']);
    } else if k == 67 {
        assert(oui_entry(67).0 == seq!['E', '8', '4', '8', 'B', '8']);
    } else if k == 68 {
        assert(oui_entry(68).0 == seq!['E', 'C', '0', '8', '6', 'B']);
    } else if k == 69 {
        assert(oui_entry(69).0 == seq!['0', '0', '1', 'D', '0', 'F']);
    } else if k == 70 {
        assert(oui_entry(70).0 == seq!['0', '0', '2', '3', 'C', 'D']);
    } else if k == 71 {
        assert(oui_entry(71).0 == seq!['0', '0', '2', '5', '8', '6']);
    } else if k == 72 {
        assert(oui_entry(72).0 == seq!['0', '0', '1', '4', '6', 'C']);
    } else if k == 73 {
        assert(oui_entry(73).0 == seq!['0', '0', '1', '8', '4', 'D']);
    }
}

#[verifier::spinoff_prover]
proof fn lemma_entry_2(k: u32)
    requires
        74 <= k < 111,
    ensures
        is_oui_text(oui_entry(k).0),
        vendor_by_oui(hex6(oui_entry(k).0) as u32) == Some(oui_entry(k).1),
        0 <= hex6(oui_entry(k).0) < 0x1000000,
{
    if k == 74 {
        assert(oui_entry(74).0 == seq!['0', '0', '1', 'E', '2', 'A']);
    } else if k == 75 {
        assert(oui_entry(75).0 == seq!['0', '0', '1', 'F', '3', '3']);
    } else if k == 76 {
        assert(oui_entry(76).0 == seq!['0', '0', '2', '4', 'B', '2']);
    } else if k == 77 {
        assert(oui_entry(77).0 == seq!['0', '0', '2', '6', 'F', '2']);
    } else if k == 78 {
        assert(oui_entry(78).0 == seq!['2', '0', '4', 'E', '7', 'F']);
    } else if k == 79 {
        assert(oui_entry(79).0 == seq!['0', '0', '0', '0', '0', 'C']);
    } else if k == 80 {
        assert(oui_entry(80).0 == seq!['0', '0', '0', '1', '4', '2']);
    } else if k == 81 {
        assert(oui_entry(81).0 == seq!['0', '0', '0', '1', '4', '3']);
    } else if k == 82 {
        assert(oui_entry(82).0 == seq!['0', '0', '0', '1', '6', '3']);
    } else if k == 83 {
        assert(oui_entry(83).0 == seq!['0', '0', '0', '1', '6', '4']);
    } else if k == 84 {
        assert(oui_entry(84).0 == seq!['0', '0', '0', '1', '9', '6']);
    } else if k == 85 {
        assert(oui_entry(85).0 == seq!['0', '0', '0', '1', '9', '7']);
    } else if k == 86 {
        assert(oui_entry(86).0 == seq!['0', '0', '0', '2', '1', '6']);
    } else if k == 87 {
        assert(oui_entry(87).0 == seq!['0', '0', '0', '2', '1', '7']);
    } else if k == 88 {
        assert(oui_entry(88).0 == seq!['0', '0', '0', '2', '4', 'A']);
    } else if k == 89 {
        assert(oui_entry(89).0 == seq!['0', '0', '1', 'B', '2', '1']);
    } else if k == 90 {
        assert(oui_entry(90).0 == seq!['0', '0', '1', 'E', '6', '7']);
    } else if k == 91 {
        assert(oui_entry(91).0 == seq!['0', '0', '2', '1', '5', 'C']);
    } else if k == 92 {
        assert(oui_entry(92).0 == seq!['0', '0', '2', '1', '6', 'A']);
    } else if k == 93 {
        assert(oui_entry(93).0 == seq!['0', '0', '2', '3', '1', '4']);
    } else if k == 94 {
        assert(oui_entry(94).0 == seq!['0', '0', '2', '4', 'D', '7']);
    } else if k == 95 {
        assert(oui_entry(95).0 == seq!['0', '8', '0', '0', '4', '6']);
    } else if k == 96 {
        assert(oui_entry(96).0 == seq!['6', '8', '0', '5', 'C', 'A']);
    } else if k == 97 {
        assert(oui_entry(97).0 == seq!['8', '0', '8', '6', 'F', '2']);
    } else if k == 98 {
        assert(oui_entry(98).0 == seq!['0', '0', '1', '4', '2', '2']);
    } else if k == 99 {
        assert(oui_entry(99).0 == seq!['0', '0', '1', '8', '8', 'B']);
    } else if k == 100 {
        assert(oui_entry(100).0 == seq!['0', '0', '1', '9', 'B', '9']);
    } else if k == 101 {
        assert(oui_entry(101).0 == seq!['0', '0', '1', 'A', '4', 'B']);
    } else if k == 102 {
        assert(oui_entry(102).0 == seq!['0', '0', '1', 'C', '2', '3']);
    } else if k == 103 {
        assert(oui_entry(103).0 == seq!['0', '0', '1', 'D', '0', '9']);
    } else if k == 104 {
        assert(oui_entry(104).0 == seq!['1', '8', '6', '6', 'D', 'A']);
    } else if k == 105 {
        assert(oui_entry(105).0 == seq!['7', '0', 'B', '5', 'E', '8']);
    } else if k == 106 {
        assert(oui_entry(106).0 == seq!['B', '8', 'A', 'C', '6', 'F']);
    } else if k == 107 {
        assert(oui_entry(107).0 == seq!['F', '0', '4', 'D', 'A', '2']);
    } else if k == 108 {
        assert(oui_entry(108).0 == seq!['0', '0', '0', 'E', '7', 'F']);
    } else if k == 109 {
        assert(oui_entry(109).0 == seq!['0', '0', '1', '1', '8', '5']);
    } else if k == 110 {
        assert(oui_entry(110).0 == seq!['0', '0', '1', '2', '7', '9']);
    }
}

#[verifier::spinoff_prover]
proof fn lemma_entry_3(k: u32)
    requires
        111 <= k < 147,
    ensures
        is_oui_text(oui_entry(k).0),
        vendor_by_oui(hex6(oui_entry(k).0) as u32) == Some(oui_entry(k).1),
        0 <= hex6(oui_entry(k).0) < 0x1000000,
{
    if k == 111 {
        assert(oui_entry(111).0 == seq!['0', '0', '1', '3', '2', '1']);
    } else if k == 112 {
        assert(oui_entry(112).0 == seq!['0', '0', '1', '4', 'C', '2']);
    } else if k == 113 {
        assert(oui_entry(113).0 == seq!['0', '0', '1', '5', '6', '0']);
    } else if k == 114 {
        assert(oui_entry(114).0 == seq!['3', 'C', '4', 'A', '9', '2']);
    } else if k == 115 {
        assert(oui_entry(115).0 == seq!['0', '0', '0', '0', 'F', '0']);
    } else if k == 116 {
        assert(oui_entry(116).0 == seq!['0', '0', '0', '2', '7', '8']);
    } else if k == 117 {
        assert(oui_entry(117).0 == seq!['0', '0', '0', '7', 'A', 'B']);
    } else if k == 118 {
        assert(oui_entry(118).0 == seq!['0', '0', '0', 'D', '3', 'A']);
    } else if k == 119 {
        assert(oui_entry(119).0 == seq!['0', '0', '1', '2', '4', '7']);
    } else if k == 120 {
        assert(oui_entry(120).0 == seq!['0', '0', '1', '5', '9', '9']);
    } else if k == 121 {
        assert(oui_entry(121).0 == seq!['3', '4', '2', '3', '8', '7']);
    } else if k == 122 {
        assert(oui_entry(122).0 == seq!['5', '0', '8', '5', '6', '9']);
    } else if k == 123 {
        assert(oui_entry(123).0 == seq!['9', '4', '6', '3', '7', '2']);
    } else if k == 124 {
        assert(oui_entry(124).0 == seq!['B', 'C', '7', '9', 'A', 'D']);
    } else if k == 125 {
        assert(oui_entry(125).0 == seq!['0', '0', '1', '5', '5', 'D']);
    } else if k == 126 {
        assert(oui_entry(126).0 == seq!['0', '0', '1', '2', '5', 'A']);
    } else if k == 127 {
        assert(oui_entry(127).0 == seq!['0', '0', '1', '7', 'F', 'A']);
    } else if k == 128 {
        assert(oui_entry(128).0 == seq!['0', '0', '2', '2', '4', '8']);
    } else if k == 129 {
        assert(oui_entry(129).0 == seq!['0', '0', '2', '5', 'A', 'E']);
    } else if k == 130 {
        assert(oui_entry(130).0 == seq!['2', '8', '1', '8', '7', '8']);
    } else if k == 131 {
        assert(oui_entry(131).0 == seq!['6', '0', '4', '5', 'B', 'D']);
    } else if k == 132 {
        assert(oui_entry(132).0 == seq!['0', '0', '1', '5', '6', 'D']);
    } else if k == 133 {
        assert(oui_entry(133).0 == seq!['0', '0', '2', '7', '2', '2']);
    } else if k == 134 {
        assert(oui_entry(134).0 == seq!['2', '4', 'A', '4', '3', 'C']);
    } else if k == 135 {
        assert(oui_entry(135).0 == seq!['4', '4', 'D', '9', 'E', '7']);
    } else if k == 136 {
        assert(oui_entry(136).0 == seq!['6', '8', 'D', '7', '9', 'A']);
    } else if k == 137 {
        assert(oui_entry(137).0 == seq!['7', '4', '8', '3', 'C', '2']);
    } else if k == 138 {
        assert(oui_entry(138).0 == seq!['8', '0', '2', 'A', 'A', '8']);
    } else if k == 139 {
        assert(oui_entry(139).0 == seq!['0', '0', '1', '1', '3', '2']);
    } else if k == 140 {
        assert(oui_entry(140).0 == seq!['0', '0', '1', '1', '2', 'F']);
    } else if k == 141 {
        assert(oui_entry(141).0 == seq!['0', '0', '1', '3', 'D', '4']);
    } else if k == 142 {
        assert(oui_entry(142).0 == seq!['0', '0', '1', '5', 'F', '2']);
    } else if k == 143 {
        assert(oui_entry(143).0 == seq!['0', '0', '1', '8', 'F', '3']);
    } else if k == 144 {
        assert(oui_entry(144).0 == seq!['0', '0', '1', 'B', 'F', 'C']);
    } else if k == 145 {
        assert(oui_entry(145).0 == seq!['0', '4', 'D', '9', 'F', '5']);
    } else if k == 146 {
        assert(oui_entry(146).0 == seq!['1', '0', 'B', 'F', '4', '8']);
    }
}

/// Entry `k` of the curated list is six upper-case hex digits whose vendor, by the lookup
/// table, is the entry's name.
proof fn lemma_entry(k: u32)
    requires
        0 <= k < oui_count(),
    ensures
        is_oui_text(oui_entry(k).0),
        vendor_by_oui(hex6(oui_entry(k).0) as u32) == Some(oui_entry(k).1),
        0 <= hex6(oui_entry(k).0) < 0x1000000,
{
    if k < 37 {
        lemma_entry_0(k);
    } else if k < 74 {
        lemma_entry_1(k);
    } else if k < 111 {
        lemma_entry_2(k);
    } else {
        lemma_entry_3(k);
    }
}

/// A number the lookup table names a vendor for is the value of a listed OUI.
#[verifier::spinoff_prover]
proof fn lemma_listed(v: u32)
    requires
        vendor_by_oui(v) is Some,
    ensures
        exists|k: u32|
            0 <= k < oui_count() && #[trigger] hex6(oui_entry(k).0) == v && vendor_by_oui(v) == Some(
                oui_entry(k).1,
            ),
{
    if v == 0x0017F2 {
        assert(hex6(oui_entry(0).0) == v);
    } else if v == 0x0019E3 {
        assert(hex6(oui_entry(1).0) == v);
    } else if v == 0x001B63 {
        assert(hex6(oui_entry(2).0) == v);
    } else if v == 0x001C42 {
        assert(hex6(oui_entry(3).0) == v);
    } else if v == 0x001D4F {
        assert(hex6(oui_entry(4).0) == v);
    } else if v == 0x001E52 {
        assert(hex6(oui_entry(5).0) == v);
    } else if v == 0x001F5B {
        assert(hex6(oui_entry(6).0) == v);
    } else if v == 0x0021E9 {
        assert(hex6(oui_entry(7).0) == v);
    } else if v == 0x002241 {
        assert(hex6(oui_entry(8).0) == v);
    } else if v == 0x002312 {
        assert(hex6(oui_entry(9).0) == v);
    } else if v == 0x002332 {
        assert(hex6(oui_entry(10).0) == v);
    } else if v == 0x00236C {
        assert(hex6(oui_entry(11).0) == v);
    } else if v == 0x002436 {
        assert(hex6(oui_entry(12).0) == v);
    } else if v == 0x002500 {
        assert(hex6(oui_entry(13).0) == v);
    } else if v == 0x00254B {
        assert(hex6(oui_entry(14).0) == v);
    } else if v == 0x002608 {
        assert(hex6(oui_entry(15).0) == v);
    } else if v == 0x00264A {
        assert(hex6(oui_entry(16).0) == v);
    } else if v == 0x0026B0 {
        assert(hex6(oui_entry(17).0) == v);
    } else if v == 0x3C0754 {
        assert(hex6(oui_entry(18).0) == v);
    } else if v == 0x40A6D9 {
        assert(hex6(oui_entry(19).0) == v);
    } else if v == 0x70CD60 {
        assert(hex6(oui_entry(20).0) == v);
    } else if v == 0x7CE9D3 {
        assert(hex6(oui_entry(21).0) == v);
    } else if v == 0x8C8590 {
        assert(hex6(oui_entry(22).0) == v);
    } else if v == 0xA483E7 {
        assert(hex6(oui_entry(23).0) == v);
    } else if v == 0xACDE48 {
        assert(hex6(oui_entry(24).0) == v);
    } else if v == 0xB8E856 {
        assert(hex6(oui_entry(25).0) == v);
    } else if v == 0xC82A14 {
        assert(hex6(oui_entry(26).0) == v);
    } else if v == 0xDC2B61 {
        assert(hex6(oui_entry(27).0) == v);
    } else if v == 0xF4D488 {
        assert(hex6(oui_entry(28).0) == v);
    } else if v == 0xF01898 {
        assert(hex6(oui_entry(29).0) == v);
    } else if v == 0xF431C3 {
        assert(hex6(oui_entry(30).0) == v);
    } else if v == 0xFCFC48 {
        assert(hex6(oui_entry(31).0) == v);
    } else if v == 0xF0D5BF {
        assert(hex6(oui_entry(32).0) == v);
    } else if v == 0x9C04EB {
        assert(hex6(oui_entry(33).0) == v);
    } else if v == 0xB019C6 {
        assert(hex6(oui_entry(34).0) == v);
    } else if v == 0xB827EB {
        assert(hex6(oui_entry(35).0) == v);
    } else if v == 0xDCA632 {
        assert(hex6(oui_entry(36).0) == v);
    } else if v == 0xE45F01 {
        assert(hex6(oui_entry(37).0) == v);
    } else if v == 0x28CDC4 {
        assert(hex6(oui_entry(38).0) == v);
    } else if v == 0xF4F5DB {
        assert(hex6(oui_entry(39).0) == v);
    } else if v == 0x546009 {
        assert(hex6(oui_entry(40).0) == v);
    } else if v == 0xD86C63 {
        assert(hex6(oui_entry(41).0) == v);
    } else if v == 0x3C5AB4 {
        assert(hex6(oui_entry(42).0) == v);
    } else if v == 0x689A87 {
        assert(hex6(oui_entry(43).0) == v);
    } else if v == 0xA47733 {
        assert(hex6(oui_entry(44).0) == v);
    } else if v == 0x44650D {
        assert(hex6(oui_entry(45).0) == v);
    } else if v == 0x747548 {
        assert(hex6(oui_entry(46).0) == v);
    } else if v == 0xFC65DE {
        assert(hex6(oui_entry(47).0) == v);
    } else if v == 0x68545A {
        assert(hex6(oui_entry(48).0) == v);
    } else if v == 0x38F7CD {
        assert(hex6(oui_entry(49).0) == v);
    } else if v == 0xAC63BE {
        assert(hex6(oui_entry(50).0) == v);
    } else if v == 0x50F5DA {
        assert(hex6(oui_entry(51).0) == v);
    } else if v == 0x240AC4 {
        assert(hex6(oui_entry(52).0) == v);
    } else if v == 0x30AEA4 {
        assert(hex6(oui_entry(53).0) == v);
    } else if v == 0x246F28 {
        assert(hex6(oui_entry(54).0) == v);
    } else if v == 0x840D8E {
        assert(hex6(oui_entry(55).0) == v);
    } else if v == 0xA4CF12 {
        assert(hex6(oui_entry(56).0) == v);
    } else if v == 0x3C71BF {
        assert(hex6(oui_entry(57).0) == v);
    } else if v == 0x807D3A {
        assert(hex6(oui_entry(58).0) == v);
    } else if v == 0xCC50E3 {
        assert(hex6(oui_entry(59).0) == v);
    } else if v == 0x485519 {
        assert(hex6(oui_entry(60).0) == v);
    } else if v == 0xDC5475 {
        assert(hex6(oui_entry(61).0) == v);
    } else if v == 0x50C7BF {
        assert(hex6(oui_entry(62).0) == v);
    } else if v == 0x54AF97 {
        assert(hex6(oui_entry(63).0) == v);
    } else if v == 0x60E327 {
        assert(hex6(oui_entry(64).0) == v);
    } else if v == 0x90F652 {
        assert(hex6(oui_entry(65).0) == v);
    } else if v == 0xC025E9 {
        assert(hex6(oui_entry(66).0) == v);
    } else if v == 0xE848B8 {
        assert(hex6(oui_entry(67).0) == v);
    } else if v == 0xEC086B {
        assert(hex6(oui_entry(68).0) == v);
    } else if v == 0x001D0F {
        assert(hex6(oui_entry(69).0) == v);
    } else if v == 0x0023CD {
        assert(hex6(oui_entry(70).0) == v);
    } else if v == 0x002586 {
        assert(hex6(oui_entry(71).0) == v);
    } else if v == 0x00146C {
        assert(hex6(oui_entry(72).0) == v);
    } else if v == 0x00184D {
        assert(hex6(oui_entry(73).0) == v);
    } else if v == 0x001E2A {
        assert(hex6(oui_entry(74).0) == v);
    } else if v == 0x001F33 {
        assert(hex6(oui_entry(75).0) == v);
    } else if v == 0x0024B2 {
        assert(hex6(oui_entry(76).0) == v);
    } else if v == 0x0026F2 {
        assert(hex6(oui_entry(77).0) == v);
    } else if v == 0x204E7F {
        assert(hex6(oui_entry(78).0) == v);
    } else if v == 0x00000C {
        assert(hex6(oui_entry(79).0) == v);
    } else if v == 0x000142 {
        assert(hex6(oui_entry(80).0) == v);
    } else if v == 0x000143 {
        assert(hex6(oui_entry(81).0) == v);
    } else if v == 0x000163 {
        assert(hex6(oui_entry(82).0) == v);
    } else if v == 0x000164 {
        assert(hex6(oui_entry(83).0) == v);
    } else if v == 0x000196 {
        assert(hex6(oui_entry(84).0) == v);
    } else if v == 0x000197 {
        assert(hex6(oui_entry(85).0) == v);
    } else if v == 0x000216 {
        assert(hex6(oui_entry(86).0) == v);
    } else if v == 0x000217 {
        assert(hex6(oui_entry(87).0) == v);
    } else if v == 0x00024A {
        assert(hex6(oui_entry(88).0) == v);
    } else if v == 0x001B21 {
        assert(hex6(oui_entry(89).0) == v);
    } else if v == 0x001E67 {
        assert(hex6(oui_entry(90).0) == v);
    } else if v == 0x00215C {
        assert(hex6(oui_entry(91).0) == v);
    } else if v == 0x00216A {
        assert(hex6(oui_entry(92).0) == v);
    } else if v == 0x002314 {
        assert(hex6(oui_entry(93).0) == v);
    } else if v == 0x0024D7 {
        assert(hex6(oui_entry(94).0) == v);
    } else if v == 0x080046 {
        assert(hex6(oui_entry(95).0) == v);
    } else if v == 0x6805CA {
        assert(hex6(oui_entry(96).0) == v);
    } else if v == 0x8086F2 {
        assert(hex6(oui_entry(97).0) == v);
    } else if v == 0x001422 {
        assert(hex6(oui_entry(98).0) == v);
    } else if v == 0x00188B {
        assert(hex6(oui_entry(99).0) == v);
    } else if v == 0x0019B9 {
        assert(hex6(oui_entry(100).0) == v);
    } else if v == 0x001A4B {
        assert(hex6(oui_entry(101).0) == v);
    } else if v == 0x001C23 {
        assert(hex6(oui_entry(102).0) == v);
    } else if v == 0x001D09 {
        assert(hex6(oui_entry(103).0) == v);
    } else if v == 0x1866DA {
        assert(hex6(oui_entry(104).0) == v);
    } else if v == 0x70B5E8 {
        assert(hex6(oui_entry(105).0) == v);
    } else if v == 0xB8AC6F {
        assert(hex6(oui_entry(106).0) == v);
    } else if v == 0xF04DA2 {
        assert(hex6(oui_entry(107).0) == v);
    } else if v == 0x000E7F {
        assert(hex6(oui_entry(108).0) == v);
    } else if v == 0x001185 {
        assert(hex6(oui_entry(109).0) == v);
    } else if v == 0x001279 {
        assert(hex6(oui_entry(110).0) == v);
    } else if v == 0x001321 {
        assert(hex6(oui_entry(111).0) == v);
    } else if v == 0x0014C2 {
        assert(hex6(oui_entry(112).0) == v);
    } else if v == 0x001560 {
        assert(hex6(oui_entry(113).0) == v);
    } else if v == 0x3C4A92 {
        assert(hex6(oui_entry(114).0) == v);
    } else if v == 0x0000F0 {
        assert(hex6(oui_entry(115).0) == v);
    } else if v == 0x000278 {
        assert(hex6(oui_entry(116).0) == v);
    } else if v == 0x0007AB {
        assert(hex6(oui_entry(117).0) == v);
    } else if v == 0x000D3A {
        assert(hex6(oui_entry(118).0) == v);
    } else if v == 0x001247 {
        assert(hex6(oui_entry(119).0) == v);
    } else if v == 0x001599 {
        assert(hex6(oui_entry(120).0) == v);
    } else if v == 0x342387 {
        assert(hex6(oui_entry(121).0) == v);
    } else if v == 0x508569 {
        assert(hex6(oui_entry(122).0) == v);
    } else if v == 0x946372 {
        assert(hex6(oui_entry(123).0) == v);
    } else if v == 0xBC79AD {
        assert(hex6(oui_entry(124).0) == v);
    } else if v == 0x00155D {
        assert(hex6(oui_entry(125).0) == v);
    } else if v == 0x00125A {
        assert(hex6(oui_entry(126).0) == v);
    } else if v == 0x0017FA {
        assert(hex6(oui_entry(127).0) == v);
    } else if v == 0x002248 {
        assert(hex6(oui_entry(128).0) == v);
    } else if v == 0x0025AE {
        assert(hex6(oui_entry(129).0) == v);
    } else if v == 0x281878 {
        assert(hex6(oui_entry(130).0) == v);
    } else if v == 0x6045BD {
        assert(hex6(oui_entry(131).0) == v);
    } else if v == 0x00156D {
        assert(hex6(oui_entry(132).0) == v);
    } else if v == 0x002722 {
        assert(hex6(oui_entry(133).0) == v);
    } else if v == 0x24A43C {
        assert(hex6(oui_entry(134).0) == v);
    } else if v == 0x44D9E7 {
        assert(hex6(oui_entry(135).0) == v);
    } else if v == 0x68D79A {
        assert(hex6(oui_entry(136).0) == v);
    } else if v == 0x7483C2 {
        assert(hex6(oui_entry(137).0) == v);
    } else if v == 0x802AA8 {
        assert(hex6(oui_entry(138).0) == v);
    } else if v == 0x001132 {
        assert(hex6(oui_entry(139).0) == v);
    } else if v == 0x00112F {
        assert(hex6(oui_entry(140).0) == v);
    } else if v == 0x0013D4 {
        assert(hex6(oui_entry(141).0) == v);
    } else if v == 0x0015F2 {
        assert(hex6(oui_entry(142).0) == v);
    } else if v == 0x0018F3 {
        assert(hex6(oui_entry(143).0) == v);
    } else if v == 0x001BFC {
        assert(hex6(oui_entry(144).0) == v);
    } else if v == 0x04D9F5 {
        assert(hex6(oui_entry(145).0) == v);
    } else if v == 0x10BF48 {
        assert(hex6(oui_entry(146).0) == v);
    }
}

/// The vendor table is the curated OUI list: an ASCII address whose upper-cased,
/// separator-free key starts with a listed OUI gets that OUI's vendor (for instance every
/// key starting `00000C` gives "Cisco Systems"), and a vendor is named only for a key that
/// starts with an OUI listed under that name.
pub proof fn vendor_table_is_the_oui_list(mac: Seq<char>)
    requires
        all_ascii(mac),
    ensures
        forall|k: u32|
            0 <= k < oui_count() && ascii_key(mac).len() >= 6 && ascii_key(mac).take(6)
                == #[trigger] oui_entry(k).0 ==> vendor_of(mac) == Some(oui_entry(k).1),
        vendor_of(mac) matches Some(n) ==> exists|k: u32|
            0 <= k < oui_count() && ascii_key(mac).take(6) == #[trigger] oui_entry(k).0
                && oui_entry(k).1 == n,
{
    ascii_mac_lookup(mac);
    let key = ascii_key(mac);
    assert forall|k: u32|
        0 <= k < oui_count() && key.len() >= 6 && key.take(6) == #[trigger] oui_entry(k).0
        implies vendor_of(mac) == Some(oui_entry(k).1) by {
        lemma_entry(k);
        lemma_oui_text(oui_entry(k).0);
    }
    if let Some(n) = vendor_of(mac) {
        let o = key.take(6);
        let b = o.map_values(|c: char| c as u8);
        let v = oui_of(b).unwrap();
        assert(is_oui_text(o)) by {
            assert forall|i: int| 0 <= i < 6 implies is_upper_hex_char(#[trigger] o[i]) by {
                assert(hex_byte_value(b[i]) is Some);
                assert(b[i] == o[i] as u8);
                assert((o[i] as u32) < 128) by {
                    lemma_key_ascii(mac);
                    assert(o[i] == key[i]);
                }
                assert((o[i] as u8) as int == o[i] as int);
            }
        }
        lemma_oui_text(o);
        lemma_listed(v);
        let k = choose|k: u32|
            0 <= k < oui_count() && #[trigger] hex6(oui_entry(k).0) == v && vendor_by_oui(v) == Some(
                oui_entry(k).1,
            );
        lemma_entry(k);
        lemma_hex6_injective(o, oui_entry(k).0);
    }
}

proof fn lemma_key_ascii(mac: Seq<char>)
    requires
        all_ascii(mac),
    ensures
        all_ascii(ascii_key(mac)),
{
    lemma_without_separators_ascii(mac);
    let w = without_separators(mac);
    let k = ascii_key(mac);
    assert forall|i: int| 0 <= i < k.len() implies (#[trigger] k[i] as u32) < 128 by {
        assert((w[i] as u32) < 128);
    }
}

} // verus!
