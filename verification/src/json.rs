//! The on-disk JSON text of the two collections, as mathematical functions:
//! a canonical encoder, a parser, and the proof that parsing a canonical
//! encoding gives back exactly the encoded collection.
//!
//! The snippet collection is a JSON array of strings; the signature
//! collection is a JSON array of objects with the keys `id`, `name`, `mime`,
//! `bytes` (an array of numbers), `naturalWidth` and `naturalHeight`, in that
//! order. The encoder writes the compact form (no whitespace) with the
//! standard JSON string escapes; the parser accepts exactly that shape, with
//! any of the standard single-character escapes and `\uXXXX` scalar escapes
//! in strings.

use vstd::prelude::*;
use vstd::utf8::{char_is_scalar, char_u32_cast, is_scalar};
use crate::dec::{
    dec_of,
    digit_char,
    digit_val,
    digits_len,
    is_digit,
    lemma_dec_of_digits,
    lemma_digits_len_at,
    lemma_num_val_dec_of,
    num_val,
};
use crate::model::SignatureView;

verus! {

/// The character for a digit value below 16: `0`-`9`, then lowercase `a`-`f`.
pub open spec fn hex_char(d: u32) -> char {
    if d < 10 {
        digit_char(d as nat)
    } else if d == 10 {
        'a'
    } else if d == 11 {
        'b'
    } else if d == 12 {
        'c'
    } else if d == 13 {
        'd'
    } else if d == 14 {
        'e'
    } else {
        'f'
    }
}

/// The value of a hexadecimal digit character, upper or lower case.
pub open spec fn hex_val(c: char) -> Option<u32> {
    if is_digit(c) {
        Some(digit_val(c) as u32)
    } else if c == 'a' || c == 'A' {
        Some(10)
    } else if c == 'b' || c == 'B' {
        Some(11)
    } else if c == 'c' || c == 'C' {
        Some(12)
    } else if c == 'd' || c == 'D' {
        Some(13)
    } else if c == 'e' || c == 'E' {
        Some(14)
    } else if c == 'f' || c == 'F' {
        Some(15)
    } else {
        None
    }
}

proof fn lemma_hex_roundtrip(d: u32)
    requires
        d < 16,
    ensures
        hex_val(hex_char(d)) == Some(d),
{
    if d < 10 {
        crate::dec::lemma_digit_roundtrip(d as nat);
        assert(is_digit(digit_char(d as nat)));
    }
}

/// How one character is written inside a JSON string: the two-character
/// escapes for quote, backslash and the common control characters, `\u00XX`
/// for the remaining control characters, and the character itself otherwise.
pub open spec fn esc_char(c: char) -> Seq<char> {
    if c == '"' {
        seq!['\\', '"']
    } else if c == '\\' {
        seq!['\\', '\\']
    } else if c as u32 == 8 {
        seq!['\\', 'b']
    } else if c as u32 == 12 {
        seq!['\\', 'f']
    } else if c as u32 == 10 {
        seq!['\\', 'n']
    } else if c as u32 == 13 {
        seq!['\\', 'r']
    } else if c as u32 == 9 {
        seq!['\\', 't']
    } else if (c as u32) < 32 {
        seq!['\\', 'u', '0', '0', hex_char((c as u32) / 16), hex_char((c as u32) % 16)]
    } else {
        seq![c]
    }
}

/// The escaped body of a JSON string.
pub open spec fn esc(s: Seq<char>) -> Seq<char>
    decreases s.len(),
{
    if s.len() == 0 {
        Seq::empty()
    } else {
        esc_char(s[0]) + esc(s.skip(1))
    }
}

/// A whole JSON string: quote, escaped body, quote.
pub open spec fn jstr(s: Seq<char>) -> Seq<char> {
    seq!['"'] + esc(s) + seq!['"']
}

/// The comma-separated items of an array of strings.
pub open spec fn enc_strs_items(ss: Seq<Seq<char>>) -> Seq<char>
    decreases ss.len(),
{
    if ss.len() == 0 {
        Seq::empty()
    } else if ss.len() == 1 {
        jstr(ss[0])
    } else {
        jstr(ss[0]) + seq![','] + enc_strs_items(ss.skip(1))
    }
}

/// A JSON array of strings.
pub open spec fn enc_strs(ss: Seq<Seq<char>>) -> Seq<char> {
    seq!['['] + enc_strs_items(ss) + seq![']']
}

/// The comma-separated items of an array of byte values.
pub open spec fn enc_bytes_items(bs: Seq<u8>) -> Seq<char>
    decreases bs.len(),
{
    if bs.len() == 0 {
        Seq::empty()
    } else if bs.len() == 1 {
        dec_of(bs[0] as nat)
    } else {
        dec_of(bs[0] as nat) + seq![','] + enc_bytes_items(bs.skip(1))
    }
}

/// A JSON array of byte values.
pub open spec fn enc_bytes(bs: Seq<u8>) -> Seq<char> {
    seq!['['] + enc_bytes_items(bs) + seq![']']
}

/// One signature as a JSON object with its six fixed keys.
pub open spec fn enc_sig(v: SignatureView) -> Seq<char> {
    "{\"id\":"@ + jstr(v.id) + ",\"name\":"@ + jstr(v.name) + ",\"mime\":"@ + jstr(v.mime)
        + ",\"bytes\":"@ + enc_bytes(v.bytes) + ",\"naturalWidth\":"@ + dec_of(
        v.natural_w as nat,
    ) + ",\"naturalHeight\":"@ + dec_of(v.natural_h as nat) + seq!['}']
}

/// The comma-separated items of an array of signature objects.
pub open spec fn enc_sigs_items(vs: Seq<SignatureView>) -> Seq<char>
    decreases vs.len(),
{
    if vs.len() == 0 {
        Seq::empty()
    } else if vs.len() == 1 {
        enc_sig(vs[0])
    } else {
        enc_sig(vs[0]) + seq![','] + enc_sigs_items(vs.skip(1))
    }
}

/// A JSON array of signature objects.
pub open spec fn enc_sigs(vs: Seq<SignatureView>) -> Seq<char> {
    seq!['['] + enc_sigs_items(vs) + seq![']']
}

// ---------------------------------------------------------------------------
// The parser, working on a remaining-input suffix.
// ---------------------------------------------------------------------------
/// Consumes an exact literal prefix.
pub open spec fn sp_lit(lit: Seq<char>, s: Seq<char>) -> Option<Seq<char>> {
    if lit.len() <= s.len() && s.take(lit.len() as int) == lit {
        Some(s.skip(lit.len() as int))
    } else {
        None
    }
}

/// Consumes what follows a backslash inside a JSON string and yields the
/// character it denotes. `\uXXXX` is accepted for Unicode scalar values only
/// (surrogate escapes are rejected).
pub open spec fn sp_escape(s: Seq<char>) -> Option<(char, Seq<char>)> {
    if s.len() == 0 {
        None
    } else if s[0] == '"' || s[0] == '\\' || s[0] == '/' {
        Some((s[0], s.skip(1)))
    } else if s[0] == 'b' {
        Some(((8 as char), s.skip(1)))
    } else if s[0] == 'f' {
        Some(((12 as char), s.skip(1)))
    } else if s[0] == 'n' {
        Some(((10 as char), s.skip(1)))
    } else if s[0] == 'r' {
        Some(((13 as char), s.skip(1)))
    } else if s[0] == 't' {
        Some(((9 as char), s.skip(1)))
    } else if s[0] == 'u' && s.len() >= 5 {
        match (hex_val(s[1]), hex_val(s[2]), hex_val(s[3]), hex_val(s[4])) {
            (Some(h0), Some(h1), Some(h2), Some(h3)) => {
                let v = (h0 * 4096 + h1 * 256 + h2 * 16 + h3) as u32;
                if is_scalar(v) {
                    Some(((v as char), s.skip(5)))
                } else {
                    None
                }
            },
            _ => None,
        }
    } else {
        None
    }
}

/// Consumes the body of a JSON string up to and including the closing quote.
pub open spec fn sp_str_body(s: Seq<char>) -> Option<(Seq<char>, Seq<char>)>
    decreases s.len(),
{
    if s.len() == 0 {
        None
    } else if s[0] == '"' {
        Some((Seq::empty(), s.skip(1)))
    } else if s[0] == '\\' {
        match sp_escape(s.skip(1)) {
            Some((c, r)) => if r.len() < s.len() {
                match sp_str_body(r) {
                    Some((t, r2)) => Some((seq![c] + t, r2)),
                    None => None,
                }
            } else {
                None
            },
            None => None,
        }
    } else {
        match sp_str_body(s.skip(1)) {
            Some((t, r)) => Some((seq![s[0]] + t, r)),
            None => None,
        }
    }
}

/// Consumes a whole JSON string.
pub open spec fn sp_string(s: Seq<char>) -> Option<(Seq<char>, Seq<char>)> {
    if s.len() > 0 && s[0] == '"' {
        sp_str_body(s.skip(1))
    } else {
        None
    }
}

/// Consumes an unsigned decimal number of at most `max`.
pub open spec fn sp_uint(s: Seq<char>, max: nat) -> Option<(nat, Seq<char>)> {
    let k = digits_len(s);
    if k == 0 {
        None
    } else {
        let n = num_val(s.take(k));
        if n <= max {
            Some((n, s.skip(k)))
        } else {
            None
        }
    }
}

/// Consumes the items of a nonempty string array together with the closing
/// bracket.
pub open spec fn sp_strs_items(s: Seq<char>) -> Option<(Seq<Seq<char>>, Seq<char>)>
    decreases s.len(),
{
    match sp_string(s) {
        Some((x, r)) => if r.len() > 0 && r[0] == ']' {
            Some((seq![x], r.skip(1)))
        } else if r.len() > 0 && r[0] == ',' && r.len() < s.len() {
            match sp_strs_items(r.skip(1)) {
                Some((xs, r2)) => Some((seq![x] + xs, r2)),
                None => None,
            }
        } else {
            None
        },
        None => None,
    }
}

/// Consumes a JSON array of strings.
pub open spec fn sp_strs(s: Seq<char>) -> Option<(Seq<Seq<char>>, Seq<char>)> {
    if s.len() >= 2 && s[0] == '[' {
        if s[1] == ']' {
            Some((Seq::empty(), s.skip(2)))
        } else {
            sp_strs_items(s.skip(1))
        }
    } else {
        None
    }
}

/// Consumes the items of a nonempty byte array together with the closing
/// bracket.
pub open spec fn sp_bytes_items(s: Seq<char>) -> Option<(Seq<u8>, Seq<char>)>
    decreases s.len(),
{
    match sp_uint(s, 255) {
        Some((x, r)) => if r.len() > 0 && r[0] == ']' {
            Some((seq![x as u8], r.skip(1)))
        } else if r.len() > 0 && r[0] == ',' && r.len() < s.len() {
            match sp_bytes_items(r.skip(1)) {
                Some((xs, r2)) => Some((seq![x as u8] + xs, r2)),
                None => None,
            }
        } else {
            None
        },
        None => None,
    }
}

/// Consumes a JSON array of byte values.
pub open spec fn sp_bytes(s: Seq<char>) -> Option<(Seq<u8>, Seq<char>)> {
    if s.len() >= 2 && s[0] == '[' {
        if s[1] == ']' {
            Some((Seq::empty(), s.skip(2)))
        } else {
            sp_bytes_items(s.skip(1))
        }
    } else {
        None
    }
}

/// Consumes one signature object, with its six keys in canonical order.
pub open spec fn sp_sig(s: Seq<char>) -> Option<(SignatureView, Seq<char>)> {
    match sp_lit("{\"id\":"@, s) {
        Some(s1) => match sp_string(s1) {
            Some((id, s2)) => match sp_lit(",\"name\":"@, s2) {
                Some(s3) => match sp_string(s3) {
                    Some((name, s4)) => match sp_lit(",\"mime\":"@, s4) {
                        Some(s5) => match sp_string(s5) {
                            Some((mime, s6)) => match sp_lit(",\"bytes\":"@, s6) {
                                Some(s7) => match sp_bytes(s7) {
                                    Some((bytes, s8)) => match sp_lit(",\"naturalWidth\":"@, s8) {
                                        Some(s9) => match sp_uint(s9, u32::MAX as nat) {
                                            Some((w, s10)) => match sp_lit(
                                                ",\"naturalHeight\":"@,
                                                s10,
                                            ) {
                                                Some(s11) => match sp_uint(s11, u32::MAX as nat) {
                                                    Some((h, s12)) => if s12.len() > 0 && s12[0]
                                                        == '}' {
                                                        Some(
                                                            (
                                                                SignatureView {
                                                                    id: id,
                                                                    name: name,
                                                                    mime: mime,
                                                                    bytes: bytes,
                                                                    natural_w: w as u32,
                                                                    natural_h: h as u32,
                                                                },
                                                                s12.skip(1),
                                                            ),
                                                        )
                                                    } else {
                                                        None
                                                    },
                                                    None => None,
                                                },
                                                None => None,
                                            },
                                            None => None,
                                        },
                                        None => None,
                                    },
                                    None => None,
                                },
                                None => None,
                            },
                            None => None,
                        },
                        None => None,
                    },
                    None => None,
                },
                None => None,
            },
            None => None,
        },
        None => None,
    }
}

/// Consumes the items of a nonempty signature array together with the
/// closing bracket.
pub open spec fn sp_sigs_items(s: Seq<char>) -> Option<(Seq<SignatureView>, Seq<char>)>
    decreases s.len(),
{
    match sp_sig(s) {
        Some((x, r)) => if r.len() > 0 && r[0] == ']' {
            Some((seq![x], r.skip(1)))
        } else if r.len() > 0 && r[0] == ',' && r.len() < s.len() {
            match sp_sigs_items(r.skip(1)) {
                Some((xs, r2)) => Some((seq![x] + xs, r2)),
                None => None,
            }
        } else {
            None
        },
        None => None,
    }
}

/// Consumes a JSON array of signature objects.
pub open spec fn sp_sigs(s: Seq<char>) -> Option<(Seq<SignatureView>, Seq<char>)> {
    if s.len() >= 2 && s[0] == '[' {
        if s[1] == ']' {
            Some((Seq::empty(), s.skip(2)))
        } else {
            sp_sigs_items(s.skip(1))
        }
    } else {
        None
    }
}

/// The snippet collection denoted by a whole document, if it is valid.
pub open spec fn parse_snippets(s: Seq<char>) -> Option<Seq<Seq<char>>> {
    match sp_strs(s) {
        Some((xs, r)) => if r.len() == 0 {
            Some(xs)
        } else {
            None
        },
        None => None,
    }
}

/// The signature collection denoted by a whole document, if it is valid.
pub open spec fn parse_signatures(s: Seq<char>) -> Option<Seq<SignatureView>> {
    match sp_sigs(s) {
        Some((vs, r)) => if r.len() == 0 {
            Some(vs)
        } else {
            None
        },
        None => None,
    }
}

// ---------------------------------------------------------------------------
// Round-trip: parsing a canonical encoding yields the encoded value.
// ---------------------------------------------------------------------------
/// A literal parses off the front of itself.
pub proof fn lemma_sp_lit(lit: Seq<char>, rest: Seq<char>)
    ensures
        sp_lit(lit, lit + rest) == Some(rest),
{
    let s = lit + rest;
    assert(s.take(lit.len() as int) =~= lit);
    assert(s.skip(lit.len() as int) =~= rest);
}

/// The escaped body of `x`, followed by the closing quote, parses back to
/// `x`.
pub proof fn lemma_sp_body_esc(x: Seq<char>, rest: Seq<char>)
    ensures
        sp_str_body(esc(x) + seq!['"'] + rest) == Some((x, rest)),
    decreases x.len(),
{
    let s = esc(x) + seq!['"'] + rest;
    if x.len() == 0 {
        assert(s =~= seq!['"'] + rest);
        assert(s[0] == '"');
        assert(s.skip(1) =~= rest);
    } else {
        let c = x[0];
        let tail = x.skip(1);
        lemma_sp_body_esc(tail, rest);
        let s2 = esc(tail) + seq!['"'] + rest;
        assert(esc(x) == esc_char(c) + esc(tail));
        assert(s =~= esc_char(c) + s2);
        assert(seq![c] + tail =~= x);
        if c == '"' {
            assert(s =~= seq!['\\', '"'] + s2);
            assert(s.skip(1) =~= seq!['"'] + s2);
            assert((seq!['"'] + s2).skip(1) =~= s2);
            assert(sp_escape(s.skip(1)) == Some(('"', s2)));
        } else if c == '\\' {
            assert(s =~= seq!['\\', '\\'] + s2);
            assert(s.skip(1) =~= seq!['\\'] + s2);
            assert((seq!['\\'] + s2).skip(1) =~= s2);
            assert(sp_escape(s.skip(1)) == Some(('\\', s2)));
        } else if c as u32 == 8 {
            assert(s =~= seq!['\\', 'b'] + s2);
            assert(s.skip(1) =~= seq!['b'] + s2);
            assert((seq!['b'] + s2).skip(1) =~= s2);
            char_u32_cast(c, 8);
            assert(sp_escape(s.skip(1)) == Some((c, s2)));
        } else if c as u32 == 12 {
            assert(s =~= seq!['\\', 'f'] + s2);
            assert(s.skip(1) =~= seq!['f'] + s2);
            assert((seq!['f'] + s2).skip(1) =~= s2);
            char_u32_cast(c, 12);
            assert(sp_escape(s.skip(1)) == Some((c, s2)));
        } else if c as u32 == 10 {
            assert(s =~= seq!['\\', 'n'] + s2);
            assert(s.skip(1) =~= seq!['n'] + s2);
            assert((seq!['n'] + s2).skip(1) =~= s2);
            char_u32_cast(c, 10);
            assert(sp_escape(s.skip(1)) == Some((c, s2)));
        } else if c as u32 == 13 {
            assert(s =~= seq!['\\', 'r'] + s2);
            assert(s.skip(1) =~= seq!['r'] + s2);
            assert((seq!['r'] + s2).skip(1) =~= s2);
            char_u32_cast(c, 13);
            assert(sp_escape(s.skip(1)) == Some((c, s2)));
        } else if c as u32 == 9 {
            assert(s =~= seq!['\\', 't'] + s2);
            assert(s.skip(1) =~= seq!['t'] + s2);
            assert((seq!['t'] + s2).skip(1) =~= s2);
            char_u32_cast(c, 9);
            assert(sp_escape(s.skip(1)) == Some((c, s2)));
        } else if (c as u32) < 32 {
            let v = c as u32;
            let hc1 = hex_char(v / 16);
            let hc2 = hex_char(v % 16);
            let u = seq!['u', '0', '0', hc1, hc2] + s2;
            assert(s =~= seq!['\\', 'u', '0', '0', hc1, hc2] + s2);
            assert(s.skip(1) =~= u);
            assert(u[0] == 'u' && u.len() >= 5);
            lemma_hex_roundtrip(v / 16);
            lemma_hex_roundtrip(v % 16);
            assert(hex_val(u[1]) == Some(0u32) && hex_val(u[2]) == Some(0u32));
            assert(hex_val(u[3]) == Some(v / 16) && hex_val(u[4]) == Some(v % 16));
            assert((v / 16) * 16 + v % 16 == v) by (nonlinear_arith);
            assert(0u32 * 4096 + 0u32 * 256 + (v / 16) * 16 + (v % 16) == v);
            char_is_scalar(c);
            char_u32_cast(c, v);
            assert(u.skip(5) =~= s2);
            assert(sp_escape(s.skip(1)) == Some((c, s2)));
        } else {
            assert(esc_char(c) =~= seq![c]);
            assert(s[0] == c);
            assert(s.skip(1) =~= s2);
        }
    }
}

/// A canonically encoded string parses back to its value.
pub proof fn lemma_sp_string_enc(x: Seq<char>, rest: Seq<char>)
    ensures
        sp_string(jstr(x) + rest) == Some((x, rest)),
        (jstr(x) + rest).len() > rest.len() + 1,
        (jstr(x) + rest)[0] == '"',
{
    let s = jstr(x) + rest;
    assert(s =~= seq!['"'] + (esc(x) + seq!['"'] + rest));
    assert(s[0] == '"');
    assert(s.skip(1) =~= esc(x) + seq!['"'] + rest);
    lemma_sp_body_esc(x, rest);
}

/// A canonically encoded number, followed by anything that does not extend
/// its digit run, parses back to its value.
pub proof fn lemma_sp_uint_enc(n: nat, max: nat, rest: Seq<char>)
    requires
        n <= max,
        rest.len() == 0 || !is_digit(rest[0]),
    ensures
        sp_uint(dec_of(n) + rest, max) == Some((n, rest)),
        (dec_of(n) + rest).len() > rest.len(),
        is_digit((dec_of(n) + rest)[0]),
    decreases n,
{
    let s = dec_of(n) + rest;
    let k = dec_of(n).len() as int;
    lemma_dec_of_digits(n);
    assert(forall|j: int| 0 <= j < k ==> is_digit(#[trigger] s[j]));
    lemma_digits_len_at(s, k);
    assert(s.take(k) =~= dec_of(n));
    lemma_num_val_dec_of(n);
    assert(s.skip(k) =~= rest);
}

/// The encoded items of a nonempty string array, followed by the closing
/// bracket, parse back to the array.
pub proof fn lemma_sp_strs_items_enc(ss: Seq<Seq<char>>, rest: Seq<char>)
    requires
        ss.len() >= 1,
    ensures
        sp_strs_items(enc_strs_items(ss) + seq![']'] + rest) == Some((ss, rest)),
    decreases ss.len(),
{
    let s = enc_strs_items(ss) + seq![']'] + rest;
    if ss.len() == 1 {
        assert(s =~= jstr(ss[0]) + (seq![']'] + rest));
        lemma_sp_string_enc(ss[0], seq![']'] + rest);
        let r = seq![']'] + rest;
        assert(r[0] == ']');
        assert(r.skip(1) =~= rest);
        assert(seq![ss[0]] =~= ss);
    } else {
        let x0 = ss[0];
        let items2 = enc_strs_items(ss.skip(1));
        let r = seq![','] + items2 + seq![']'] + rest;
        assert(s =~= jstr(x0) + r);
        lemma_sp_string_enc(x0, r);
        assert(r[0] == ',');
        assert(r.len() < s.len());
        assert(r.skip(1) =~= items2 + seq![']'] + rest);
        lemma_sp_strs_items_enc(ss.skip(1), rest);
        assert(seq![x0] + ss.skip(1) =~= ss);
    }
}

/// A canonically encoded string array parses back to its value.
pub proof fn lemma_sp_strs_enc(ss: Seq<Seq<char>>, rest: Seq<char>)
    ensures
        sp_strs(enc_strs(ss) + rest) == Some((ss, rest)),
    decreases ss.len(),
{
    let s = enc_strs(ss) + rest;
    if ss.len() == 0 {
        assert(s =~= seq!['[', ']'] + rest);
        assert(s.len() >= 2 && s[0] == '[' && s[1] == ']');
        assert(s.skip(2) =~= rest);
        assert(Seq::<Seq<char>>::empty() =~= ss);
    } else {
        let items = enc_strs_items(ss);
        assert(s =~= seq!['['] + (items + seq![']'] + rest));
        lemma_sp_string_enc(ss[0], Seq::empty());
        if ss.len() == 1 {
            assert(items == jstr(ss[0]));
        }
        assert(items[0] == '"');
        assert(s.len() >= 2 && s[0] == '[' && s[1] == '"');
        assert(s.skip(1) =~= items + seq![']'] + rest);
        lemma_sp_strs_items_enc(ss, rest);
    }
}

/// The encoded items of a nonempty byte array, followed by the closing
/// bracket, parse back to the array.
pub proof fn lemma_sp_bytes_items_enc(bs: Seq<u8>, rest: Seq<char>)
    requires
        bs.len() >= 1,
    ensures
        sp_bytes_items(enc_bytes_items(bs) + seq![']'] + rest) == Some((bs, rest)),
    decreases bs.len(),
{
    let s = enc_bytes_items(bs) + seq![']'] + rest;
    if bs.len() == 1 {
        let r = seq![']'] + rest;
        assert(s =~= dec_of(bs[0] as nat) + r);
        assert(!is_digit(r[0]));
        lemma_sp_uint_enc(bs[0] as nat, 255, r);
        assert(r.skip(1) =~= rest);
        assert(seq![bs[0]] =~= bs);
    } else {
        let b0 = bs[0];
        let items2 = enc_bytes_items(bs.skip(1));
        let r = seq![','] + items2 + seq![']'] + rest;
        assert(s =~= dec_of(b0 as nat) + r);
        assert(!is_digit(r[0]));
        lemma_sp_uint_enc(b0 as nat, 255, r);
        assert(r[0] == ',');
        assert(r.len() < s.len());
        assert(r.skip(1) =~= items2 + seq![']'] + rest);
        lemma_sp_bytes_items_enc(bs.skip(1), rest);
        assert(seq![b0] + bs.skip(1) =~= bs);
    }
}

/// A canonically encoded byte array parses back to its value.
pub proof fn lemma_sp_bytes_enc(bs: Seq<u8>, rest: Seq<char>)
    ensures
        sp_bytes(enc_bytes(bs) + rest) == Some((bs, rest)),
{
    let s = enc_bytes(bs) + rest;
    if bs.len() == 0 {
        assert(s =~= seq!['[', ']'] + rest);
        assert(s.len() >= 2 && s[0] == '[' && s[1] == ']');
        assert(s.skip(2) =~= rest);
        assert(Seq::<u8>::empty() =~= bs);
    } else {
        let items = enc_bytes_items(bs);
        assert(s =~= seq!['['] + (items + seq![']'] + rest));
        lemma_sp_uint_enc(bs[0] as nat, 255, Seq::empty());
        if bs.len() == 1 {
            assert(items == dec_of(bs[0] as nat));
            assert(is_digit(items[0]));
        } else {
            assert(items == dec_of(bs[0] as nat) + seq![','] + enc_bytes_items(bs.skip(1)));
            lemma_dec_of_digits(bs[0] as nat);
            assert(items[0] == dec_of(bs[0] as nat)[0]);
            assert(is_digit(items[0]));
        }
        assert(s.len() >= 2 && s[0] == '[' && s[1] != ']');
        assert(s.skip(1) =~= items + seq![']'] + rest);
        lemma_sp_bytes_items_enc(bs, rest);
    }
}

/// A canonically encoded signature object parses back to its value.
#[verifier::rlimit(100)]
pub proof fn lemma_sp_sig_enc(v: SignatureView, rest: Seq<char>)
    ensures
        sp_sig(enc_sig(v) + rest) == Some((v, rest)),
        (enc_sig(v) + rest).len() > rest.len(),
        (enc_sig(v) + rest)[0] == '{',
{
    let s = enc_sig(v) + rest;
    let r12 = seq!['}'] + rest;
    let r11 = dec_of(v.natural_h as nat) + r12;
    let r10 = ",\"naturalHeight\":"@ + r11;
    let r9 = dec_of(v.natural_w as nat) + r10;
    let r8 = ",\"naturalWidth\":"@ + r9;
    let r7 = enc_bytes(v.bytes) + r8;
    let r6 = ",\"bytes\":"@ + r7;
    let r5 = jstr(v.mime) + r6;
    let r4 = ",\"mime\":"@ + r5;
    let r3 = jstr(v.name) + r4;
    let r2 = ",\"name\":"@ + r3;
    let r1 = jstr(v.id) + r2;
    assert(s =~= "{\"id\":"@ + r1);
    lemma_sp_lit("{\"id\":"@, r1);
    assert(sp_lit("{\"id\":"@, s) == Some(r1));
    lemma_sp_string_enc(v.id, r2);
    lemma_sp_lit(",\"name\":"@, r3);
    lemma_sp_string_enc(v.name, r4);
    lemma_sp_lit(",\"mime\":"@, r5);
    lemma_sp_string_enc(v.mime, r6);
    lemma_sp_lit(",\"bytes\":"@, r7);
    lemma_sp_bytes_enc(v.bytes, r8);
    lemma_sp_lit(",\"naturalWidth\":"@, r9);
    reveal_strlit(",\"naturalHeight\":");
    reveal_strlit("{\"id\":");
    assert(r10.len() > 0 && !is_digit(r10[0]));
    lemma_sp_uint_enc(v.natural_w as nat, u32::MAX as nat, r10);
    lemma_sp_lit(",\"naturalHeight\":"@, r11);
    assert(r12[0] == '}' && !is_digit(r12[0]));
    lemma_sp_uint_enc(v.natural_h as nat, u32::MAX as nat, r12);
    assert(r12.skip(1) =~= rest);
    assert(sp_sig(s) == Some(
        (
            SignatureView {
                id: v.id,
                name: v.name,
                mime: v.mime,
                bytes: v.bytes,
                natural_w: v.natural_w,
                natural_h: v.natural_h,
            },
            rest,
        ),
    ));
    assert(SignatureView {
        id: v.id,
        name: v.name,
        mime: v.mime,
        bytes: v.bytes,
        natural_w: v.natural_w,
        natural_h: v.natural_h,
    } == v);
    assert(s[0] == '{');
}

/// The encoded items of a nonempty signature array, followed by the closing
/// bracket, parse back to the array.
#[verifier::rlimit(100)]
pub proof fn lemma_sp_sigs_items_enc(vs: Seq<SignatureView>, rest: Seq<char>)
    requires
        vs.len() >= 1,
    ensures
        sp_sigs_items(enc_sigs_items(vs) + seq![']'] + rest) == Some((vs, rest)),
    decreases vs.len(),
{
    let s = enc_sigs_items(vs) + seq![']'] + rest;
    if vs.len() == 1 {
        let r = seq![']'] + rest;
        assert(s =~= enc_sig(vs[0]) + r);
        lemma_sp_sig_enc(vs[0], r);
        assert(r[0] == ']');
        assert(r.skip(1) =~= rest);
        assert(seq![vs[0]] =~= vs);
    } else {
        let x0 = vs[0];
        let items2 = enc_sigs_items(vs.skip(1));
        let r = seq![','] + items2 + seq![']'] + rest;
        assert(s =~= enc_sig(x0) + r);
        lemma_sp_sig_enc(x0, r);
        assert(r[0] == ',');
        assert(r.len() < s.len());
        assert(r.skip(1) =~= items2 + seq![']'] + rest);
        lemma_sp_sigs_items_enc(vs.skip(1), rest);
        assert(seq![x0] + vs.skip(1) =~= vs);
    }
}

/// A canonically encoded signature array parses back to its value.
pub proof fn lemma_sp_sigs_enc(vs: Seq<SignatureView>, rest: Seq<char>)
    ensures
        sp_sigs(enc_sigs(vs) + rest) == Some((vs, rest)),
{
    let s = enc_sigs(vs) + rest;
    if vs.len() == 0 {
        assert(s =~= seq!['[', ']'] + rest);
        assert(s.len() >= 2 && s[0] == '[' && s[1] == ']');
        assert(s.skip(2) =~= rest);
        assert(Seq::<SignatureView>::empty() =~= vs);
    } else {
        let items = enc_sigs_items(vs);
        assert(s =~= seq!['['] + (items + seq![']'] + rest));
        lemma_sp_sig_enc(vs[0], Seq::empty());
        reveal_strlit("{\"id\":");
        if vs.len() == 1 {
            assert(items == enc_sig(vs[0]));
        } else {
            assert(items == enc_sig(vs[0]) + seq![','] + enc_sigs_items(vs.skip(1)));
            assert(items[0] == (enc_sig(vs[0]) + Seq::empty())[0]);
        }
        assert(items[0] == '{');
        assert(s.len() >= 2 && s[0] == '[' && s[1] != ']');
        assert(s.skip(1) =~= items + seq![']'] + rest);
        lemma_sp_sigs_items_enc(vs, rest);
    }
}

/// Round trip for the snippet collection: a canonical document parses back
/// to exactly the collection it encodes.
pub proof fn lemma_snippets_roundtrip(ss: Seq<Seq<char>>)
    ensures
        parse_snippets(enc_strs(ss)) == Some(ss),
{
    lemma_sp_strs_enc(ss, Seq::empty());
    assert(enc_strs(ss) + Seq::<char>::empty() =~= enc_strs(ss));
}

/// Round trip for the signature collection: a canonical document parses back
/// to exactly the collection it encodes.
pub proof fn lemma_signatures_roundtrip(vs: Seq<SignatureView>)
    ensures
        parse_signatures(enc_sigs(vs)) == Some(vs),
{
    lemma_sp_sigs_enc(vs, Seq::empty());
    assert(enc_sigs(vs) + Seq::<char>::empty() =~= enc_sigs(vs));
}

} // verus!
