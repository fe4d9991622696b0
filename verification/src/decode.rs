//! The executable JSON parser for the two collections, proved to compute
//! exactly the parsing functions of [`crate::json`].

use vstd::prelude::*;
use vstd::utf8::{char_u32_cast, is_scalar};
use crate::dec::{
    digit_val,
    digits_len,
    is_digit,
    lemma_digits_len_at,
    lemma_digits_len_ge,
    lemma_digits_len_le,
    lemma_num_val_prefix_le,
    num_val,
};
use crate::errors::StoreError;
use crate::json::{
    hex_val,
    parse_signatures,
    parse_snippets,
    sp_escape,
    sp_lit,
    sp_sig,
    sp_sigs,
    sp_sigs_items,
    sp_str_body,
    sp_string,
    sp_strs,
    sp_strs_items,
    sp_bytes,
    sp_bytes_items,
    sp_uint,
};
use crate::model::{SignatureView, StoredSignature};
use crate::text::{chars_string, str_chars};

verus! {

/// Relies on char::from_u32: it returns `Some` exactly for Unicode scalar
/// values, and the returned character has the given code point.
#[verifier::external_body]
fn char_from_u32(v: u32) -> (r: Option<char>)
    ensures
        r is Some <==> is_scalar(v),
        r matches Some(c) ==> c as u32 == v,
{
    char::from_u32(v)
}

/// Prefixes the parsed items of `x` (if any) with `p`.
pub open spec fn prepend<T>(p: Seq<T>, x: Option<(Seq<T>, Seq<char>)>) -> Option<
    (Seq<T>, Seq<char>),
> {
    match x {
        Some(q) => Some((p + q.0, q.1)),
        None => None,
    }
}

proof fn lemma_prepend_assoc<T>(p: Seq<T>, q: Seq<T>, x: Option<(Seq<T>, Seq<char>)>)
    ensures
        prepend(p, prepend(q, x)) == prepend(p + q, x),
{
    if x is Some {
        assert((p + q) + x->Some_0.0 =~= p + (q + x->Some_0.0));
    }
}

proof fn lemma_prepend_empty<T>(x: Option<(Seq<T>, Seq<char>)>)
    ensures
        prepend(Seq::<T>::empty(), x) == x,
{
    if x is Some {
        assert(Seq::<T>::empty() + x->Some_0.0 =~= x->Some_0.0);
    }
}

/// The value of one decimal digit character.
fn digit_val_of(c: char) -> (r: Option<u32>)
    ensures
        r is Some <==> is_digit(c),
        r matches Some(d) ==> d == digit_val(c) && d < 10,
{
    if c == '0' {
        Some(0)
    } else if c == '1' {
        Some(1)
    } else if c == '2' {
        Some(2)
    } else if c == '3' {
        Some(3)
    } else if c == '4' {
        Some(4)
    } else if c == '5' {
        Some(5)
    } else if c == '6' {
        Some(6)
    } else if c == '7' {
        Some(7)
    } else if c == '8' {
        Some(8)
    } else if c == '9' {
        Some(9)
    } else {
        None
    }
}

/// The value of one hexadecimal digit character.
fn hex_val_of(c: char) -> (r: Option<u32>)
    ensures
        r == hex_val(c),
{
    match digit_val_of(c) {
        Some(d) => Some(d),
        None => {
            if c == 'a' || c == 'A' {
                Some(10)
            } else if c == 'b' || c == 'B' {
                Some(11)
            } else if c == 'c' || c == 'C' {
                Some(12)
            } else if c == 'd' || c == 'D' {
                Some(13)
            } else if c == 'e' || c == 'E' {
                Some(14)
            } else if c == 'f' || c == 'F' {
                Some(15)
            } else {
                None
            }
        },
    }
}

/// Consumes what follows a backslash inside a string.
fn p_escape(v: &Vec<char>, i: usize) -> (r: Option<(char, usize)>)
    requires
        i <= v@.len(),
    ensures
        (r is None) == (sp_escape(v@.skip(i as int)) is None),
        r matches Some(p) ==> i < p.1 <= v@.len() && sp_escape(v@.skip(i as int)) == Some(
            (p.0, v@.skip(p.1 as int)),
        ),
{
    let ghost s = v@.skip(i as int);
    if i >= v.len() {
        return None;
    }
    let c = v[i];
    proof {
        assert(s[0] == v@[i as int]);
        assert(s.skip(1) =~= v@.skip(i + 1));
    }
    if c == '"' || c == '\\' || c == '/' {
        Some((c, i + 1))
    } else if c == 'b' {
        proof {
            assert('\u{8}' as u32 == 8);
            char_u32_cast('\u{8}', 8);
        }
        Some(('\u{8}', i + 1))
    } else if c == 'f' {
        proof {
            assert('\u{c}' as u32 == 12);
            char_u32_cast('\u{c}', 12);
        }
        Some(('\u{c}', i + 1))
    } else if c == 'n' {
        proof {
            assert('\n' as u32 == 10);
            char_u32_cast('\n', 10);
        }
        Some(('\n', i + 1))
    } else if c == 'r' {
        proof {
            assert('\r' as u32 == 13);
            char_u32_cast('\r', 13);
        }
        Some(('\r', i + 1))
    } else if c == 't' {
        proof {
            assert('\t' as u32 == 9);
            char_u32_cast('\t', 9);
        }
        Some(('\t', i + 1))
    } else if c == 'u' {
        if v.len() - i < 5 {
            return None;
        }
        let h0 = hex_val_of(v[i + 1]);
        let h1 = hex_val_of(v[i + 2]);
        let h2 = hex_val_of(v[i + 3]);
        let h3 = hex_val_of(v[i + 4]);
        proof {
            assert(s[1] == v@[i + 1] && s[2] == v@[i + 2] && s[3] == v@[i + 3] && s[4] == v@[i
                + 4]);
        }
        match (h0, h1, h2, h3) {
            (Some(d0), Some(d1), Some(d2), Some(d3)) => {
                let val = d0 * 4096 + d1 * 256 + d2 * 16 + d3;
                match char_from_u32(val) {
                    Some(c2) => {
                        proof {
                            char_u32_cast(c2, val);
                            assert(s.skip(5) =~= v@.skip(i + 5));
                        }
                        Some((c2, i + 5))
                    },
                    None => None,
                }
            },
            _ => None,
        }
    } else {
        None
    }
}

/// Consumes a string body up to and including the closing quote,
/// accumulating the denoted characters.
fn p_str_body(v: &Vec<char>, i: usize) -> (r: Option<(Vec<char>, usize)>)
    requires
        i <= v@.len(),
    ensures
        (r is None) == (sp_str_body(v@.skip(i as int)) is None),
        r matches Some(p) ==> i < p.1 <= v@.len() && sp_str_body(v@.skip(i as int)) == Some(
            (p.0@, v@.skip(p.1 as int)),
        ),
{
    let mut out: Vec<char> = Vec::new();
    let mut j: usize = i;
    proof {
        lemma_prepend_empty(sp_str_body(v@.skip(i as int)));
    }
    loop
        invariant
            i <= j <= v@.len(),
            sp_str_body(v@.skip(i as int)) == prepend(out@, sp_str_body(v@.skip(j as int))),
        decreases v@.len() - j,
    {
        let ghost sj = v@.skip(j as int);
        if j >= v.len() {
            return None;
        }
        let c = v[j];
        proof {
            assert(sj[0] == v@[j as int]);
            assert(sj.skip(1) =~= v@.skip(j + 1));
        }
        if c == '"' {
            proof {
                assert(out@ + Seq::<char>::empty() =~= out@);
            }
            return Some((out, j + 1));
        } else if c == '\\' {
            match p_escape(v, j + 1) {
                None => {
                    return None;
                },
                Some((c2, j2)) => {
                    proof {
                        assert(sp_str_body(sj) == prepend(seq![c2], sp_str_body(v@.skip(
                            j2 as int,
                        ))));
                        lemma_prepend_assoc(out@, seq![c2], sp_str_body(v@.skip(j2 as int)));
                        assert(out@ + seq![c2] =~= out@.push(c2));
                    }
                    out.push(c2);
                    j = j2;
                },
            }
        } else {
            proof {
                assert(sp_str_body(sj) == prepend(seq![c], sp_str_body(v@.skip(j + 1))));
                lemma_prepend_assoc(out@, seq![c], sp_str_body(v@.skip(j + 1)));
                assert(out@ + seq![c] =~= out@.push(c));
            }
            out.push(c);
            j = j + 1;
        }
    }
}

/// Consumes a whole JSON string.
fn p_string(v: &Vec<char>, i: usize) -> (r: Option<(Vec<char>, usize)>)
    requires
        i <= v@.len(),
    ensures
        (r is None) == (sp_string(v@.skip(i as int)) is None),
        r matches Some(p) ==> i < p.1 <= v@.len() && sp_string(v@.skip(i as int)) == Some(
            (p.0@, v@.skip(p.1 as int)),
        ),
{
    let ghost s = v@.skip(i as int);
    if i >= v.len() {
        return None;
    }
    proof {
        assert(s[0] == v@[i as int]);
        assert(s.skip(1) =~= v@.skip(i + 1));
    }
    if v[i] != '"' {
        return None;
    }
    p_str_body(v, i + 1)
}

/// Consumes an unsigned decimal number of at most `max`.
fn p_uint(v: &Vec<char>, i: usize, max: u32) -> (r: Option<(u32, usize)>)
    requires
        i <= v@.len(),
    ensures
        (r is None) == (sp_uint(v@.skip(i as int), max as nat) is None),
        r matches Some(p) ==> i < p.1 <= v@.len() && p.0 <= max && sp_uint(
            v@.skip(i as int),
            max as nat,
        ) == Some((p.0 as nat, v@.skip(p.1 as int))),
{
    let ghost s = v@.skip(i as int);
    if i >= v.len() {
        proof {
            assert(digits_len(s) == 0);
        }
        return None;
    }
    proof {
        assert(s[0] == v@[i as int]);
    }
    if digit_val_of(v[i]).is_none() {
        proof {
            assert(digits_len(s) == 0);
        }
        return None;
    }
    let mut j: usize = i;
    let mut acc: u64 = 0;
    loop
        invariant
            i <= j <= v@.len(),
            i < v@.len(),
            s == v@.skip(i as int),
            s.len() > 0 && is_digit(s[0]),
            forall|m: int| 0 <= m < j - i ==> is_digit(#[trigger] s[m]),
            acc == num_val(s.take(j - i)),
            acc <= max as u64,
            max <= u32::MAX,
        decreases v@.len() - j,
    {
        let done = if j >= v.len() {
            true
        } else {
            let c = v[j];
            proof {
                assert(s[j - i] == v@[j as int]);
            }
            match digit_val_of(c) {
                None => true,
                Some(d) => {
                    acc = acc * 10 + (d as u64);
                    j = j + 1;
                    proof {
                        assert(s.take(j - i).drop_last() =~= s.take(j - i - 1));
                        assert(s.take(j - i).last() == s[j - i - 1]);
                    }
                    if acc > max as u64 {
                        proof {
                            let k0 = digits_len(s);
                            lemma_digits_len_ge(s, j - i);
                            lemma_digits_len_le(s);
                            lemma_num_val_prefix_le(s.take(k0), j - i);
                            assert(s.take(k0).take(j - i) =~= s.take(j - i));
                            assert(num_val(s.take(k0)) >= acc);
                        }
                        return None;
                    }
                    false
                },
            }
        };
        if done {
            proof {
                lemma_digits_len_at(s, j - i);
                assert(s.skip(j - i) =~= v@.skip(j as int));
                assert(j > i);
            }
            return Some((acc as u32, j));
        }
    }
}

/// Consumes an exact literal.
fn expect_str(v: &Vec<char>, i: usize, lit: &str) -> (r: Option<usize>)
    requires
        i <= v@.len(),
    ensures
        (r is None) == (sp_lit(lit@, v@.skip(i as int)) is None),
        r matches Some(j) ==> i <= j <= v@.len() && sp_lit(lit@, v@.skip(i as int)) == Some(
            v@.skip(j as int),
        ),
{
    let ghost s = v@.skip(i as int);
    let n = lit.unicode_len();
    let vlen = v.len();
    if n > vlen - i {
        return None;
    }
    let mut k: usize = 0;
    while k < n
        invariant
            k <= n,
            n == lit@.len(),
            i + n <= vlen,
            vlen == v@.len(),
            s == v@.skip(i as int),
            forall|m: int| 0 <= m < k ==> lit@[m] == s[m],
        decreases n - k,
    {
        let c = lit.get_char(k);
        if c != v[i + k] {
            proof {
                assert(s[k as int] == v@[i + k]);
                if s.take(n as int) == lit@ {
                    assert(s.take(n as int)[k as int] == lit@[k as int]);
                    assert(false);
                }
            }
            return None;
        }
        proof {
            assert(s[k as int] == v@[i + k]);
        }
        k = k + 1;
    }
    proof {
        assert(s.take(n as int) =~= lit@);
        assert(s.skip(n as int) =~= v@.skip((i + n) as int));
    }
    Some(i + n)
}

/// Consumes a JSON array of strings.
#[verifier::loop_isolation(false)]
fn p_strs(v: &Vec<char>, i: usize) -> (r: Option<(Vec<String>, usize)>)
    requires
        i <= v@.len(),
    ensures
        (r is None) == (sp_strs(v@.skip(i as int)) is None),
        r matches Some(p) ==> i < p.1 <= v@.len() && sp_strs(v@.skip(i as int)) == Some(
            (p.0.deep_view(), v@.skip(p.1 as int)),
        ),
{
    let ghost s = v@.skip(i as int);
    if v.len() - i < 2 {
        return None;
    }
    proof {
        assert(s[0] == v@[i as int] && s[1] == v@[i + 1]);
    }
    if v[i] != '[' {
        return None;
    }
    if v[i + 1] == ']' {
        let out: Vec<String> = Vec::new();
        proof {
            assert(out.deep_view() =~= Seq::<Seq<char>>::empty());
            assert(s.skip(2) =~= v@.skip(i + 2));
        }
        return Some((out, i + 2));
    }
    let ghost s1 = v@.skip(i + 1);
    let mut out: Vec<String> = Vec::new();
    proof {
        assert(s.skip(1) =~= s1);
        assert(sp_strs(s) == sp_strs_items(s1));
        lemma_prepend_empty(sp_strs_items(s1));
        assert(out.deep_view() =~= Seq::<Seq<char>>::empty());
        assert(Seq::<Seq<char>>::empty() + Seq::<Seq<char>>::empty() =~= Seq::<Seq<char>>::empty());
    }
    let mut j: usize = i + 1;
    loop
        invariant
            i + 1 <= j <= v@.len(),
            s1 == v@.skip(i + 1),
            sp_strs_items(s1) == prepend(out.deep_view(), sp_strs_items(v@.skip(j as int))),
        decreases v@.len() - j,
    {
        let ghost sj = v@.skip(j as int);
        let ghost dv_old = out.deep_view();
        match p_string(v, j) {
            None => {
                return None;
            },
            Some((x, j2)) => {
                let xs = chars_string(&x);
                out.push(xs);
                proof {
                    assert(out.deep_view() =~= dv_old.push(x@));
                }
                if j2 >= v.len() {
                    proof {
                        assert(v@.skip(j2 as int).len() == 0);
                    }
                    return None;
                }
                let c = v[j2];
                proof {
                    assert(v@.skip(j2 as int)[0] == v@[j2 as int]);
                }
                if c == ']' {
                    proof {
                        assert(v@.skip(j2 as int).skip(1) =~= v@.skip(j2 + 1));
                        assert(sp_strs_items(sj) == Some(
                            (seq![x@], v@.skip(j2 + 1)),
                        ));
                        assert(dv_old + seq![x@] =~= out.deep_view());
                    }
                    return Some((out, j2 + 1));
                } else if c == ',' {
                    proof {
                        assert(v@.skip(j2 as int).skip(1) =~= v@.skip(j2 + 1));
                        assert(sp_strs_items(sj) == prepend(seq![x@], sp_strs_items(v@.skip(j2
                            + 1))));
                        lemma_prepend_assoc(dv_old, seq![x@], sp_strs_items(v@.skip(j2 + 1)));
                        assert(dv_old + seq![x@] =~= out.deep_view());
                    }
                    j = j2 + 1;
                } else {
                    return None;
                }
            },
        }
    }
}

/// Consumes a JSON array of byte values.
#[verifier::loop_isolation(false)]
fn p_bytes(v: &Vec<char>, i: usize) -> (r: Option<(Vec<u8>, usize)>)
    requires
        i <= v@.len(),
    ensures
        (r is None) == (sp_bytes(v@.skip(i as int)) is None),
        r matches Some(p) ==> i < p.1 <= v@.len() && sp_bytes(v@.skip(i as int)) == Some(
            (p.0@, v@.skip(p.1 as int)),
        ),
{
    let ghost s = v@.skip(i as int);
    if v.len() - i < 2 {
        return None;
    }
    proof {
        assert(s[0] == v@[i as int] && s[1] == v@[i + 1]);
    }
    if v[i] != '[' {
        return None;
    }
    if v[i + 1] == ']' {
        let out: Vec<u8> = Vec::new();
        proof {
            assert(out@ =~= Seq::<u8>::empty());
            assert(s.skip(2) =~= v@.skip(i + 2));
        }
        return Some((out, i + 2));
    }
    let ghost s1 = v@.skip(i + 1);
    let mut out: Vec<u8> = Vec::new();
    proof {
        assert(s.skip(1) =~= s1);
        assert(sp_bytes(s) == sp_bytes_items(s1));
        lemma_prepend_empty(sp_bytes_items(s1));
        assert(out@ =~= Seq::<u8>::empty());
    }
    let mut j: usize = i + 1;
    loop
        invariant
            i + 1 <= j <= v@.len(),
            s1 == v@.skip(i + 1),
            sp_bytes_items(s1) == prepend(out@, sp_bytes_items(v@.skip(j as int))),
        decreases v@.len() - j,
    {
        let ghost sj = v@.skip(j as int);
        let ghost dv_old = out@;
        match p_uint(v, j, 255) {
            None => {
                return None;
            },
            Some((x, j2)) => {
                let b = x as u8;
                out.push(b);
                if j2 >= v.len() {
                    proof {
                        assert(v@.skip(j2 as int).len() == 0);
                    }
                    return None;
                }
                let c = v[j2];
                proof {
                    assert(v@.skip(j2 as int)[0] == v@[j2 as int]);
                }
                if c == ']' {
                    proof {
                        assert(v@.skip(j2 as int).skip(1) =~= v@.skip(j2 + 1));
                        assert(sp_bytes_items(sj) == Some((seq![b], v@.skip(j2 + 1))));
                        assert(dv_old + seq![b] =~= out@);
                    }
                    return Some((out, j2 + 1));
                } else if c == ',' {
                    proof {
                        assert(v@.skip(j2 as int).skip(1) =~= v@.skip(j2 + 1));
                        assert(sp_bytes_items(sj) == prepend(seq![b], sp_bytes_items(v@.skip(j2
                            + 1))));
                        lemma_prepend_assoc(dv_old, seq![b], sp_bytes_items(v@.skip(j2 + 1)));
                        assert(dv_old + seq![b] =~= out@);
                    }
                    j = j2 + 1;
                } else {
                    return None;
                }
            },
        }
    }
}

/// Consumes one signature object.
fn p_sig(v: &Vec<char>, i: usize) -> (r: Option<(StoredSignature, usize)>)
    requires
        i <= v@.len(),
    ensures
        (r is None) == (sp_sig(v@.skip(i as int)) is None),
        r matches Some(p) ==> i < p.1 <= v@.len() && sp_sig(v@.skip(i as int)) == Some(
            (p.0@, v@.skip(p.1 as int)),
        ),
{
    let ghost s = v@.skip(i as int);
    let j1 = match expect_str(v, i, "{\"id\":") {
        None => {
            return None;
        },
        Some(j) => j,
    };
    let (id, j2) = match p_string(v, j1) {
        None => {
            return None;
        },
        Some(p) => p,
    };
    let j3 = match expect_str(v, j2, ",\"name\":") {
        None => {
            return None;
        },
        Some(j) => j,
    };
    let (name, j4) = match p_string(v, j3) {
        None => {
            return None;
        },
        Some(p) => p,
    };
    let j5 = match expect_str(v, j4, ",\"mime\":") {
        None => {
            return None;
        },
        Some(j) => j,
    };
    let (mime, j6) = match p_string(v, j5) {
        None => {
            return None;
        },
        Some(p) => p,
    };
    let j7 = match expect_str(v, j6, ",\"bytes\":") {
        None => {
            return None;
        },
        Some(j) => j,
    };
    let (bytes, j8) = match p_bytes(v, j7) {
        None => {
            return None;
        },
        Some(p) => p,
    };
    let j9 = match expect_str(v, j8, ",\"naturalWidth\":") {
        None => {
            return None;
        },
        Some(j) => j,
    };
    let (w, j10) = match p_uint(v, j9, u32::MAX) {
        None => {
            return None;
        },
        Some(p) => p,
    };
    let j11 = match expect_str(v, j10, ",\"naturalHeight\":") {
        None => {
            return None;
        },
        Some(j) => j,
    };
    let (h, j12) = match p_uint(v, j11, u32::MAX) {
        None => {
            return None;
        },
        Some(p) => p,
    };
    if j12 >= v.len() {
        proof {
            assert(v@.skip(j12 as int).len() == 0);
        }
        return None;
    }
    proof {
        assert(v@.skip(j12 as int)[0] == v@[j12 as int]);
        assert(v@.skip(j12 as int).skip(1) =~= v@.skip(j12 + 1));
    }
    if v[j12] != '}' {
        return None;
    }
    let sig = StoredSignature {
        id: chars_string(&id),
        name: chars_string(&name),
        mime: chars_string(&mime),
        bytes: bytes,
        natural_w: w,
        natural_h: h,
    };
    proof {
        assert(sig@ == (SignatureView {
            id: id@,
            name: name@,
            mime: mime@,
            bytes: sig.bytes@,
            natural_w: w,
            natural_h: h,
        }));
    }
    Some((sig, j12 + 1))
}

/// Consumes a JSON array of signature objects.
#[verifier::rlimit(100)]
#[verifier::loop_isolation(false)]
fn p_sigs(v: &Vec<char>, i: usize) -> (r: Option<(Vec<StoredSignature>, usize)>)
    requires
        i <= v@.len(),
    ensures
        (r is None) == (sp_sigs(v@.skip(i as int)) is None),
        r matches Some(p) ==> i < p.1 <= v@.len() && sp_sigs(v@.skip(i as int)) == Some(
            (p.0.deep_view(), v@.skip(p.1 as int)),
        ),
{
    let ghost s = v@.skip(i as int);
    if v.len() - i < 2 {
        return None;
    }
    proof {
        assert(s[0] == v@[i as int] && s[1] == v@[i + 1]);
    }
    if v[i] != '[' {
        return None;
    }
    if v[i + 1] == ']' {
        let out: Vec<StoredSignature> = Vec::new();
        proof {
            assert(out.deep_view() =~= Seq::<SignatureView>::empty());
            assert(s.skip(2) =~= v@.skip(i + 2));
        }
        return Some((out, i + 2));
    }
    let ghost s1 = v@.skip(i + 1);
    let mut out: Vec<StoredSignature> = Vec::new();
    proof {
        assert(s.skip(1) =~= s1);
        assert(sp_sigs(s) == sp_sigs_items(s1));
        lemma_prepend_empty(sp_sigs_items(s1));
        assert(out.deep_view() =~= Seq::<SignatureView>::empty());
    }
    let mut j: usize = i + 1;
    loop
        invariant
            i + 1 <= j <= v@.len(),
            s1 == v@.skip(i + 1),
            sp_sigs_items(s1) == prepend(out.deep_view(), sp_sigs_items(v@.skip(j as int))),
        decreases v@.len() - j,
    {
        let ghost sj = v@.skip(j as int);
        let ghost dv_old = out.deep_view();
        match p_sig(v, j) {
            None => {
                return None;
            },
            Some((x, j2)) => {
                let ghost xv = x@;
                out.push(x);
                proof {
                    assert(out.deep_view() =~= dv_old.push(xv));
                }
                if j2 >= v.len() {
                    proof {
                        assert(v@.skip(j2 as int).len() == 0);
                    }
                    return None;
                }
                let c = v[j2];
                proof {
                    assert(v@.skip(j2 as int)[0] == v@[j2 as int]);
                }
                if c == ']' {
                    proof {
                        assert(v@.skip(j2 as int).skip(1) =~= v@.skip(j2 + 1));
                        assert(sp_sigs_items(sj) == Some((seq![xv], v@.skip(j2 + 1))));
                        assert(dv_old + seq![xv] =~= out.deep_view());
                    }
                    return Some((out, j2 + 1));
                } else if c == ',' {
                    proof {
                        assert(v@.skip(j2 as int).skip(1) =~= v@.skip(j2 + 1));
                        assert(sp_sigs_items(sj) == prepend(seq![xv], sp_sigs_items(v@.skip(j2
                            + 1))));
                        lemma_prepend_assoc(dv_old, seq![xv], sp_sigs_items(v@.skip(j2 + 1)));
                        assert(dv_old + seq![xv] =~= out.deep_view());
                    }
                    j = j2 + 1;
                } else {
                    return None;
                }
            },
        }
    }
}

/// Parses a whole snippet-collection document.
///
/// Returns the collection exactly when the text is a valid snippet document;
/// any other text is a decode error.
pub fn decode_snippets(text: &str) -> (r: Result<Vec<String>, StoreError>)
    ensures
        r matches Ok(c) ==> parse_snippets(text@) == Some(c.deep_view()),
        r matches Err(e) ==> e == StoreError::DecodeError && parse_snippets(text@) is None,
{
    let cs = str_chars(text);
    proof {
        assert(cs@.skip(0) =~= cs@);
    }
    match p_strs(&cs, 0) {
        Some((out, j)) => {
            if j == cs.len() {
                proof {
                    assert(cs@.skip(j as int).len() == 0);
                }
                Ok(out)
            } else {
                Err(StoreError::DecodeError)
            }
        },
        None => Err(StoreError::DecodeError),
    }
}

/// Parses a whole signature-collection document.
///
/// Returns the collection exactly when the text is a valid signature
/// document; any other text is a decode error.
pub fn decode_signatures(text: &str) -> (r: Result<Vec<StoredSignature>, StoreError>)
    ensures
        r matches Ok(c) ==> parse_signatures(text@) == Some(c.deep_view()),
        r matches Err(e) ==> e == StoreError::DecodeError && parse_signatures(text@) is None,
{
    let cs = str_chars(text);
    proof {
        assert(cs@.skip(0) =~= cs@);
    }
    match p_sigs(&cs, 0) {
        Some((out, j)) => {
            if j == cs.len() {
                proof {
                    assert(cs@.skip(j as int).len() == 0);
                }
                Ok(out)
            } else {
                Err(StoreError::DecodeError)
            }
        },
        None => Err(StoreError::DecodeError),
    }
}

} // verus!
