//! The executable JSON encoder for the two collections, proved to produce
//! exactly the canonical encoding of [`crate::json`].

use vstd::prelude::*;
use crate::dec::push_dec;
use crate::json::{
    enc_bytes,
    enc_bytes_items,
    enc_sig,
    enc_sigs,
    enc_sigs_items,
    enc_strs,
    enc_strs_items,
    esc,
    esc_char,
    hex_char,
    jstr,
};
use crate::model::StoredSignature;
use crate::text::{push_char, str_chars};

verus! {

fn hex_of(d: u32) -> (r: char)
    requires
        d < 16,
    ensures
        r == hex_char(d),
{
    if d == 0 {
        '0'
    } else if d == 1 {
        '1'
    } else if d == 2 {
        '2'
    } else if d == 3 {
        '3'
    } else if d == 4 {
        '4'
    } else if d == 5 {
        '5'
    } else if d == 6 {
        '6'
    } else if d == 7 {
        '7'
    } else if d == 8 {
        '8'
    } else if d == 9 {
        '9'
    } else if d == 10 {
        'a'
    } else if d == 11 {
        'b'
    } else if d == 12 {
        'c'
    } else if d == 13 {
        'd'
    } else if d == 14 {
        'e'
    } else {
        'f'
    }
}

/// Appends the JSON escape of one string character.
fn push_escaped(out: &mut String, c: char)
    ensures
        final(out)@ == old(out)@ + esc_char(c),
{
    let v = c as u32;
    if c == '"' {
        push_char(out, '\\');
        push_char(out, '"');
        proof {
            assert(out@ =~= old(out)@ + esc_char(c));
        }
    } else if c == '\\' {
        push_char(out, '\\');
        push_char(out, '\\');
        proof {
            assert(out@ =~= old(out)@ + esc_char(c));
        }
    } else if v == 8 {
        push_char(out, '\\');
        push_char(out, 'b');
        proof {
            assert(out@ =~= old(out)@ + esc_char(c));
        }
    } else if v == 12 {
        push_char(out, '\\');
        push_char(out, 'f');
        proof {
            assert(out@ =~= old(out)@ + esc_char(c));
        }
    } else if v == 10 {
        push_char(out, '\\');
        push_char(out, 'n');
        proof {
            assert(out@ =~= old(out)@ + esc_char(c));
        }
    } else if v == 13 {
        push_char(out, '\\');
        push_char(out, 'r');
        proof {
            assert(out@ =~= old(out)@ + esc_char(c));
        }
    } else if v == 9 {
        push_char(out, '\\');
        push_char(out, 't');
        proof {
            assert(out@ =~= old(out)@ + esc_char(c));
        }
    } else if v < 32 {
        push_char(out, '\\');
        push_char(out, 'u');
        push_char(out, '0');
        push_char(out, '0');
        push_char(out, hex_of(v / 16));
        push_char(out, hex_of(v % 16));
        proof {
            assert(out@ =~= old(out)@ + esc_char(c));
        }
    } else {
        push_char(out, c);
        proof {
            assert(out@ =~= old(out)@ + esc_char(c));
        }
    }
}

/// Appends a whole JSON string (quotes and escaped body).
fn push_jstr(out: &mut String, s: &String)
    ensures
        final(out)@ == old(out)@ + jstr(s@),
{
    push_char(out, '"');
    let cs = str_chars(s.as_str());
    proof {
        assert(out@ =~= old(out)@ + seq!['"']);
        assert(cs@.skip(0) =~= cs@);
    }
    let mut k: usize = 0;
    while k < cs.len()
        invariant
            k <= cs@.len(),
            cs@ == s@,
            old(out)@ + seq!['"'] + esc(cs@) == out@ + esc(cs@.skip(k as int)),
        decreases cs@.len() - k,
    {
        push_escaped(out, cs[k]);
        k = k + 1;
        proof {
            assert(cs@.skip(k - 1).skip(1) =~= cs@.skip(k as int));
        }
    }
    proof {
        assert(esc(cs@.skip(cs@.len() as int)) =~= Seq::<char>::empty());
        assert(out@ + Seq::<char>::empty() =~= out@);
    }
    push_char(out, '"');
    proof {
        assert(old(out)@ + seq!['"'] + esc(s@) + seq!['"'] =~= old(out)@ + jstr(s@));
    }
}

/// Renders the snippet collection as its canonical JSON document.
pub fn encode_snippets(snippets: &Vec<String>) -> (r: String)
    ensures
        r@ == enc_strs(snippets.deep_view()),
{
    let ghost dv = snippets.deep_view();
    let mut out = String::new();
    push_char(&mut out, '[');
    proof {
        assert(out@ =~= seq!['[']);
        assert(dv.skip(0) =~= dv);
    }
    let mut k: usize = 0;
    while k < snippets.len()
        invariant
            k <= snippets@.len(),
            dv == snippets.deep_view(),
            dv.len() == snippets@.len(),
            out@ + enc_strs_items(dv.skip(k as int)) == seq!['['] + enc_strs_items(dv),
        decreases snippets@.len() - k,
    {
        push_jstr(&mut out, &snippets[k]);
        proof {
            assert(dv.skip(k as int)[0] == dv[k as int]);
            assert(dv[k as int] == snippets@[k as int]@);
            assert(dv.skip(k as int).skip(1) =~= dv.skip(k + 1));
        }
        if k + 1 < snippets.len() {
            push_char(&mut out, ',');
        }
        k = k + 1;
    }
    proof {
        assert(enc_strs_items(dv.skip(dv.len() as int)) =~= Seq::<char>::empty());
        assert(out@ + Seq::<char>::empty() =~= out@);
    }
    push_char(&mut out, ']');
    proof {
        assert(seq!['['] + enc_strs_items(dv) + seq![']'] =~= enc_strs(dv));
    }
    out
}

/// Appends a JSON array of byte values.
fn push_bytes(out: &mut String, bs: &Vec<u8>)
    ensures
        final(out)@ == old(out)@ + enc_bytes(bs@),
{
    push_char(out, '[');
    proof {
        assert(out@ =~= old(out)@ + seq!['[']);
        assert(bs@.skip(0) =~= bs@);
    }
    let mut k: usize = 0;
    while k < bs.len()
        invariant
            k <= bs@.len(),
            out@ + enc_bytes_items(bs@.skip(k as int)) == old(out)@ + seq!['[']
                + enc_bytes_items(bs@),
        decreases bs@.len() - k,
    {
        push_dec(out, bs[k] as u32);
        proof {
            assert(bs@.skip(k as int)[0] == bs@[k as int]);
            assert(bs@.skip(k as int).skip(1) =~= bs@.skip(k + 1));
        }
        if k + 1 < bs.len() {
            push_char(out, ',');
        }
        k = k + 1;
    }
    proof {
        assert(enc_bytes_items(bs@.skip(bs@.len() as int)) =~= Seq::<char>::empty());
        assert(out@ + Seq::<char>::empty() =~= out@);
    }
    push_char(out, ']');
    proof {
        assert(old(out)@ + seq!['['] + enc_bytes_items(bs@) + seq![']'] =~= old(out)@ + enc_bytes(
            bs@,
        ));
    }
}

/// Appends one signature as its canonical JSON object.
fn push_sig(out: &mut String, sig: &StoredSignature)
    ensures
        final(out)@ == old(out)@ + enc_sig(sig@),
{
    out.append("{\"id\":");
    push_jstr(out, &sig.id);
    out.append(",\"name\":");
    push_jstr(out, &sig.name);
    out.append(",\"mime\":");
    push_jstr(out, &sig.mime);
    out.append(",\"bytes\":");
    push_bytes(out, &sig.bytes);
    out.append(",\"naturalWidth\":");
    push_dec(out, sig.natural_w);
    out.append(",\"naturalHeight\":");
    push_dec(out, sig.natural_h);
    push_char(out, '}');
    proof {
        assert(out@ =~= old(out)@ + enc_sig(sig@));
    }
}

/// Renders the signature collection as its canonical JSON document.
pub fn encode_signatures(signatures: &Vec<StoredSignature>) -> (r: String)
    ensures
        r@ == enc_sigs(signatures.deep_view()),
{
    let ghost dv = signatures.deep_view();
    let mut out = String::new();
    push_char(&mut out, '[');
    proof {
        assert(out@ =~= seq!['[']);
        assert(dv.skip(0) =~= dv);
    }
    let mut k: usize = 0;
    while k < signatures.len()
        invariant
            k <= signatures@.len(),
            dv == signatures.deep_view(),
            dv.len() == signatures@.len(),
            out@ + enc_sigs_items(dv.skip(k as int)) == seq!['['] + enc_sigs_items(dv),
        decreases signatures@.len() - k,
    {
        push_sig(&mut out, &signatures[k]);
        proof {
            assert(dv.skip(k as int)[0] == dv[k as int]);
            assert(dv[k as int] == signatures@[k as int]@);
            assert(dv.skip(k as int).skip(1) =~= dv.skip(k + 1));
        }
        if k + 1 < signatures.len() {
            push_char(&mut out, ',');
        }
        k = k + 1;
    }
    proof {
        assert(enc_sigs_items(dv.skip(dv.len() as int)) =~= Seq::<char>::empty());
        assert(out@ + Seq::<char>::empty() =~= out@);
    }
    push_char(&mut out, ']');
    proof {
        assert(seq!['['] + enc_sigs_items(dv) + seq![']'] =~= enc_sigs(dv));
    }
    out
}

} // verus!
