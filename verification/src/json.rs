//! JSON, as the envelopes use it.
//!
//! Reading fields out of an incoming document is performed by
//! `serde_json` behind trusted wrappers whose results carry names;
//! writing the fixed envelope shapes is verified byte assembly, with
//! escaping of embedded text.

use vstd::prelude::*;

verus! {

use vstd::string::StringSliceAdditionalSpecFns;
use vstd::utf8::encode_utf8;
use crate::utils::UcanCapability;

// ---------------------------------------------------------------------
// Names for what the serde_json queries return.
// ---------------------------------------------------------------------

/// The string value of a top-level field of a JSON document, when the
/// document parses as an object and the field holds a string.
pub uninterp spec fn json_str_field(doc: Seq<char>, key: Seq<char>) -> Option<Seq<char>>;

/// The JSON rendering of a top-level field of a JSON document, when the
/// document parses as an object holding that field.
pub uninterp spec fn json_raw_field(doc: Seq<char>, key: Seq<char>) -> Option<Seq<char>>;

/// Relies on `serde_json::from_str`, `Value::get` and `Value::as_str`:
/// the string value of a top-level field, when there is one.
#[verifier::external_body]
pub fn json_get_str(doc: &str, key: &str) -> (r: Option<String>)
    ensures
        r is Some <==> json_str_field(doc@, key@) is Some,
        r is Some ==> r.unwrap()@ == json_str_field(doc@, key@).unwrap(),
{
    let value: serde_json::Value = serde_json::from_str(doc).ok()?;
    let field = value.get(key)?;
    let text = field.as_str()?;
    Some(text.to_owned())
}

/// Relies on `serde_json::from_str`, `Value::get` and
/// `serde_json::to_string`: a top-level field rendered back as JSON,
/// when there is one.
#[verifier::external_body]
pub fn json_get_raw(doc: &str, key: &str) -> (r: Option<String>)
    ensures
        r is Some <==> json_raw_field(doc@, key@) is Some,
        r is Some ==> r.unwrap()@ == json_raw_field(doc@, key@).unwrap(),
{
    let value: serde_json::Value = serde_json::from_str(doc).ok()?;
    let field = value.get(key)?;
    serde_json::to_string(field).ok()
}

// ---------------------------------------------------------------------
// Verified JSON writing, at the level of UTF-8 bytes.
// ---------------------------------------------------------------------

/// The lowercase hex digit of a value below 16.
pub open spec fn hex_digit(n: u8) -> u8 {
    if n < 10 {
        (48 + n) as u8
    } else {
        (87 + n) as u8
    }
}

/// Escape one byte of a JSON string body: `"` and `\` get a backslash,
/// control bytes become `\u00XX`; multi-byte UTF-8 sequences pass
/// through untouched.
pub open spec fn esc_byte(b: u8) -> Seq<u8> {
    if b == 34u8 || b == 92u8 {
        seq![92u8, b]
    } else if b < 32u8 {
        seq![92u8, 117u8, 48u8, 48u8, hex_digit(b / 16), hex_digit(b % 16)]
    } else {
        seq![b]
    }
}

/// The escaped body of a JSON string, byte by byte.
pub open spec fn json_escape_b(s: Seq<u8>) -> Seq<u8>
    decreases s.len(),
{
    if s.len() == 0 {
        Seq::<u8>::empty()
    } else {
        esc_byte(s[0]) + json_escape_b(s.drop_first())
    }
}

proof fn lemma_json_escape_push(s: Seq<u8>, b: u8)
    ensures
        json_escape_b(s.push(b)) == json_escape_b(s) + esc_byte(b),
    decreases s.len(),
{
    if s.len() == 0 {
        assert(s.push(b)[0] == b);
        assert(s.push(b).drop_first() =~= Seq::<u8>::empty());
        assert(json_escape_b(Seq::<u8>::empty()) == Seq::<u8>::empty());
        assert(esc_byte(b) + Seq::<u8>::empty() =~= esc_byte(b));
        assert(json_escape_b(s.push(b)) =~= esc_byte(b));
        assert(json_escape_b(s) + esc_byte(b) =~= esc_byte(b));
    } else {
        assert(s.push(b)[0] == s[0]);
        assert(s.push(b).drop_first() =~= s.drop_first().push(b));
        lemma_json_escape_push(s.drop_first(), b);
        assert(json_escape_b(s.push(b)) =~= esc_byte(s[0]) + (json_escape_b(s.drop_first())
            + esc_byte(b)));
        assert(json_escape_b(s) + esc_byte(b) =~= esc_byte(s[0]) + (json_escape_b(s.drop_first())
            + esc_byte(b)));
    }
}

/// Append the escaped body of a string onto a byte buffer.
pub fn push_escaped(out: &mut Vec<u8>, s: &str)
    ensures
        final(out)@ == old(out)@ + json_escape_b(s.spec_bytes()),
{
    let bytes = s.as_bytes();
    let n = bytes.len();
    let mut k: usize = 0;
    while k < n
        invariant
            k <= n == bytes@.len(),
            bytes@ == s.spec_bytes(),
            out@ == old(out)@ + json_escape_b(bytes@.subrange(0, k as int)),
        decreases n - k,
    {
        let ghost prefix = bytes@.subrange(0, k as int);
        let b = *vstd::slice::slice_index_get(bytes, k);
        if b == 34u8 || b == 92u8 {
            out.push(92u8);
            out.push(b);
        } else if b < 32u8 {
            out.push(92u8);
            out.push(117u8);
            out.push(48u8);
            out.push(48u8);
            let hi = b / 16;
            let lo = b % 16;
            out.push(if hi < 10 {
                48 + hi
            } else {
                87 + hi
            });
            out.push(if lo < 10 {
                48 + lo
            } else {
                87 + lo
            });
        } else {
            out.push(b);
        }
        proof {
            assert(bytes@.subrange(0, k as int + 1) =~= prefix.push(b));
            lemma_json_escape_push(prefix, b);
            assert(out@ =~= old(out)@ + json_escape_b(prefix.push(b)));
        }
        k = k + 1;
    }
    proof {
        assert(bytes@.subrange(0, n as int) =~= bytes@);
    }
}

/// Append a string literal's bytes onto a byte buffer.
pub fn push_lit(out: &mut Vec<u8>, s: &str)
    ensures
        final(out)@ == old(out)@ + s.spec_bytes(),
{
    out.extend_from_slice(s.as_bytes());
}

// ---------------------------------------------------------------------
// Capability lists.
// ---------------------------------------------------------------------

/// One capability's JSON object.
pub open spec fn cap_json(c: UcanCapability) -> Seq<u8> {
    encode_utf8("{\"with\":\""@) + json_escape_b(encode_utf8(c.with@)) + encode_utf8(
        "\",\"can\":\""@,
    ) + json_escape_b(encode_utf8(c.can@)) + (match c.nb {
        Some(nb) => encode_utf8("\",\"nb\":\""@) + json_escape_b(encode_utf8(nb@))
            + encode_utf8("\"}"@),
        None => encode_utf8("\",\"nb\":null}"@),
    })
}

/// The comma-joined capability objects.
pub open spec fn caps_items(cs: Seq<UcanCapability>) -> Seq<u8>
    decreases cs.len(),
{
    if cs.len() == 0 {
        Seq::<u8>::empty()
    } else if cs.len() == 1 {
        cap_json(cs[0])
    } else {
        cap_json(cs[0]) + seq![44u8] + caps_items(cs.drop_first())
    }
}

/// The JSON array of a capability list.
pub open spec fn caps_json(cs: Seq<UcanCapability>) -> Seq<u8> {
    seq![91u8] + caps_items(cs) + seq![93u8]
}

proof fn lemma_caps_items_push(cs: Seq<UcanCapability>, c: UcanCapability)
    ensures
        cs.len() == 0 ==> caps_items(cs.push(c)) == cap_json(c),
        cs.len() > 0 ==> caps_items(cs.push(c)) == caps_items(cs) + seq![44u8] + cap_json(c),
    decreases cs.len(),
{
    if cs.len() == 0 {
        assert(cs.push(c)[0] == c);
        assert(caps_items(cs.push(c)) == cap_json(c));
    } else {
        assert(cs.push(c).drop_first() =~= cs.drop_first().push(c));
        lemma_caps_items_push(cs.drop_first(), c);
        if cs.len() == 1 {
            assert(cs.drop_first().len() == 0);
            assert(caps_items(cs.push(c)) =~= cap_json(cs[0]) + seq![44u8] + cap_json(c));
            assert(caps_items(cs) + seq![44u8] + cap_json(c) =~= cap_json(cs[0]) + seq![44u8]
                + cap_json(c));
        } else {
            assert(caps_items(cs.push(c)) =~= cap_json(cs[0]) + seq![44u8] + (caps_items(
                cs.drop_first(),
            ) + seq![44u8] + cap_json(c)));
            assert(caps_items(cs) + seq![44u8] + cap_json(c) =~= cap_json(cs[0]) + seq![44u8] + (
            caps_items(cs.drop_first()) + seq![44u8] + cap_json(c)));
        }
    }
}

/// Append one capability's JSON object onto a byte buffer.
fn push_cap(out: &mut Vec<u8>, c: &UcanCapability)
    ensures
        final(out)@ == old(out)@ + cap_json(*c),
{
    push_lit(out, "{\"with\":\"");
    push_escaped(out, c.with.as_str());
    push_lit(out, "\",\"can\":\"");
    push_escaped(out, c.can.as_str());
    match &c.nb {
        Some(nb) => {
            push_lit(out, "\",\"nb\":\"");
            push_escaped(out, nb.as_str());
            push_lit(out, "\"}");
        },
        None => {
            push_lit(out, "\",\"nb\":null}");
        },
    }
    proof {
        assert(out@ =~= old(out)@ + cap_json(*c));
    }
}

/// Render a capability list as its JSON array text.
pub fn capabilities_to_value(capabilities: &Vec<UcanCapability>) -> (r: Vec<u8>)
    ensures
        r@ == caps_json(capabilities@),
{
    let mut out: Vec<u8> = Vec::new();
    out.push(91u8);
    let n = capabilities.len();
    let mut k: usize = 0;
    while k < n
        invariant
            k <= n == capabilities@.len(),
            out@ == seq![91u8] + caps_items(capabilities@.subrange(0, k as int)),
        decreases n - k,
    {
        let ghost prefix = capabilities@.subrange(0, k as int);
        if k > 0 {
            out.push(44u8);
        }
        push_cap(&mut out, &capabilities[k]);
        proof {
            assert(capabilities@.subrange(0, k as int + 1) =~= prefix.push(capabilities@[k as int]));
            lemma_caps_items_push(prefix, capabilities@[k as int]);
            if k == 0 {
                assert(out@ =~= seq![91u8] + caps_items(prefix.push(capabilities@[k as int])));
            } else {
                assert(out@ =~= seq![91u8] + caps_items(prefix.push(capabilities@[k as int])));
            }
        }
        k = k + 1;
    }
    out.push(93u8);
    proof {
        assert(capabilities@.subrange(0, n as int) =~= capabilities@);
        assert(out@ =~= caps_json(capabilities@));
    }
    out
}

} // verus!
