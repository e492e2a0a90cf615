//! Wire rendering: requests and responses serialized to JSON bytes.
//!
//! The frame is assembled here, verified byte for byte: the `id`,
//! `params`, `result` and error `data` fields are raw JSON text and pass
//! through unchanged; string fields are escaped the way the common JSON
//! printers do (two-character escapes for the named controls, `\u00XX`
//! for the rest). `num_bytes` is the length of exactly this rendering.

use crate::jsonrpc::JsonRpcForwardedResponse;
use crate::jsonrpc::JsonRpcRequest;
use vstd::prelude::*;
use vstd::utf8::encode_utf8;

verus! {

/// The decimal digits of `n`, most significant first.
pub open spec fn spec_dec_u64(n: nat) -> Seq<u8>
    decreases n,
{
    if n < 10 {
        seq![(48 + n) as u8]
    } else {
        spec_dec_u64(n / 10).push((48 + n % 10) as u8)
    }
}

/// The decimal rendering of a signed value: a minus sign and the digits
/// of its magnitude.
pub open spec fn spec_dec_i64(n: int) -> Seq<u8> {
    if n < 0 {
        seq![45u8] + spec_dec_u64((-n) as nat)
    } else {
        spec_dec_u64(n as nat)
    }
}

/// The lowercase hex digit for a value below sixteen.
pub open spec fn spec_hex_digit(n: u8) -> u8 {
    if n < 10 {
        (48 + n) as u8
    } else {
        (87 + n) as u8
    }
}

/// How one byte of a string appears inside a JSON string literal: the
/// quote and backslash escaped, the named control characters by their
/// two-character escapes, other control bytes as `\u00XX`, everything
/// else (multi-byte UTF-8 included) as itself.
pub open spec fn spec_escape_byte(b: u8) -> Seq<u8> {
    if b == 34 {
        seq![92u8, 34u8]
    } else if b == 92 {
        seq![92u8, 92u8]
    } else if b == 8 {
        seq![92u8, 98u8]
    } else if b == 9 {
        seq![92u8, 116u8]
    } else if b == 10 {
        seq![92u8, 110u8]
    } else if b == 12 {
        seq![92u8, 102u8]
    } else if b == 13 {
        seq![92u8, 114u8]
    } else if b < 32 {
        seq![92u8, 117u8, 48u8, 48u8, spec_hex_digit(b / 16), spec_hex_digit(b % 16)]
    } else {
        seq![b]
    }
}

/// A whole byte string escaped.
pub open spec fn spec_escape_bytes(s: Seq<u8>) -> Seq<u8>
    decreases s.len(),
{
    if s.len() == 0 {
        Seq::<u8>::empty()
    } else {
        spec_escape_bytes(s.drop_last()) + spec_escape_byte(s.last())
    }
}

/// A JSON string literal: the escaped bytes between quotes.
pub open spec fn spec_json_string(s: Seq<u8>) -> Seq<u8> {
    seq![34u8] + spec_escape_bytes(s) + seq![34u8]
}

/// A request on the wire: every field serialized in declaration order,
/// the `id` and raw `params` text verbatim, absent params as `null`.
pub open spec fn spec_render_request(q: JsonRpcRequest) -> Seq<u8> {
    encode_utf8("{\"jsonrpc\":"@) + spec_json_string(encode_utf8(q.jsonrpc@)) + encode_utf8(
        ",\"id\":"@,
    ) + encode_utf8(q.id@) + encode_utf8(",\"method\":"@) + spec_json_string(
        encode_utf8(q.method@),
    ) + encode_utf8(",\"params\":"@) + (match q.params {
        Some(p) => encode_utf8(p@),
        None => encode_utf8("null"@),
    }) + encode_utf8("}"@)
}

/// A response on the wire: the `id` verbatim, `result` and the error's
/// `data` raw, and absent fields left out entirely.
pub open spec fn spec_render_response(r: JsonRpcForwardedResponse) -> Seq<u8> {
    encode_utf8("{\"jsonrpc\":"@) + spec_json_string(encode_utf8(r.jsonrpc@)) + encode_utf8(
        ",\"id\":"@,
    ) + encode_utf8(r.id@) + (match r.result {
        Some(v) => encode_utf8(",\"result\":"@) + encode_utf8(v@),
        None => Seq::<u8>::empty(),
    }) + (match r.error {
        Some(e) => encode_utf8(",\"error\":{\"code\":"@) + spec_dec_i64(e.code as int)
            + encode_utf8(",\"message\":"@) + spec_json_string(encode_utf8(e.message@)) + (
        match e.data {
            Some(d) => encode_utf8(",\"data\":"@) + encode_utf8(d@),
            None => Seq::<u8>::empty(),
        }) + encode_utf8("}"@),
        None => Seq::<u8>::empty(),
    }) + encode_utf8("}"@)
}

/// Reversing after a push puts the pushed element first.
proof fn lemma_reverse_push(s: Seq<u8>, x: u8)
    ensures
        s.push(x).reverse() =~= seq![x] + s.reverse(),
{
    assert(forall|i: int|
        0 <= i < s.push(x).reverse().len() ==> s.push(x).reverse()[i] == (seq![x]
            + s.reverse())[i]);
}

/// Append the bytes of a borrowed string.
fn push_str_bytes(out: &mut Vec<u8>, s: &str)
    ensures
        final (out)@ == old(out)@ + encode_utf8(s@),
{
    out.extend_from_slice(s.as_bytes());
}

/// Append the decimal digits of `n`.
fn push_dec_u64(out: &mut Vec<u8>, n: u64)
    ensures
        final (out)@ == old(out)@ + spec_dec_u64(n as nat),
{
    let mut digits: Vec<u8> = Vec::new();
    let mut m: u64 = n;
    loop
        invariant_except_break
            spec_dec_u64(n as nat) == spec_dec_u64(m as nat) + digits@.reverse(),
        ensures
            spec_dec_u64(n as nat) == digits@.reverse(),
        decreases m,
    {
        let d: u8 = (m % 10) as u8 + 48;
        proof {
            lemma_reverse_push(digits@, d);
        }
        digits.push(d);
        if m < 10 {
            break ;
        }
        m = m / 10;
    }
    while digits.len() > 0
        invariant
            out@ + digits@.reverse() == old(out)@ + spec_dec_u64(n as nat),
        decreases digits@.len(),
    {
        proof {
            lemma_reverse_push(digits@.drop_last(), digits@.last());
            assert(digits@.drop_last().push(digits@.last()) =~= digits@);
        }
        match digits.pop() {
            Some(d) => {
                out.push(d);
                proof {
                    assert(out@ + digits@.reverse() =~= old(out)@ + spec_dec_u64(n as nat));
                }
            },
            None => {},
        }
    }
    proof {
        assert(out@ =~= out@ + digits@.reverse());
        assert(final (out)@ == old(out)@ + spec_dec_u64(n as nat));
    }
}

/// Append the decimal rendering of a signed value.
fn push_dec_i64(out: &mut Vec<u8>, n: i64)
    ensures
        final (out)@ == old(out)@ + spec_dec_i64(n as int),
{
    if n >= 0 {
        push_dec_u64(out, n as u64);
    } else {
        out.push(45);
        let mag: u64 = (-(n as i128)) as u64;
        push_dec_u64(out, mag);
        proof {
            assert(old(out)@.push(45u8) + spec_dec_u64(mag as nat) =~= old(out)@ + (seq![45u8]
                + spec_dec_u64((-(n as int)) as nat)));
        }
    }
}

/// Append a string as a JSON string literal, escaped.
fn push_json_string(out: &mut Vec<u8>, s: &str)
    ensures
        final (out)@ == old(out)@ + spec_json_string(encode_utf8(s@)),
{
    let bytes = s.as_bytes();
    out.push(34);
    let ghost mid0 = out@;
    let mut i: usize = 0;
    while i < bytes.len()
        invariant
            i <= bytes@.len(),
            bytes@ == encode_utf8(s@),
            out@ == mid0 + spec_escape_bytes(bytes@.take(i as int)),
        decreases bytes@.len() - i,
    {
        let ghost pre = bytes@.take(i as int);
        proof {
            assert(bytes@.take(i as int + 1).drop_last() =~= pre);
            assert(bytes@.take(i as int + 1).last() == bytes@[i as int]);
        }
        let b = bytes[i];
        if b == 34 {
            out.push(92);
            out.push(34);
        } else if b == 92 {
            out.push(92);
            out.push(92);
        } else if b == 8 {
            out.push(92);
            out.push(98);
        } else if b == 9 {
            out.push(92);
            out.push(116);
        } else if b == 10 {
            out.push(92);
            out.push(110);
        } else if b == 12 {
            out.push(92);
            out.push(102);
        } else if b == 13 {
            out.push(92);
            out.push(114);
        } else if b < 32 {
            out.push(92);
            out.push(117);
            out.push(48);
            out.push(48);
            out.push(if b / 16 < 10 {
                48 + b / 16
            } else {
                87 + b / 16
            });
            out.push(if b % 16 < 10 {
                48 + b % 16
            } else {
                87 + b % 16
            });
        } else {
            out.push(b);
        }
        proof {
            assert(out@ =~= mid0 + spec_escape_bytes(bytes@.take(i as int + 1)));
        }
        i += 1;
    }
    proof {
        assert(bytes@.take(bytes@.len() as int) =~= bytes@);
    }
    out.push(34);
    proof {
        assert(out@ =~= old(out)@ + spec_json_string(encode_utf8(s@)));
    }
}

impl JsonRpcRequest {
    /// The request as it goes on the wire.
    pub fn to_json_bytes(&self) -> (r: Vec<u8>)
        ensures
            r@ == spec_render_request(*self),
    {
        let mut out: Vec<u8> = Vec::new();
        push_str_bytes(&mut out, "{\"jsonrpc\":");
        push_json_string(&mut out, self.jsonrpc.as_str());
        push_str_bytes(&mut out, ",\"id\":");
        push_str_bytes(&mut out, self.id.as_str());
        push_str_bytes(&mut out, ",\"method\":");
        push_json_string(&mut out, self.method.as_str());
        push_str_bytes(&mut out, ",\"params\":");
        match &self.params {
            Some(p) => push_str_bytes(&mut out, p.as_str()),
            None => push_str_bytes(&mut out, "null"),
        }
        push_str_bytes(&mut out, "}");
        proof {
            assert(out@ =~= spec_render_request(*self));
        }
        out
    }

    /// How many bytes the request occupies when serialized.
    pub fn num_bytes(&self) -> (r: usize)
        ensures
            r == spec_render_request(*self).len(),
    {
        self.to_json_bytes().len()
    }
}

impl JsonRpcForwardedResponse {
    /// The response as it goes on the wire: the id byte for byte as it
    /// arrived, absent fields left out.
    #[verifier::rlimit(60)]
    pub fn to_json_bytes(&self) -> (r: Vec<u8>)
        ensures
            r@ == spec_render_response(*self),
    {
        let mut out: Vec<u8> = Vec::new();
        push_str_bytes(&mut out, "{\"jsonrpc\":");
        push_json_string(&mut out, self.jsonrpc.as_str());
        push_str_bytes(&mut out, ",\"id\":");
        push_str_bytes(&mut out, self.id.as_str());
        match &self.result {
            Some(v) => {
                push_str_bytes(&mut out, ",\"result\":");
                push_str_bytes(&mut out, v.as_str());
            },
            None => {},
        }
        match &self.error {
            Some(e) => {
                push_str_bytes(&mut out, ",\"error\":{\"code\":");
                push_dec_i64(&mut out, e.code);
                push_str_bytes(&mut out, ",\"message\":");
                push_json_string(&mut out, e.message.as_str());
                match &e.data {
                    Some(d) => {
                        push_str_bytes(&mut out, ",\"data\":");
                        push_str_bytes(&mut out, d.as_str());
                    },
                    None => {},
                }
                push_str_bytes(&mut out, "}");
            },
            None => {},
        }
        push_str_bytes(&mut out, "}");
        proof {
            assert(out@ =~= spec_render_response(*self));
        }
        out
    }

    /// How many bytes the response occupies when serialized.
    pub fn num_bytes(&self) -> (r: usize)
        ensures
            r == spec_render_response(*self).len(),
    {
        self.to_json_bytes().len()
    }
}

} // verus!
