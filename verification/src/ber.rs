//! BER (Basic Encoding Rules) codec for SNMP messages.
//!
//! Encodes and decodes SNMP v1/v2c messages using the BER subset required by
//! the SNMP protocol.

pub mod error_status;
pub mod laws;

use vstd::prelude::*;

use crate::error::SnmpsimError;
use crate::oid::Oid;
use crate::snmp_value::{ber_tags, Ipv4Addr, SnmpValue, SpecValue};
use crate::text::{append_str, dec, digit_char, digit_char_exec, push_dec, string_from};

verus! {

// ─── Errors ──────────────────────────────────────────────────────────────────

/// `e` is a BER error carrying the message `msg`.
pub open spec fn ber_error(e: SnmpsimError, msg: Seq<char>) -> bool {
    e matches SnmpsimError::Ber(m) && m@ == msg
}

/// A decoding result agrees with its specification: the same value on
/// success, a BER error with the specified message on failure.
pub open spec fn agrees<T, S>(r: Result<T, SnmpsimError>, s: Result<S, Seq<char>>, f: spec_fn(T) -> S) -> bool {
    match r {
        Ok(v) => s == Ok::<S, Seq<char>>(f(v)),
        Err(e) => s is Err && ber_error(e, s->Err_0),
    }
}

fn ber_err(msg: &Vec<char>) -> (e: SnmpsimError)
    ensures
        ber_error(e, msg@),
{
    SnmpsimError::Ber(string_from(msg.as_slice()))
}

fn ber_err_str(msg: &str) -> (e: SnmpsimError)
    ensures
        ber_error(e, msg@),
{
    let mut m: Vec<char> = Vec::new();
    append_str(&mut m, msg);
    assert(Seq::<char>::empty() + msg@ =~= msg@);
    ber_err(&m)
}

/// Two lowercase hexadecimal digits of a byte.
pub open spec fn hex2(b: u8) -> Seq<char> {
    seq![digit_char((b / 16) as int), digit_char((b % 16) as int)]
}

pub fn push_hex2(out: &mut Vec<char>, b: u8)
    ensures
        final(out)@ == old(out)@ + hex2(b),
{
    out.push(digit_char_exec(b / 16));
    out.push(digit_char_exec(b % 16));
    assert(old(out)@.push(digit_char((b / 16) as int)).push(digit_char((b % 16) as int))
        =~= old(out)@ + hex2(b));
}

/// "`prefix` (0x..), got 0x.." for an unexpected tag.
pub open spec fn unexpected_tag_text(prefix: Seq<char>, tag: u8) -> Seq<char> {
    prefix + "got 0x"@ + hex2(tag)
}

fn unexpected_tag(prefix: &str, tag: u8) -> (e: SnmpsimError)
    ensures
        ber_error(e, unexpected_tag_text(prefix@, tag)),
{
    let mut m: Vec<char> = Vec::new();
    append_str(&mut m, prefix);
    append_str(&mut m, "got 0x");
    push_hex2(&mut m, tag);
    assert(m@ =~= unexpected_tag_text(prefix@, tag));
    ber_err(&m)
}

// ─── Lengths ─────────────────────────────────────────────────────────────────

/// The BER length octets written for a content length.
pub open spec fn len_bytes(len: nat) -> Seq<u8> {
    if len < 128 {
        seq![len as u8]
    } else if len < 256 {
        seq![0x81u8, len as u8]
    } else if len < 65536 {
        seq![0x82u8, (len / 256) as u8, (len % 256) as u8]
    } else {
        seq![0x83u8, ((len / 65536) % 256) as u8, ((len / 256) % 256) as u8, (len % 256) as u8]
    }
}

/// Tag, length and content.
pub open spec fn tlv(tag: u8, content: Seq<u8>) -> Seq<u8> {
    seq![tag] + len_bytes(content.len()) + content
}

fn encode_length(len: usize) -> (r: Vec<u8>)
    ensures
        r@ == len_bytes(len as nat),
{
    if len < 128 {
        vec![len as u8]
    } else if len < 256 {
        vec![0x81, len as u8]
    } else if len < 65536 {
        vec![0x82, (len / 256) as u8, (len % 256) as u8]
    } else {
        vec![0x83, ((len / 65536) % 256) as u8, ((len / 256) % 256) as u8, (len % 256) as u8]
    }
}

/// Appends tag, length and content.
fn push_tlv(out: &mut Vec<u8>, tag: u8, content: &[u8])
    ensures
        final(out)@ == old(out)@ + tlv(tag, content@),
{
    out.push(tag);
    let l = encode_length(content.len());
    crate::text::append_bytes(out, l.as_slice());
    crate::text::append_bytes(out, content);
    assert(old(out)@.push(tag) + len_bytes(content@.len()) + content@ =~= old(out)@ + tlv(
        tag,
        content@,
    ));
}

/// Big-endian value of the bytes, kept within `usize` as the decoder's
/// shifts keep it.
pub open spec fn be_usize(s: Seq<u8>) -> usize
    decreases s.len(),
{
    if s.len() == 0 {
        0
    } else {
        ((be_usize(s.drop_last()) * 256 + s.last()) as usize)
    }
}

/// What the length decoder returns: the length and the remaining bytes.
pub open spec fn spec_length(d: Seq<u8>) -> Result<(usize, Seq<u8>), Seq<char>> {
    if d.len() == 0 {
        Err("Unexpected EOF reading length"@)
    } else if d[0] & 0x80 == 0 {
        Ok((d[0] as usize, d.skip(1)))
    } else {
        let n = (d[0] & 0x7F) as int;
        if n == 0 {
            Err("Indefinite-length BER not supported"@)
        } else if d.len() < n + 1 {
            Err("Truncated length field"@)
        } else {
            Ok((be_usize(d.subrange(1, n + 1)), d.skip(n + 1)))
        }
    }
}

proof fn lemma_shl8_usize(x: usize, b: u8)
    ensures
        ((x << 8usize) | (b as usize)) == ((x * 256 + b) as usize),
{
    assert(((x << 8usize) | (b as usize)) == ((x * 256 + b) as usize)) by (bit_vector);
}

/// Returns `(length, remaining_bytes)`.
fn decode_length(data: &[u8]) -> (r: Result<(usize, &[u8]), SnmpsimError>)
    ensures
        agrees(r, spec_length(data@), |p: (usize, &[u8])| (p.0, p.1@)),
{
    if data.len() == 0 {
        return Err(ber_err_str("Unexpected EOF reading length"));
    }
    if data[0] & 0x80 == 0 {
        Ok((data[0] as usize, &data[1..data.len()]))
    } else {
        let n = (data[0] & 0x7F) as usize;
        if n == 0 {
            return Err(ber_err_str("Indefinite-length BER not supported"));
        }
        if data.len() < n + 1 {
            return Err(ber_err_str("Truncated length field"));
        }
        let mut len: usize = 0;
        let mut i: usize = 1;
        while i <= n
            invariant
                1 <= i <= n + 1,
                n + 1 <= data.len(),
                len == be_usize(data@.subrange(1, i as int)),
            decreases n + 1 - i,
        {
            proof {
                lemma_shl8_usize(len, data[i as int]);
                assert(data@.subrange(1, i + 1).drop_last() =~= data@.subrange(1, i as int));
            }
            len = (len << 8) | data[i] as usize;
            i += 1;
        }
        Ok((len, &data[n + 1..data.len()]))
    }
}

/// "Truncated value: need N bytes, have M"
pub open spec fn truncated_text(need: nat, have: nat) -> Seq<char> {
    "Truncated value: need "@ + dec(need) + " bytes, have "@ + dec(have)
}

/// What the TLV decoder returns: tag, value bytes and remaining bytes.
pub open spec fn spec_tlv(d: Seq<u8>) -> Result<(u8, Seq<u8>, Seq<u8>), Seq<char>> {
    if d.len() == 0 {
        Err("Empty BER data"@)
    } else {
        match spec_length(d.skip(1)) {
            Err(e) => Err(e),
            Ok((len, rest)) => if rest.len() < len {
                Err(truncated_text(len as nat, rest.len()))
            } else {
                Ok((d[0], rest.take(len as int), rest.skip(len as int)))
            },
        }
    }
}

/// Returns `(tag, value_bytes, remaining_bytes)`.
fn decode_tlv(data: &[u8]) -> (r: Result<(u8, &[u8], &[u8]), SnmpsimError>)
    ensures
        agrees(r, spec_tlv(data@), |p: (u8, &[u8], &[u8])| (p.0, p.1@, p.2@)),
{
    if data.len() == 0 {
        return Err(ber_err_str("Empty BER data"));
    }
    let tag = data[0];
    let (len, rest) = match decode_length(&data[1..data.len()]) {
        Ok(p) => p,
        Err(e) => {
            return Err(e);
        },
    };
    if rest.len() < len {
        let mut m: Vec<char> = Vec::new();
        append_str(&mut m, "Truncated value: need ");
        push_dec(&mut m, len as u64);
        append_str(&mut m, " bytes, have ");
        push_dec(&mut m, rest.len() as u64);
        assert(m@ =~= truncated_text(len as nat, rest@.len()));
        return Err(ber_err(&m));
    }
    Ok((tag, &rest[0..len], &rest[len..rest.len()]))
}

// ─── Integers ────────────────────────────────────────────────────────────────

/// `n` big-endian bytes of `u` (the low `n` bytes).
pub open spec fn be_bytes(u: nat, n: nat) -> Seq<u8>
    decreases n,
{
    if n == 0 {
        Seq::<u8>::empty()
    } else {
        be_bytes(u / 256, (n - 1) as nat).push((u % 256) as u8)
    }
}

/// The two's-complement bit pattern of `v` as an unsigned number.
pub open spec fn twos64(v: i64) -> nat {
    if v < 0 {
        (v + 0x1_0000_0000_0000_0000) as nat
    } else {
        v as nat
    }
}

/// Byte `i` only repeats the sign carried by byte `i + 1`.
pub open spec fn redundant_at(b: Seq<u8>, i: int) -> bool {
    (b[i] == 0x00 && b[i + 1] & 0x80 == 0) || (b[i] == 0xFF && b[i + 1] & 0x80 != 0)
}

/// First byte kept when leading sign bytes are dropped (at most seven).
pub open spec fn int_start(b: Seq<u8>, i: int) -> int
    decreases 7 - i,
{
    if i < 7 && redundant_at(b, i) {
        int_start(b, i + 1)
    } else {
        i
    }
}

/// Minimal two's-complement content octets of a BER INTEGER.
pub open spec fn int_content(v: i64) -> Seq<u8> {
    if v == 0 {
        seq![0u8]
    } else {
        let b = be_bytes(twos64(v), 8);
        b.skip(int_start(b, 0))
    }
}

fn be_bytes_exec(u: u64, n: usize) -> (r: Vec<u8>)
    ensures
        r@ == be_bytes(u as nat, n as nat),
    decreases n,
{
    if n == 0 {
        Vec::new()
    } else {
        let mut v = be_bytes_exec(u / 256, n - 1);
        v.push((u % 256) as u8);
        v
    }
}

/// `be_bytes(u, n)` has `n` bytes.
pub proof fn lemma_be_bytes_len(u: nat, n: nat)
    ensures
        be_bytes(u, n).len() == n,
    decreases n,
{
    if n > 0 {
        lemma_be_bytes_len(u / 256, (n - 1) as nat);
    }
}

fn is_redundant(bytes: &Vec<u8>, i: usize) -> (r: bool)
    requires
        i < 7,
        bytes@.len() == 8,
    ensures
        r == redundant_at(bytes@, i as int),
{
    let b0 = bytes[i];
    let b1 = bytes[i + 1];
    (b0 == 0x00 && b1 & 0x80 == 0) || (b0 == 0xFF && b1 & 0x80 != 0)
}

/// Encode a signed integer as a minimal BER integer value.
fn encode_integer_bytes(val: i64) -> (r: Vec<u8>)
    ensures
        r@ == int_content(val),
{
    if val == 0 {
        return vec![0x00];
    }
    let u: u64 = if val < 0 {
        ((val + i64::MAX + 1) as u64) + 0x8000_0000_0000_0000u64
    } else {
        val as u64
    };
    assert(u as nat == twos64(val));
    let bytes = be_bytes_exec(u, 8);
    proof {
        lemma_be_bytes_len(u as nat, 8);
    }
    let mut start: usize = 0;
    while start < 7 && is_redundant(&bytes, start)
        invariant
            start <= 7,
            bytes@.len() == 8,
            int_start(bytes@, 0) == int_start(bytes@, start as int),
        decreases 7 - start,
    {
        start += 1;
    }
    let mut out: Vec<u8> = Vec::new();
    let mut i = start;
    while i < 8
        invariant
            start <= i <= 8,
            bytes@.len() == 8,
            out@ == bytes@.subrange(start as int, i as int),
        decreases 8 - i,
    {
        out.push(bytes[i]);
        assert(bytes@.subrange(start as int, i as int).push(bytes@[i as int]) =~= bytes@.subrange(
            start as int,
            i + 1,
        ));
        i += 1;
    }
    assert(out@ =~= bytes@.skip(start as int));
    out
}

/// Left fold of bytes into an `i64`, as the decoder's shifts compute it.
pub open spec fn fold_i64(s: Seq<u8>, init: i64) -> i64
    decreases s.len(),
{
    if s.len() == 0 {
        init
    } else {
        ((fold_i64(s.drop_last(), init) * 256 + s.last()) as i64)
    }
}

/// Value of BER INTEGER content octets (sign-extended from the first byte).
pub open spec fn spec_integer(s: Seq<u8>) -> i64 {
    if s.len() == 0 {
        0
    } else {
        fold_i64(s, if s[0] & 0x80 != 0 { -1i64 } else { 0i64 })
    }
}

proof fn lemma_shl8_i64(x: i64, b: u8)
    ensures
        ((x << 8u32) | (b as i64)) == ((x * 256 + b) as i64),
{
    assert(((x << 8u32) | (b as i64)) == ((x * 256 + b) as i64)) by (bit_vector);
}

fn decode_integer(data: &[u8]) -> (r: i64)
    ensures
        r == spec_integer(data@),
{
    if data.len() == 0 {
        return 0;
    }
    let init: i64 = if data[0] & 0x80 != 0 {
        -1i64
    } else {
        0i64
    };
    let mut val = init;
    let mut i: usize = 0;
    while i < data.len()
        invariant
            i <= data.len(),
            data.len() > 0,
            init == (if data@[0] & 0x80 != 0 { -1i64 } else { 0i64 }),
            val == fold_i64(data@.take(i as int), init),
        decreases data.len() - i,
    {
        proof {
            lemma_shl8_i64(val, data[i as int]);
            assert(data@.take(i + 1).drop_last() =~= data@.take(i as int));
        }
        val = (val << 8) | data[i] as i64;
        i += 1;
    }
    assert(data@.take(i as int) =~= data@);
    val
}

/// Left fold of bytes into a `u64`, as the decoder's shifts compute it.
pub open spec fn fold_u64(s: Seq<u8>) -> u64
    decreases s.len(),
{
    if s.len() == 0 {
        0
    } else {
        ((fold_u64(s.drop_last()) * 256 + s.last()) as u64)
    }
}

proof fn lemma_shl8_u64(x: u64, b: u8)
    ensures
        ((x << 8u64) | (b as u64)) == ((x * 256 + b) as u64),
{
    assert(((x << 8u64) | (b as u64)) == ((x * 256 + b) as u64)) by (bit_vector);
}

fn decode_unsigned(data: &[u8]) -> (r: u64)
    ensures
        r == fold_u64(data@),
{
    let mut val: u64 = 0;
    let mut i: usize = 0;
    while i < data.len()
        invariant
            i <= data.len(),
            val == fold_u64(data@.take(i as int)),
        decreases data.len() - i,
    {
        proof {
            lemma_shl8_u64(val, data[i as int]);
            assert(data@.take(i + 1).drop_last() =~= data@.take(i as int));
        }
        val = (val << 8) | data[i] as u64;
        i += 1;
    }
    assert(data@.take(i as int) =~= data@);
    val
}

/// Index of the first non-zero byte before `cap`, or `cap`.
pub open spec fn skip_zeros(b: Seq<u8>, i: int, cap: int) -> int
    decreases cap - i,
{
    if i < cap && b[i] == 0 {
        skip_zeros(b, i + 1, cap)
    } else {
        i
    }
}

/// Minimal unsigned content octets of `u` taken from its `n` low bytes
/// (no sign octet is added).
pub open spec fn unsigned_content(u: nat, n: nat) -> Seq<u8> {
    let b = be_bytes(u, n);
    b.skip(skip_zeros(b, 0, n - 1))
}

fn encode_unsigned_bytes(u: u64, n: usize) -> (r: Vec<u8>)
    requires
        1 <= n <= 8,
    ensures
        r@ == unsigned_content(u as nat, n as nat),
{
    let bytes = be_bytes_exec(u, n);
    proof {
        lemma_be_bytes_len(u as nat, n as nat);
    }
    let mut start: usize = 0;
    while start < n - 1 && bytes[start] == 0
        invariant
            start <= n - 1,
            bytes@.len() == n,
            skip_zeros(bytes@, 0, n - 1) == skip_zeros(bytes@, start as int, n - 1),
        decreases n - start,
    {
        start += 1;
    }
    let mut out: Vec<u8> = Vec::new();
    let mut i = start;
    while i < n
        invariant
            start <= i <= n,
            bytes@.len() == n,
            out@ == bytes@.subrange(start as int, i as int),
        decreases n - i,
    {
        out.push(bytes[i]);
        assert(bytes@.subrange(start as int, i as int).push(bytes@[i as int]) =~= bytes@.subrange(
            start as int,
            i + 1,
        ));
        i += 1;
    }
    assert(out@ =~= bytes@.skip(start as int));
    out
}


// ─── OID encoding/decoding ───────────────────────────────────────────────────

/// Base-128 groups of `v`, every one with its continuation bit set.
pub open spec fn cont_bytes(v: nat) -> Seq<u8>
    decreases v,
{
    if v < 128 {
        seq![(v + 128) as u8]
    } else {
        cont_bytes(v / 128).push((v % 128 + 128) as u8)
    }
}

/// Base-128 encoding of one OID arc: continuation bit set on all groups but
/// the last.
pub open spec fn arc_bytes(v: nat) -> Seq<u8> {
    if v < 128 {
        seq![v as u8]
    } else {
        cont_bytes(v / 128).push((v % 128) as u8)
    }
}

/// Encodings of a sequence of arcs, concatenated.
pub open spec fn arcs_bytes(s: Seq<u32>) -> Seq<u8>
    decreases s.len(),
{
    if s.len() == 0 {
        Seq::<u8>::empty()
    } else {
        arcs_bytes(s.drop_last()) + arc_bytes(s.last() as nat)
    }
}

/// Content octets of an OID: the first two arcs folded into one byte
/// (`40 * c0 + c1`, kept to its low 8 bits), then the remaining arcs; an OID
/// with fewer than two arcs is a single zero byte.
pub open spec fn oid_content(c: Seq<u32>) -> Seq<u8> {
    if c.len() < 2 {
        seq![0u8]
    } else {
        seq![(c[0] * 40 + c[1]) as u8] + arcs_bytes(c.skip(2))
    }
}

/// `40 * c0 + c1` fits in a `u32`, so folding the first two arcs does not overflow.
pub open spec fn oid_encodable(c: Seq<u32>) -> bool {
    c.len() < 2 || c[0] * 40 + c[1] <= u32::MAX
}

proof fn lemma_or80(b: u8)
    requires
        b < 128,
    ensures
        b | 0x80 == (b + 128) as u8,
{
    assert(b < 128 ==> b | 0x80 == (b + 128) as u8) by (bit_vector);
}

fn push_cont(out: &mut Vec<u8>, v: u32)
    ensures
        final(out)@ == old(out)@ + cont_bytes(v as nat),
    decreases v,
{
    if v >= 128 {
        push_cont(out, v / 128);
    }
    let b = (v % 128) as u8;
    proof {
        lemma_or80(b);
    }
    out.push(b | 0x80);
    proof {
        if v >= 128 {
            assert(old(out)@ + cont_bytes((v / 128) as nat) + seq![(b + 128) as u8] =~= old(out)@
                + cont_bytes(v as nat));
        } else {
            assert(old(out)@.push((b + 128) as u8) =~= old(out)@ + cont_bytes(v as nat));
        }
    }
}

fn encode_oid_component(val: u32, out: &mut Vec<u8>)
    ensures
        final(out)@ == old(out)@ + arc_bytes(val as nat),
{
    if val >= 128 {
        push_cont(out, val / 128);
    }
    out.push((val % 128) as u8);
    proof {
        if val >= 128 {
            assert(old(out)@ + cont_bytes((val / 128) as nat) + seq![(val % 128) as u8] =~= old(
                out,
            )@ + arc_bytes(val as nat));
        } else {
            assert(old(out)@.push(val as u8) =~= old(out)@ + arc_bytes(val as nat));
        }
    }
}

fn encode_oid_bytes(oid: &Oid) -> (r: Vec<u8>)
    requires
        oid_encodable(oid@),
    ensures
        r@ == oid_content(oid@),
{
    let c = oid.components();
    let mut out: Vec<u8> = Vec::new();
    if c.len() < 2 {
        out.push(0);
    } else {
        out.push((c[0] * 40 + c[1]) as u8);
        let mut i: usize = 2;
        while i < c.len()
            invariant
                2 <= i <= c@.len(),
                out@ == seq![(c@[0] * 40 + c@[1]) as u8] + arcs_bytes(c@.subrange(2, i as int)),
            decreases c@.len() - i,
        {
            encode_oid_component(c[i], &mut out);
            proof {
                assert(c@.subrange(2, i + 1).drop_last() =~= c@.subrange(2, i as int));
                assert(c@.subrange(2, i + 1).last() == c@[i as int]);
            }
            i += 1;
            assert(seq![(c@[0] * 40 + c@[1]) as u8] + arcs_bytes(c@.subrange(2, i - 1))
                + arc_bytes(c@[i - 1] as nat) =~= seq![(c@[0] * 40 + c@[1]) as u8] + arcs_bytes(
                c@.subrange(2, i as int),
            ));
        }
        assert(c@.subrange(2, c@.len() as int) =~= c@.skip(2));
    }
    out
}

/// Reads one arc: the value accumulated 7 bits at a time (kept within `u32`
/// as the decoder's shifts keep it) and the number of bytes it spans.
pub open spec fn take_arc(s: Seq<u8>, acc: u32) -> Option<(u32, int)>
    decreases s.len(),
{
    if s.len() == 0 {
        None
    } else {
        let v = ((acc * 128 + s[0] % 128) as u32);
        if s[0] & 0x80 == 0 {
            Some((v, 1))
        } else {
            match take_arc(s.drop_first(), v) {
                Some((x, n)) => Some((x, n + 1)),
                None => None,
            }
        }
    }
}

/// An arc that is read takes at least one and at most all of the bytes.
pub proof fn lemma_take_arc_bounds(s: Seq<u8>, acc: u32)
    ensures
        take_arc(s, acc) matches Some((x, n)) ==> 1 <= n <= s.len(),
    decreases s.len(),
{
    if s.len() > 0 {
        let v = ((acc * 128 + s[0] % 128) as u32);
        lemma_take_arc_bounds(s.drop_first(), v);
    }
}

/// All arcs of the bytes after the first: `None` if the last arc is cut off.
pub open spec fn decode_arcs(s: Seq<u8>) -> Option<Seq<u32>>
    decreases s.len(),
{
    if s.len() == 0 {
        Some(Seq::<u32>::empty())
    } else {
        match take_arc(s, 0) {
            None => None,
            Some((x, n)) => {
                proof {
                    lemma_take_arc_bounds(s, 0);
                }
                match decode_arcs(s.skip(n)) {
                    Some(r) => Some(seq![x] + r),
                    None => None,
                }
            },
        }
    }
}

/// What the OID content decoder returns.
pub open spec fn spec_oid_bytes(d: Seq<u8>) -> Result<Seq<u32>, Seq<char>> {
    if d.len() == 0 {
        Ok(Seq::<u32>::empty())
    } else {
        match decode_arcs(d.skip(1)) {
            None => Err("Truncated OID encoding"@),
            Some(r) => Ok(seq![(d[0] / 40) as u32, (d[0] % 40) as u32] + r),
        }
    }
}

proof fn lemma_shl7_u32(x: u32, b: u8)
    ensures
        ((x << 7u32) | ((b & 0x7F) as u32)) == ((x * 128 + b % 128) as u32),
{
    assert(((x << 7u32) | ((b & 0x7F) as u32)) == ((x * 128 + b % 128) as u32)) by (bit_vector);
}

/// Reads the arc starting at `start`.
fn read_arc(data: &[u8], start: usize) -> (r: Option<(u32, usize)>)
    requires
        start <= data@.len(),
    ensures
        match take_arc(data@.skip(start as int), 0) {
            None => r is None,
            Some((x, n)) => r == Some((x, (start + n) as usize)),
        },
{
    let mut val: u32 = 0;
    let mut i: usize = start;
    assert(data@.skip(start as int) =~= data@.skip(i as int));
    while i < data.len()
        invariant
            start <= i <= data@.len(),
            take_arc(data@.skip(start as int), 0) == (match take_arc(data@.skip(i as int), val) {
                Some((x, n)) => Some((x, n + (i - start))),
                None => None,
            }),
        decreases data@.len() - i,
    {
        let b = data[i];
        proof {
            lemma_shl7_u32(val, b);
            assert(data@.skip(i as int).drop_first() =~= data@.skip(i + 1));
            assert(data@.skip(i as int)[0] == b);
        }
        val = (val << 7) | (b & 0x7F) as u32;
        i += 1;
        if b & 0x80 == 0 {
            return Some((val, i));
        }
    }
    None
}

fn decode_oid_bytes(data: &[u8]) -> (r: Result<Oid, SnmpsimError>)
    ensures
        agrees(r, spec_oid_bytes(data@), |o: Oid| o@),
{
    if data.len() == 0 {
        return Ok(Oid::new(Vec::new()));
    }
    let first = data[0] as u32;
    let mut components: Vec<u32> = vec![first / 40, first % 40];
    let ghost head = seq![(data@[0] / 40) as u32, (data@[0] % 40) as u32];
    assert(components@ =~= head);
    let mut i: usize = 1;
    while i < data.len()
        invariant
            1 <= i <= data@.len(),
            components@.len() >= 2,
            components@.take(2) == head,
            decode_arcs(data@.skip(1)) == (match decode_arcs(data@.skip(i as int)) {
                Some(r) => Some(components@.skip(2) + r),
                None => None,
            }),
        decreases data@.len() - i,
    {
        proof {
            lemma_take_arc_bounds(data@.skip(i as int), 0);
        }
        match read_arc(data, i) {
            None => {
                return Err(ber_err_str("Truncated OID encoding"));
            },
            Some((val, next)) => {
                proof {
                    assert(data@.skip(i as int).skip(next - i) =~= data@.skip(next as int));
                    assert(components@.push(val).skip(2) =~= components@.skip(2).push(val));
                    assert(components@.push(val).take(2) =~= components@.take(2));
                    if let Some(r) = decode_arcs(data@.skip(next as int)) {
                        assert(components@.skip(2) + (seq![val] + r) =~= components@.skip(2).push(
                            val,
                        ) + r);
                    }
                }
                components.push(val);
                i = next;
            },
        }
    }
    proof {
        assert(data@.skip(i as int).len() == 0);
        assert(components@.skip(2) + Seq::<u32>::empty() =~= components@.skip(2));
        assert(components@ =~= head + components@.skip(2));
    }
    Ok(Oid::new(components))
}

// ─── SnmpValue BER encoding ──────────────────────────────────────────────────

/// Content octets of a value.
pub open spec fn value_content(v: SpecValue) -> Seq<u8> {
    match v {
        SpecValue::Integer(i) => int_content(i),
        SpecValue::OctetString(s) => s,
        SpecValue::Opaque(s) => s,
        SpecValue::Null => Seq::<u8>::empty(),
        SpecValue::NoSuchObject => Seq::<u8>::empty(),
        SpecValue::NoSuchInstance => Seq::<u8>::empty(),
        SpecValue::EndOfMibView => Seq::<u8>::empty(),
        SpecValue::ObjectIdentifier(c) => oid_content(c),
        SpecValue::IpAddress(ip) => ip.spec_octets(),
        SpecValue::Counter32(x) => unsigned_content(x as nat, 4),
        SpecValue::Gauge32(x) => unsigned_content(x as nat, 4),
        SpecValue::TimeTicks(x) => unsigned_content(x as nat, 4),
        SpecValue::Counter64(x) => unsigned_content(x as nat, 8),
    }
}

/// The BER encoding of a value: its tag, length and content.
pub open spec fn spec_encode_value(v: SpecValue) -> Seq<u8> {
    tlv(crate::snmp_value::ber_tag_of(v), value_content(v))
}

/// The value can be encoded without overflow.
pub open spec fn value_encodable(v: SpecValue) -> bool {
    match v {
        SpecValue::ObjectIdentifier(c) => oid_encodable(c),
        _ => true,
    }
}

/// Encode a single SNMP value including its BER tag and length.
pub fn encode_value(val: &SnmpValue) -> (r: Vec<u8>)
    requires
        value_encodable(val@),
    ensures
        r@ == spec_encode_value(val@),
{
    let tag = val.ber_tag();
    let content: Vec<u8> = match val {
        SnmpValue::Integer(v) => encode_integer_bytes(*v),
        SnmpValue::OctetString(v) => crate::text::copy_bytes(v.as_slice()),
        SnmpValue::Opaque(v) => crate::text::copy_bytes(v.as_slice()),
        SnmpValue::Null | SnmpValue::NoSuchObject | SnmpValue::NoSuchInstance
        | SnmpValue::EndOfMibView => Vec::new(),
        SnmpValue::ObjectIdentifier(oid) => encode_oid_bytes(oid),
        SnmpValue::IpAddress(ip) => {
            let o = ip.octets();
            vec![o[0], o[1], o[2], o[3]]
        },
        SnmpValue::Counter32(v) => encode_unsigned_bytes(*v as u64, 4),
        SnmpValue::Gauge32(v) => encode_unsigned_bytes(*v as u64, 4),
        SnmpValue::TimeTicks(v) => encode_unsigned_bytes(*v as u64, 4),
        SnmpValue::Counter64(v) => encode_unsigned_bytes(*v, 8),
    };
    assert(content@ =~= value_content(val@));
    let mut out: Vec<u8> = Vec::new();
    push_tlv(&mut out, tag, content.as_slice());
    assert(Seq::<u8>::empty() + tlv(tag, content@) =~= spec_encode_value(val@));
    out
}

/// The value that content octets under a tag decode to.
pub open spec fn spec_value_from(tag: u8, v: Seq<u8>) -> Result<SpecValue, Seq<char>> {
    if tag == ber_tags::INTEGER {
        Ok(SpecValue::Integer(spec_integer(v)))
    } else if tag == ber_tags::OCTET_STRING {
        Ok(SpecValue::OctetString(v))
    } else if tag == ber_tags::NULL {
        Ok(SpecValue::Null)
    } else if tag == ber_tags::OID {
        match spec_oid_bytes(v) {
            Err(e) => Err(e),
            Ok(c) => Ok(SpecValue::ObjectIdentifier(c)),
        }
    } else if tag == ber_tags::IP_ADDRESS {
        if v.len() != 4 {
            Err("IpAddress must be 4 bytes"@)
        } else {
            Ok(SpecValue::IpAddress(Ipv4Addr(v[0], v[1], v[2], v[3])))
        }
    } else if tag == ber_tags::COUNTER32 {
        Ok(SpecValue::Counter32(fold_u64(v) as u32))
    } else if tag == ber_tags::GAUGE32 {
        Ok(SpecValue::Gauge32(fold_u64(v) as u32))
    } else if tag == ber_tags::TIME_TICKS {
        Ok(SpecValue::TimeTicks(fold_u64(v) as u32))
    } else if tag == ber_tags::OPAQUE {
        Ok(SpecValue::Opaque(v))
    } else if tag == ber_tags::COUNTER64 {
        Ok(SpecValue::Counter64(fold_u64(v)))
    } else if tag == ber_tags::NO_SUCH_OBJECT {
        Ok(SpecValue::NoSuchObject)
    } else if tag == ber_tags::NO_SUCH_INSTANCE {
        Ok(SpecValue::NoSuchInstance)
    } else if tag == ber_tags::END_OF_MIB_VIEW {
        Ok(SpecValue::EndOfMibView)
    } else {
        Ok(SpecValue::Opaque(v))
    }
}

/// What decoding one value gives: the value and the bytes after it.
pub open spec fn spec_decode_value(d: Seq<u8>) -> Result<(SpecValue, Seq<u8>), Seq<char>> {
    match spec_tlv(d) {
        Err(e) => Err(e),
        Ok((t, v, rest)) => match spec_value_from(t, v) {
            Err(e) => Err(e),
            Ok(x) => Ok((x, rest)),
        },
    }
}

/// Decode a single SNMP value from BER bytes (tag must be at bytes[0]).
pub fn decode_value(data: &[u8]) -> (r: Result<(SnmpValue, &[u8]), SnmpsimError>)
    ensures
        agrees(r, spec_decode_value(data@), |p: (SnmpValue, &[u8])| (p.0@, p.1@)),
{
    let (tag, value_bytes, rest) = match decode_tlv(data) {
        Ok(t) => t,
        Err(e) => {
            return Err(e);
        },
    };
    let val = if tag == ber_tags::INTEGER {
        SnmpValue::Integer(decode_integer(value_bytes))
    } else if tag == ber_tags::OCTET_STRING {
        SnmpValue::OctetString(crate::text::copy_bytes(value_bytes))
    } else if tag == ber_tags::NULL {
        SnmpValue::Null
    } else if tag == ber_tags::OID {
        match decode_oid_bytes(value_bytes) {
            Ok(o) => SnmpValue::ObjectIdentifier(o),
            Err(e) => {
                return Err(e);
            },
        }
    } else if tag == ber_tags::IP_ADDRESS {
        if value_bytes.len() != 4 {
            return Err(ber_err_str("IpAddress must be 4 bytes"));
        }
        SnmpValue::IpAddress(
            Ipv4Addr::new(value_bytes[0], value_bytes[1], value_bytes[2], value_bytes[3]),
        )
    } else if tag == ber_tags::COUNTER32 {
        SnmpValue::Counter32(decode_unsigned(value_bytes) as u32)
    } else if tag == ber_tags::GAUGE32 {
        SnmpValue::Gauge32(decode_unsigned(value_bytes) as u32)
    } else if tag == ber_tags::TIME_TICKS {
        SnmpValue::TimeTicks(decode_unsigned(value_bytes) as u32)
    } else if tag == ber_tags::OPAQUE {
        SnmpValue::Opaque(crate::text::copy_bytes(value_bytes))
    } else if tag == ber_tags::COUNTER64 {
        SnmpValue::Counter64(decode_unsigned(value_bytes))
    } else if tag == ber_tags::NO_SUCH_OBJECT {
        SnmpValue::NoSuchObject
    } else if tag == ber_tags::NO_SUCH_INSTANCE {
        SnmpValue::NoSuchInstance
    } else if tag == ber_tags::END_OF_MIB_VIEW {
        SnmpValue::EndOfMibView
    } else {
        // Unknown application/context type - treat as opaque
        SnmpValue::Opaque(crate::text::copy_bytes(value_bytes))
    };
    Ok((val, rest))
}


// ─── SNMP message structures ──────────────────────────────────────────────────

/// A single OID + value pair.
#[derive(Debug, Clone)]
pub struct VarBind {
    pub oid: Oid,
    pub value: SnmpValue,
}

/// The content of a [`VarBind`].
pub struct SpecVarBind {
    pub oid: Seq<u32>,
    pub value: SpecValue,
}

impl View for VarBind {
    type V = SpecVarBind;

    open spec fn view(&self) -> SpecVarBind {
        SpecVarBind { oid: self.oid@, value: self.value@ }
    }
}

/// The contents of a list of var-binds.
pub open spec fn var_binds_view(v: Seq<VarBind>) -> Seq<SpecVarBind> {
    v.map_values(|b: VarBind| b@)
}

/// Common structure for GET/GETNEXT/SET/RESPONSE PDUs.
#[derive(Debug, Clone)]
pub struct VarBindPdu {
    pub request_id: i64,
    pub error_status: i64,
    pub error_index: i64,
    pub var_binds: Vec<VarBind>,
}

/// GETBULK PDU.
#[derive(Debug, Clone)]
pub struct GetBulkPdu {
    pub request_id: i64,
    pub non_repeaters: i64,
    pub max_repetitions: i64,
    pub var_binds: Vec<VarBind>,
}

/// SNMP PDU variants.
#[derive(Debug, Clone)]
pub enum Pdu {
    GetRequest(VarBindPdu),
    GetNextRequest(VarBindPdu),
    GetResponse(VarBindPdu),
    SetRequest(VarBindPdu),
    GetBulkRequest(GetBulkPdu),
    /// Unrecognised PDU type - tag stored for error reporting.
    Unknown(u8),
}

/// Decoded SNMP message (v1 or v2c).
#[derive(Debug, Clone)]
pub struct SnmpMessage {
    pub version: i64,
    pub community: Vec<u8>,
    pub pdu: Pdu,
}

/// The content of a PDU: request id, the two integer fields that follow it
/// (error status and index, or non-repeaters and max-repetitions for
/// GETBULK), and the var-binds.
pub struct SpecPduBody {
    pub request_id: i64,
    pub field2: i64,
    pub field3: i64,
    pub var_binds: Seq<SpecVarBind>,
}

/// The content of a [`Pdu`].
pub enum SpecPdu {
    GetRequest(SpecPduBody),
    GetNextRequest(SpecPduBody),
    GetResponse(SpecPduBody),
    SetRequest(SpecPduBody),
    GetBulkRequest(SpecPduBody),
    Unknown(u8),
}

/// The content of an [`SnmpMessage`].
pub struct SpecMessage {
    pub version: i64,
    pub community: Seq<u8>,
    pub pdu: SpecPdu,
}

impl View for VarBindPdu {
    type V = SpecPduBody;

    open spec fn view(&self) -> SpecPduBody {
        SpecPduBody {
            request_id: self.request_id,
            field2: self.error_status,
            field3: self.error_index,
            var_binds: var_binds_view(self.var_binds@),
        }
    }
}

impl View for GetBulkPdu {
    type V = SpecPduBody;

    open spec fn view(&self) -> SpecPduBody {
        SpecPduBody {
            request_id: self.request_id,
            field2: self.non_repeaters,
            field3: self.max_repetitions,
            var_binds: var_binds_view(self.var_binds@),
        }
    }
}

impl View for Pdu {
    type V = SpecPdu;

    open spec fn view(&self) -> SpecPdu {
        match self {
            Pdu::GetRequest(p) => SpecPdu::GetRequest(p@),
            Pdu::GetNextRequest(p) => SpecPdu::GetNextRequest(p@),
            Pdu::GetResponse(p) => SpecPdu::GetResponse(p@),
            Pdu::SetRequest(p) => SpecPdu::SetRequest(p@),
            Pdu::GetBulkRequest(p) => SpecPdu::GetBulkRequest(p@),
            Pdu::Unknown(t) => SpecPdu::Unknown(*t),
        }
    }
}

impl View for SnmpMessage {
    type V = SpecMessage;

    open spec fn view(&self) -> SpecMessage {
        SpecMessage { version: self.version, community: self.community@, pdu: self.pdu@ }
    }
}

// ─── VarBind encoding/decoding ───────────────────────────────────────────────

/// The encoding of one var-bind: a SEQUENCE of the OID and the value.
pub open spec fn spec_encode_var_bind(vb: SpecVarBind) -> Seq<u8> {
    tlv(ber_tags::SEQUENCE, tlv(ber_tags::OID, oid_content(vb.oid)) + spec_encode_value(vb.value))
}

/// The var-bind can be encoded without overflow.
pub open spec fn var_bind_encodable(vb: SpecVarBind) -> bool {
    oid_encodable(vb.oid) && value_encodable(vb.value)
}

/// Encodings of var-binds, concatenated.
pub open spec fn var_binds_bytes(s: Seq<SpecVarBind>) -> Seq<u8>
    decreases s.len(),
{
    if s.len() == 0 {
        Seq::<u8>::empty()
    } else {
        var_binds_bytes(s.drop_last()) + spec_encode_var_bind(s.last())
    }
}

fn encode_var_bind(vb: &VarBind) -> (r: Vec<u8>)
    requires
        var_bind_encodable(vb@),
    ensures
        r@ == spec_encode_var_bind(vb@),
{
    let oid_bytes = encode_oid_bytes(&vb.oid);
    let mut content: Vec<u8> = Vec::new();
    push_tlv(&mut content, ber_tags::OID, oid_bytes.as_slice());
    let value_bytes = encode_value(&vb.value);
    crate::text::append_bytes(&mut content, value_bytes.as_slice());
    let mut out: Vec<u8> = Vec::new();
    push_tlv(&mut out, ber_tags::SEQUENCE, content.as_slice());
    assert(Seq::<u8>::empty() + tlv(ber_tags::OID, oid_bytes@) =~= tlv(ber_tags::OID, oid_bytes@));
    assert(Seq::<u8>::empty() + tlv(ber_tags::SEQUENCE, content@) =~= spec_encode_var_bind(vb@));
    out
}

/// What decoding one var-bind gives, and the bytes after it.
pub open spec fn spec_decode_var_bind(d: Seq<u8>) -> Result<(SpecVarBind, Seq<u8>), Seq<char>> {
    match spec_tlv(d) {
        Err(e) => Err(e),
        Ok((tag, seq_bytes, rest)) => if tag != ber_tags::SEQUENCE {
            Err(unexpected_tag_text("Expected SEQUENCE (0x30), "@, tag))
        } else {
            match spec_tlv(seq_bytes) {
                Err(e) => Err(e),
                Ok((oid_tag, oid_bytes, remaining)) => if oid_tag != ber_tags::OID {
                    Err(unexpected_tag_text("Expected OID (0x06), "@, oid_tag))
                } else {
                    match spec_oid_bytes(oid_bytes) {
                        Err(e) => Err(e),
                        Ok(oid) => match spec_decode_value(remaining) {
                            Err(e) => Err(e),
                            Ok((value, _)) => Ok((SpecVarBind { oid, value }, rest)),
                        },
                    }
                },
            }
        },
    }
}

fn decode_var_bind(data: &[u8]) -> (r: Result<(VarBind, &[u8]), SnmpsimError>)
    ensures
        agrees(r, spec_decode_var_bind(data@), |p: (VarBind, &[u8])| (p.0@, p.1@)),
{
    let (tag, seq_bytes, rest) = match decode_tlv(data) {
        Ok(t) => t,
        Err(e) => {
            return Err(e);
        },
    };
    if tag != ber_tags::SEQUENCE {
        return Err(unexpected_tag("Expected SEQUENCE (0x30), ", tag));
    }
    let (oid_tag, oid_bytes, remaining) = match decode_tlv(seq_bytes) {
        Ok(t) => t,
        Err(e) => {
            return Err(e);
        },
    };
    if oid_tag != ber_tags::OID {
        return Err(unexpected_tag("Expected OID (0x06), ", oid_tag));
    }
    let oid = match decode_oid_bytes(oid_bytes) {
        Ok(o) => o,
        Err(e) => {
            return Err(e);
        },
    };
    let (value, _) = match decode_value(remaining) {
        Ok(v) => v,
        Err(e) => {
            return Err(e);
        },
    };
    Ok((VarBind { oid, value }, rest))
}

/// A successfully decoded TLV leaves strictly fewer bytes behind.
pub proof fn lemma_tlv_shrinks(d: Seq<u8>)
    ensures
        spec_tlv(d) matches Ok((t, v, rest)) ==> rest.len() < d.len() && v.len() < d.len(),
{
}

/// Var-binds decoded one after another until the bytes run out.
pub open spec fn decode_var_bind_seq(d: Seq<u8>) -> Result<Seq<SpecVarBind>, Seq<char>>
    decreases d.len(),
{
    if d.len() == 0 {
        Ok(Seq::<SpecVarBind>::empty())
    } else {
        match spec_decode_var_bind(d) {
            Err(e) => Err(e),
            Ok((vb, rest)) => {
                proof {
                    lemma_tlv_shrinks(d);
                }
                match decode_var_bind_seq(rest) {
                    Err(e) => Err(e),
                    Ok(r) => Ok(seq![vb] + r),
                }
            },
        }
    }
}

/// `prefix` placed before a successful result; errors pass through.
pub open spec fn prepend_ok(prefix: Seq<SpecVarBind>, r: Result<Seq<SpecVarBind>, Seq<char>>) -> Result<
    Seq<SpecVarBind>,
    Seq<char>,
> {
    match r {
        Ok(v) => Ok(prefix + v),
        Err(e) => Err(e),
    }
}

proof fn lemma_prepend_ok_push(
    prefix: Seq<SpecVarBind>,
    vb: SpecVarBind,
    r: Result<Seq<SpecVarBind>, Seq<char>>,
)
    ensures
        prepend_ok(prefix, prepend_ok(seq![vb], r)) == prepend_ok(prefix.push(vb), r),
{
    if let Ok(v) = r {
        assert(prefix + (seq![vb] + v) =~= prefix.push(vb) + v);
    }
}

proof fn lemma_var_bind_seq_step(d: Seq<u8>)
    requires
        d.len() > 0,
    ensures
        spec_decode_var_bind(d) matches Err(e) ==> decode_var_bind_seq(d) == Err::<
            Seq<SpecVarBind>,
            Seq<char>,
        >(e),
        spec_decode_var_bind(d) matches Ok((vb, rest)) ==> decode_var_bind_seq(d) == prepend_ok(
            seq![vb],
            decode_var_bind_seq(rest),
        ),
{
}

/// What decoding a VarBindList gives (bytes after the list are ignored).
pub open spec fn spec_var_bind_list(d: Seq<u8>) -> Result<Seq<SpecVarBind>, Seq<char>> {
    match spec_tlv(d) {
        Err(e) => Err(e),
        Ok((tag, list_bytes, _)) => if tag != ber_tags::SEQUENCE {
            Err(unexpected_tag_text("Expected VarBindList SEQUENCE (0x30), "@, tag))
        } else {
            decode_var_bind_seq(list_bytes)
        },
    }
}

fn decode_var_bind_list(data: &[u8]) -> (r: Result<Vec<VarBind>, SnmpsimError>)
    ensures
        agrees(r, spec_var_bind_list(data@), |v: Vec<VarBind>| var_binds_view(v@)),
{
    let (tag, list_bytes, _) = match decode_tlv(data) {
        Ok(t) => t,
        Err(e) => {
            return Err(e);
        },
    };
    if tag != ber_tags::SEQUENCE {
        return Err(unexpected_tag("Expected VarBindList SEQUENCE (0x30), ", tag));
    }
    let mut var_binds: Vec<VarBind> = Vec::new();
    let mut remaining = list_bytes;
    assert(var_binds_view(var_binds@) =~= Seq::<SpecVarBind>::empty());
    while remaining.len() > 0
        invariant
            spec_var_bind_list(data@) == decode_var_bind_seq(list_bytes@),
            decode_var_bind_seq(list_bytes@) == prepend_ok(
                var_binds_view(var_binds@),
                decode_var_bind_seq(remaining@),
            ),
        decreases remaining@.len(),
    {
        proof {
            lemma_tlv_shrinks(remaining@);
            lemma_var_bind_seq_step(remaining@);
        }
        let (vb, rest) = match decode_var_bind(remaining) {
            Ok(p) => p,
            Err(e) => {
                return Err(e);
            },
        };
        proof {
            lemma_prepend_ok_push(var_binds_view(var_binds@), vb@, decode_var_bind_seq(rest@));
            assert(var_binds_view(var_binds@.push(vb)) =~= var_binds_view(var_binds@).push(vb@));
        }
        var_binds.push(vb);
        remaining = rest;
    }
    assert(var_binds_view(var_binds@) + Seq::<SpecVarBind>::empty() =~= var_binds_view(
        var_binds@,
    ));
    Ok(var_binds)
}

// ─── PDU encoding/decoding ───────────────────────────────────────────────────

/// What decoding a PDU body gives: three integers (their tags are not
/// checked) and the var-bind list.
pub open spec fn spec_pdu_fields(d: Seq<u8>) -> Result<SpecPduBody, Seq<char>> {
    match spec_tlv(d) {
        Err(e) => Err(e),
        Ok((_, a, after_a)) => match spec_tlv(after_a) {
            Err(e) => Err(e),
            Ok((_, b, after_b)) => match spec_tlv(after_b) {
                Err(e) => Err(e),
                Ok((_, c, after_c)) => match spec_var_bind_list(after_c) {
                    Err(e) => Err(e),
                    Ok(vbs) => Ok(
                        SpecPduBody {
                            request_id: spec_integer(a),
                            field2: spec_integer(b),
                            field3: spec_integer(c),
                            var_binds: vbs,
                        },
                    ),
                },
            },
        },
    }
}

fn decode_pdu_body(data: &[u8]) -> (r: Result<(i64, i64, i64, Vec<VarBind>), SnmpsimError>)
    ensures
        agrees(
            r,
            spec_pdu_fields(data@),
            |p: (i64, i64, i64, Vec<VarBind>)|
                SpecPduBody {
                    request_id: p.0,
                    field2: p.1,
                    field3: p.2,
                    var_binds: var_binds_view(p.3@),
                },
        ),
{
    let (_, req_id_bytes, after_req) = match decode_tlv(data) {
        Ok(t) => t,
        Err(e) => {
            return Err(e);
        },
    };
    let request_id = decode_integer(req_id_bytes);
    let (_, err_status_bytes, after_err) = match decode_tlv(after_req) {
        Ok(t) => t,
        Err(e) => {
            return Err(e);
        },
    };
    let error_status = decode_integer(err_status_bytes);
    let (_, err_index_bytes, after_index) = match decode_tlv(after_err) {
        Ok(t) => t,
        Err(e) => {
            return Err(e);
        },
    };
    let error_index = decode_integer(err_index_bytes);
    let var_binds = match decode_var_bind_list(after_index) {
        Ok(v) => v,
        Err(e) => {
            return Err(e);
        },
    };
    Ok((request_id, error_status, error_index, var_binds))
}

/// The encoding of a PDU with the given tag and fields.
pub open spec fn spec_encode_pdu(
    tag: u8,
    request_id: i64,
    error_status: i64,
    error_index: i64,
    vbs: Seq<SpecVarBind>,
) -> Seq<u8> {
    tlv(
        tag,
        tlv(ber_tags::INTEGER, int_content(request_id)) + tlv(
            ber_tags::INTEGER,
            int_content(error_status),
        ) + tlv(ber_tags::INTEGER, int_content(error_index)) + tlv(
            ber_tags::SEQUENCE,
            var_binds_bytes(vbs),
        ),
    )
}

fn encode_pdu_body(
    pdu_tag: u8,
    request_id: i64,
    error_status: i64,
    error_index: i64,
    var_binds: &[VarBind],
) -> (r: Vec<u8>)
    requires
        forall|i: int| 0 <= i < var_binds@.len() ==> var_bind_encodable(#[trigger] var_binds@[i]@),
    ensures
        r@ == spec_encode_pdu(
            pdu_tag,
            request_id,
            error_status,
            error_index,
            var_binds_view(var_binds@),
        ),
{
    let mut content: Vec<u8> = Vec::new();
    let req_bytes = encode_integer_bytes(request_id);
    push_tlv(&mut content, ber_tags::INTEGER, req_bytes.as_slice());
    let es_bytes = encode_integer_bytes(error_status);
    push_tlv(&mut content, ber_tags::INTEGER, es_bytes.as_slice());
    let ei_bytes = encode_integer_bytes(error_index);
    push_tlv(&mut content, ber_tags::INTEGER, ei_bytes.as_slice());
    let mut vbl: Vec<u8> = Vec::new();
    let mut i: usize = 0;
    while i < var_binds.len()
        invariant
            i <= var_binds@.len(),
            forall|j: int|
                0 <= j < var_binds@.len() ==> var_bind_encodable(#[trigger] var_binds@[j]@),
            vbl@ == var_binds_bytes(var_binds_view(var_binds@.take(i as int))),
        decreases var_binds@.len() - i,
    {
        let b = encode_var_bind(&var_binds[i]);
        crate::text::append_bytes(&mut vbl, b.as_slice());
        proof {
            assert(var_binds_view(var_binds@.take(i + 1)).drop_last() =~= var_binds_view(
                var_binds@.take(i as int),
            ));
            assert(var_binds_view(var_binds@.take(i + 1)).last() == var_binds@[i as int]@);
        }
        i += 1;
    }
    assert(var_binds@.take(i as int) =~= var_binds@);
    push_tlv(&mut content, ber_tags::SEQUENCE, vbl.as_slice());
    let mut out: Vec<u8> = Vec::new();
    push_tlv(&mut out, pdu_tag, content.as_slice());
    assert(Seq::<u8>::empty() + tlv(ber_tags::INTEGER, req_bytes@) + tlv(
        ber_tags::INTEGER,
        es_bytes@,
    ) + tlv(ber_tags::INTEGER, ei_bytes@) + tlv(ber_tags::SEQUENCE, vbl@) =~= tlv(
        ber_tags::INTEGER,
        req_bytes@,
    ) + tlv(ber_tags::INTEGER, es_bytes@) + tlv(ber_tags::INTEGER, ei_bytes@) + tlv(
        ber_tags::SEQUENCE,
        vbl@,
    ));
    assert(Seq::<u8>::empty() + tlv(pdu_tag, content@) =~= tlv(pdu_tag, content@));
    out
}

// ─── Top-level SNMP message decode ───────────────────────────────────────────

/// The PDU that a tag and a PDU body decode to.
pub open spec fn spec_pdu_of(tag: u8, body: Seq<u8>) -> Result<SpecPdu, Seq<char>> {
    if tag == ber_tags::GET_REQUEST || tag == ber_tags::GET_NEXT_REQUEST || tag
        == ber_tags::GET_RESPONSE || tag == ber_tags::SET_REQUEST || tag
        == ber_tags::GET_BULK_REQUEST {
        match spec_pdu_fields(body) {
            Err(e) => Err(e),
            Ok(f) => Ok(
                if tag == ber_tags::GET_REQUEST {
                    SpecPdu::GetRequest(f)
                } else if tag == ber_tags::GET_NEXT_REQUEST {
                    SpecPdu::GetNextRequest(f)
                } else if tag == ber_tags::GET_RESPONSE {
                    SpecPdu::GetResponse(f)
                } else if tag == ber_tags::SET_REQUEST {
                    SpecPdu::SetRequest(f)
                } else {
                    SpecPdu::GetBulkRequest(f)
                },
            ),
        }
    } else {
        Ok(SpecPdu::Unknown(tag))
    }
}

/// What decoding an SNMP message gives.
pub open spec fn spec_decode_message(d: Seq<u8>) -> Result<SpecMessage, Seq<char>> {
    match spec_tlv(d) {
        Err(e) => Err(e),
        Ok((tag, msg, _)) => if tag != ber_tags::SEQUENCE {
            Err(unexpected_tag_text("Expected SNMP message SEQUENCE (0x30), "@, tag))
        } else {
            match spec_tlv(msg) {
                Err(e) => Err(e),
                Ok((_, version_bytes, after_version)) => match spec_tlv(after_version) {
                    Err(e) => Err(e),
                    Ok((_, community, after_community)) => if after_community.len() == 0 {
                        Err("Missing PDU in SNMP message"@)
                    } else {
                        match spec_tlv(after_community) {
                            Err(e) => Err(e),
                            Ok((_, pdu_bytes, _)) => match spec_pdu_of(
                                after_community[0],
                                pdu_bytes,
                            ) {
                                Err(e) => Err(e),
                                Ok(pdu) => Ok(
                                    SpecMessage {
                                        version: spec_integer(version_bytes),
                                        community,
                                        pdu,
                                    },
                                ),
                            },
                        }
                    },
                },
            }
        },
    }
}

fn decode_pdu(pdu_tag: u8, pdu_bytes: &[u8]) -> (r: Result<Pdu, SnmpsimError>)
    ensures
        agrees(r, spec_pdu_of(pdu_tag, pdu_bytes@), |p: Pdu| p@),
{
    if pdu_tag == ber_tags::GET_REQUEST || pdu_tag == ber_tags::GET_NEXT_REQUEST || pdu_tag
        == ber_tags::GET_RESPONSE || pdu_tag == ber_tags::SET_REQUEST || pdu_tag
        == ber_tags::GET_BULK_REQUEST {
        let (request_id, f2, f3, var_binds) = match decode_pdu_body(pdu_bytes) {
            Ok(t) => t,
            Err(e) => {
                return Err(e);
            },
        };
        if pdu_tag == ber_tags::GET_BULK_REQUEST {
            // GETBULK reuses error-status as non-repeaters, error-index as max-repetitions
            Ok(
                Pdu::GetBulkRequest(
                    GetBulkPdu { request_id, non_repeaters: f2, max_repetitions: f3, var_binds },
                ),
            )
        } else {
            let body = VarBindPdu { request_id, error_status: f2, error_index: f3, var_binds };
            if pdu_tag == ber_tags::GET_REQUEST {
                Ok(Pdu::GetRequest(body))
            } else if pdu_tag == ber_tags::GET_NEXT_REQUEST {
                Ok(Pdu::GetNextRequest(body))
            } else if pdu_tag == ber_tags::GET_RESPONSE {
                Ok(Pdu::GetResponse(body))
            } else {
                Ok(Pdu::SetRequest(body))
            }
        }
    } else {
        Ok(Pdu::Unknown(pdu_tag))
    }
}

/// Decode an SNMP v1/v2c message from raw UDP bytes.
pub fn decode_message(data: &[u8]) -> (r: Result<SnmpMessage, SnmpsimError>)
    ensures
        agrees(r, spec_decode_message(data@), |m: SnmpMessage| m@),
{
    let (tag, msg_bytes, _) = match decode_tlv(data) {
        Ok(t) => t,
        Err(e) => {
            return Err(e);
        },
    };
    if tag != ber_tags::SEQUENCE {
        return Err(unexpected_tag("Expected SNMP message SEQUENCE (0x30), ", tag));
    }
    let (_, version_bytes, after_version) = match decode_tlv(msg_bytes) {
        Ok(t) => t,
        Err(e) => {
            return Err(e);
        },
    };
    let version = decode_integer(version_bytes);
    let (_, community_bytes, after_community) = match decode_tlv(after_version) {
        Ok(t) => t,
        Err(e) => {
            return Err(e);
        },
    };
    let community = crate::text::copy_bytes(community_bytes);
    if after_community.len() == 0 {
        return Err(ber_err_str("Missing PDU in SNMP message"));
    }
    let pdu_tag = after_community[0];
    let (_, pdu_bytes, _) = match decode_tlv(after_community) {
        Ok(t) => t,
        Err(e) => {
            return Err(e);
        },
    };
    let pdu = match decode_pdu(pdu_tag, pdu_bytes) {
        Ok(p) => p,
        Err(e) => {
            return Err(e);
        },
    };
    Ok(SnmpMessage { version, community, pdu })
}

// ─── Top-level SNMP message encode ───────────────────────────────────────────

/// The encoding of a GetResponse message.
pub open spec fn spec_encode_response(
    version: i64,
    community: Seq<u8>,
    request_id: i64,
    error_status: i64,
    error_index: i64,
    vbs: Seq<SpecVarBind>,
) -> Seq<u8> {
    spec_encode_message(
        ber_tags::GET_RESPONSE,
        version,
        community,
        request_id,
        error_status,
        error_index,
        vbs,
    )
}

/// The bytes of a message with the given version and community whose PDU
/// has the tag `pdu_tag`.
pub open spec fn spec_encode_message(
    pdu_tag: u8,
    version: i64,
    community: Seq<u8>,
    request_id: i64,
    error_status: i64,
    error_index: i64,
    vbs: Seq<SpecVarBind>,
) -> Seq<u8> {
    tlv(
        ber_tags::SEQUENCE,
        tlv(ber_tags::INTEGER, int_content(version)) + tlv(ber_tags::OCTET_STRING, community)
            + spec_encode_pdu(pdu_tag, request_id, error_status, error_index, vbs),
    )
}

/// Encode a message whose PDU has the tag `pdu_tag` into raw UDP bytes.
pub fn encode_message(
    pdu_tag: u8,
    version: i64,
    community: &[u8],
    request_id: i64,
    error_status: i64,
    error_index: i64,
    var_binds: &[VarBind],
) -> (r: Vec<u8>)
    requires
        forall|i: int| 0 <= i < var_binds@.len() ==> var_bind_encodable(#[trigger] var_binds@[i]@),
    ensures
        r@ == spec_encode_message(
            pdu_tag,
            version,
            community@,
            request_id,
            error_status,
            error_index,
            var_binds_view(var_binds@),
        ),
{
    let pdu = encode_pdu_body(
        pdu_tag,
        request_id,
        error_status,
        error_index,
        var_binds,
    );
    let mut msg_content: Vec<u8> = Vec::new();
    let ver_bytes = encode_integer_bytes(version);
    push_tlv(&mut msg_content, ber_tags::INTEGER, ver_bytes.as_slice());
    push_tlv(&mut msg_content, ber_tags::OCTET_STRING, community);
    crate::text::append_bytes(&mut msg_content, pdu.as_slice());
    let mut out: Vec<u8> = Vec::new();
    push_tlv(&mut out, ber_tags::SEQUENCE, msg_content.as_slice());
    assert(Seq::<u8>::empty() + tlv(ber_tags::INTEGER, ver_bytes@) + tlv(
        ber_tags::OCTET_STRING,
        community@,
    ) + pdu@ =~= tlv(ber_tags::INTEGER, ver_bytes@) + tlv(ber_tags::OCTET_STRING, community@)
        + pdu@);
    assert(Seq::<u8>::empty() + tlv(ber_tags::SEQUENCE, msg_content@) =~= tlv(
        ber_tags::SEQUENCE,
        msg_content@,
    ));
    out
}

/// Encode an SNMP v1/v2c GetResponse message into raw UDP bytes.
pub fn encode_response(
    version: i64,
    community: &[u8],
    request_id: i64,
    error_status: i64,
    error_index: i64,
    var_binds: &[VarBind],
) -> (r: Vec<u8>)
    requires
        forall|i: int| 0 <= i < var_binds@.len() ==> var_bind_encodable(#[trigger] var_binds@[i]@),
    ensures
        r@ == spec_encode_response(
            version,
            community@,
            request_id,
            error_status,
            error_index,
            var_binds_view(var_binds@),
        ),
{
    encode_message(
        ber_tags::GET_RESPONSE,
        version,
        community,
        request_id,
        error_status,
        error_index,
        var_binds,
    )
}

} // verus!
