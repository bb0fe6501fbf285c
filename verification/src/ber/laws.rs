//! Laws of the BER codec: what decoding gives back of an encoding.

use vstd::prelude::*;

use crate::snmp_value::{ber_tag_of, ber_tags, SpecValue};

use crate::ber::{
    decode_var_bind_seq, lemma_tlv_shrinks, prepend_ok, spec_decode_message, spec_decode_value,
    spec_decode_var_bind, spec_encode_pdu, spec_encode_response, spec_encode_value,
    spec_encode_var_bind, spec_pdu_fields, spec_pdu_of, spec_var_bind_list, value_content,
    var_binds_bytes, SpecMessage, SpecPdu, SpecPduBody, SpecVarBind, arc_bytes, arcs_bytes, cont_bytes, decode_arcs, lemma_take_arc_bounds, oid_content,
    spec_oid_bytes, take_arc, be_bytes, be_usize, fold_i64, fold_u64, int_content, int_start, len_bytes, redundant_at,
    skip_zeros, spec_integer, spec_length, spec_tlv, tlv, twos64, unsigned_content,
};

verus! {

// ─── Lengths and TLVs ────────────────────────────────────────────────────────

proof fn lemma_be_usize_small(s: Seq<u8>)
    requires
        s.len() <= 3,
    ensures
        be_usize(s) == be_val(s),
        be_val(s) < pow256(s.len()),
    decreases s.len(),
{
    lemma_be_val_bound(s);
    if s.len() > 0 {
        lemma_be_usize_small(s.drop_last());
        lemma_pow_values();
        assert(pow256(s.len()) <= 0x100_0000);
    }
}

/// Lengths below 2^24 are written in at most four octets and read back.
pub proof fn lemma_length_roundtrip(len: nat, rest: Seq<u8>)
    requires
        len < 0x100_0000,
    ensures
        spec_length(len_bytes(len) + rest) == Ok::<(usize, Seq<u8>), Seq<char>>(
            (len as usize, rest),
        ),
{
    let d = len_bytes(len) + rest;
    let e = Seq::<u8>::empty();
    assert(be_val(e) == 0);
    if len < 128 {
        let b = len as u8;
        assert(b < 128 ==> b & 0x80 == 0) by (bit_vector);
        assert(d[0] == b);
        assert(d.skip(1) =~= rest);
    } else if len < 256 {
        assert(0x81u8 & 0x80 != 0 && 0x81u8 & 0x7F == 1) by (bit_vector);
        assert(d[0] == 0x81u8);
        let s = d.subrange(1, 2);
        assert(s =~= seq![len as u8]);
        assert(s.drop_last() =~= e);
        lemma_be_usize_small(s);
        assert(d.skip(2) =~= rest);
    } else if len < 65536 {
        assert(0x82u8 & 0x80 != 0 && 0x82u8 & 0x7F == 2) by (bit_vector);
        assert(d[0] == 0x82u8);
        let s = d.subrange(1, 3);
        assert(s =~= seq![(len / 256) as u8, (len % 256) as u8]);
        assert(s.drop_last().drop_last() =~= e);
        assert(s.drop_last() =~= seq![(len / 256) as u8]);
        assert(be_val(s.drop_last()) == len / 256);
        assert((len / 256) * 256 + len % 256 == len) by (nonlinear_arith);
        lemma_be_usize_small(s);
        assert(d.skip(3) =~= rest);
    } else {
        assert(0x83u8 & 0x80 != 0 && 0x83u8 & 0x7F == 3) by (bit_vector);
        assert(d[0] == 0x83u8);
        let s = d.subrange(1, 4);
        let a = (len / 65536) % 256;
        let b = (len / 256) % 256;
        let c = len % 256;
        assert(s =~= seq![a as u8, b as u8, c as u8]);
        assert(s.drop_last().drop_last().drop_last() =~= e);
        assert(s.drop_last().drop_last() =~= seq![a as u8]);
        assert(s.drop_last() =~= seq![a as u8, b as u8]);
        assert(len / 65536 < 256) by (nonlinear_arith)
            requires
                len < 0x100_0000,
        ;
        assert(a * 256 + b == len / 256) by (nonlinear_arith)
            requires
                a == (len / 65536) % 256,
                b == (len / 256) % 256,
                len / 65536 < 256,
        ;
        assert((len / 256) * 256 + c == len) by (nonlinear_arith)
            requires
                c == len % 256,
        ;
        assert(be_val(s.drop_last().drop_last()) == a);
        assert(be_val(s.drop_last()) == a * 256 + b);
        lemma_be_usize_small(s);
        assert(d.skip(4) =~= rest);
    }
}

/// Decoding a TLV whose content is shorter than 2^24 gives back the tag, the
/// content and the bytes that follow.
pub proof fn lemma_tlv_roundtrip(tag: u8, content: Seq<u8>, rest: Seq<u8>)
    requires
        content.len() < 0x100_0000,
    ensures
        spec_tlv(tlv(tag, content) + rest) == Ok::<(u8, Seq<u8>, Seq<u8>), Seq<char>>(
            (tag, content, rest),
        ),
{
    let d = tlv(tag, content) + rest;
    assert(d.skip(1) =~= len_bytes(content.len()) + (content + rest));
    lemma_length_roundtrip(content.len(), content + rest);
    assert((content + rest).take(content.len() as int) =~= content);
    assert((content + rest).skip(content.len() as int) =~= rest);
}

/// Bytes after a complete TLV do not change how it decodes.
pub proof fn lemma_tlv_prefix(a: Seq<u8>, b: Seq<u8>)
    ensures
        spec_tlv(a) matches Ok((t, v, r)) ==> spec_tlv(a + b) == Ok::<
            (u8, Seq<u8>, Seq<u8>),
            Seq<char>,
        >((t, v, r + b)),
{
    if let Ok((t, v, r)) = spec_tlv(a) {
        let d = a.skip(1);
        let e = (a + b).skip(1);
        assert(e =~= d + b);
        assert((a + b)[0] == a[0]);
        if d[0] & 0x80 == 0 {
            assert(e.skip(1) =~= d.skip(1) + b);
        } else {
            let n = (d[0] & 0x7F) as int;
            assert(e.subrange(1, n + 1) =~= d.subrange(1, n + 1));
            assert(e.skip(n + 1) =~= d.skip(n + 1) + b);
        }
        let (len, rest) = spec_length(d)->Ok_0;
        assert((rest + b).take(len as int) =~= rest.take(len as int));
        assert((rest + b).skip(len as int) =~= rest.skip(len as int) + b);
    }
}

// ─── Big-endian values ───────────────────────────────────────────────────────

pub open spec fn pow256(k: nat) -> nat
    decreases k,
{
    if k == 0 {
        1
    } else {
        256 * pow256((k - 1) as nat)
    }
}

/// Big-endian value of bytes, without any bound.
pub open spec fn be_val(s: Seq<u8>) -> nat
    decreases s.len(),
{
    if s.len() == 0 {
        0
    } else {
        be_val(s.drop_last()) * 256 + s.last() as nat
    }
}

/// Two's-complement value of bytes: the big-endian value, less 256^len when
/// the first byte has its top bit set.
pub open spec fn signed_val(s: Seq<u8>) -> int {
    if s.len() > 0 && s[0] >= 128 {
        be_val(s) - pow256(s.len())
    } else {
        be_val(s) as int
    }
}

proof fn lemma_pow256_pos(k: nat)
    ensures
        pow256(k) >= 1,
    decreases k,
{
    if k > 0 {
        lemma_pow256_pos((k - 1) as nat);
    }
}

proof fn lemma_be_val_bound(s: Seq<u8>)
    ensures
        be_val(s) < pow256(s.len()),
    decreases s.len(),
{
    if s.len() > 0 {
        lemma_be_val_bound(s.drop_last());
        let p = pow256((s.len() - 1) as nat);
        let x = be_val(s.drop_last());
        assert(x * 256 + s.last() < 256 * p) by (nonlinear_arith)
            requires
                x < p,
                s.last() < 256,
        ;
    }
}

/// The first byte weighs 256^(len - 1).
proof fn lemma_be_val_first(s: Seq<u8>)
    requires
        s.len() > 0,
    ensures
        be_val(s) == s[0] * pow256((s.len() - 1) as nat) + be_val(s.drop_first()),
    decreases s.len(),
{
    if s.len() > 1 {
        let t = s.drop_last();
        lemma_be_val_first(t);
        assert(t[0] == s[0]);
        assert(t.drop_first() =~= s.drop_first().drop_last());
        assert(s.drop_first().last() == s.last());
        let p = pow256((t.len() - 1) as nat);
        assert(pow256((s.len() - 1) as nat) == 256 * p);
        assert(be_val(s) == be_val(t) * 256 + s.last());
        assert(be_val(t) == s[0] * p + be_val(t.drop_first()));
        assert(be_val(s.drop_first()) == be_val(t.drop_first()) * 256 + s.last());
        assert((s[0] * p + be_val(t.drop_first())) * 256 + s.last() == s[0] * (256 * p) + (be_val(
            t.drop_first(),
        ) * 256 + s.last())) by (nonlinear_arith);
        let k1 = pow256((s.len() - 1) as nat);
        let x = s[0];
        assert(be_val(s) == x * k1 + be_val(s.drop_first())) by (nonlinear_arith)
            requires
                k1 == 256 * p,
                be_val(s) == x * (256 * p) + be_val(s.drop_first()),
        ;
    } else {
        assert(s.drop_last() =~= Seq::<u8>::empty());
        assert(s.drop_first() =~= Seq::<u8>::empty());
        assert(be_val(Seq::<u8>::empty()) == 0);
        assert(pow256(0) == 1);
        assert(be_val(s) == s[0]);
        let k1 = pow256((s.len() - 1) as nat);
        let x = s[0];
        assert(be_val(s) == x * k1 + be_val(s.drop_first())) by (nonlinear_arith)
            requires
                k1 == 1,
                be_val(s) == x,
                be_val(s.drop_first()) == 0,
        ;
    }
}

proof fn lemma_be_bytes_val(u: nat, n: nat)
    ensures
        be_val(be_bytes(u, n)) == u % pow256(n),
    decreases n,
{
    crate::ber::lemma_be_bytes_len(u, n);
    if n > 0 {
        lemma_be_bytes_val(u / 256, (n - 1) as nat);
        assert(be_bytes(u, n).drop_last() =~= be_bytes(u / 256, (n - 1) as nat));
        let p = pow256((n - 1) as nat);
        lemma_pow256_pos((n - 1) as nat);
        vstd::arithmetic::div_mod::lemma_mod_breakdown(u as int, 256, p as int);
        assert(((u / 256) % p) * 256 == 256 * ((u / 256) % p));
    }
}

proof fn lemma_be_bytes_first(u: nat, n: nat)
    requires
        n > 0,
    ensures
        be_bytes(u, n)[0] == (u / pow256((n - 1) as nat)) % 256,
    decreases n,
{
    crate::ber::lemma_be_bytes_len(u, n);
    if n > 1 {
        lemma_be_bytes_first(u / 256, (n - 1) as nat);
        let p = pow256((n - 2) as nat);
        lemma_pow256_pos((n - 2) as nat);
        vstd::arithmetic::div_mod::lemma_div_denominator(u as int, 256, p as int);
    } else {
        assert(pow256(0) == 1);
    }
}

// ─── INTEGER ─────────────────────────────────────────────────────────────────

/// Folding up to eight bytes from a sign of 0 or -1 computes their
/// two's-complement value without wrapping.
proof fn lemma_fold_i64(s: Seq<u8>, init: i64)
    requires
        s.len() <= 8,
        s.len() > 0,
        init == (if s[0] >= 128 { -1i64 } else { 0i64 }),
    ensures
        fold_i64(s, init) == signed_val(s),
    decreases s.len(),
{
    lemma_be_val_bound(s);
    lemma_be_val_first(s);
    let k = s.len();
    let p = pow256((k - 1) as nat);
    lemma_pow256_pos((k - 1) as nat);
    lemma_pow_le_7((k - 1) as nat);
    lemma_pow_values();
    if k == 1 {
        assert(s.drop_last() =~= Seq::<u8>::empty());
        assert(be_val(Seq::<u8>::empty()) == 0);
        assert(be_val(s) == s[0]);
        assert(fold_i64(Seq::<u8>::empty(), init) == init);
        assert(fold_i64(s, init) == ((init * 256 + s.last()) as i64));
        assert(s.last() == s[0]);
        let y = init * 256 + s[0];
        assert(-128 <= y < 128);
        assert(fold_i64(s, init) == y);
    } else {
        let t = s.drop_last();
        assert(t[0] == s[0]);
        lemma_fold_i64(t, init);
        lemma_pow_le_7((k - 2) as nat);
        assert(fold_i64(s, init) == ((fold_i64(t, init) * 256 + s.last()) as i64));
        assert(be_val(s) == be_val(t) * 256 + s.last());
        lemma_be_val_bound(t);
        lemma_be_val_first(t);
        lemma_be_val_bound(t.drop_first());
        let q = pow256((k - 2) as nat);
        lemma_pow256_pos((k - 2) as nat);
        let x = signed_val(t);
        let y = x * 256 + s.last();
        if s[0] >= 128 {
            // x = be(t) - 256 * q, with be(t) >= s[0] * q >= 128 * q
            assert(be_val(t) >= 128 * q) by (nonlinear_arith)
                requires
                    be_val(t) == s[0] * q + be_val(t.drop_first()),
                    s[0] >= 128,
                    q >= 1,
            ;
            assert(y == be_val(s) - pow256(k)) by (nonlinear_arith)
                requires
                    x == be_val(t) - 256 * q,
                    y == x * 256 + s.last(),
                    be_val(s) == be_val(t) * 256 + s.last(),
                    pow256(k) == 256 * p,
                    p == 256 * q,
            ;
            assert(y >= -128 * p) by (nonlinear_arith)
                requires
                    x == be_val(t) - 256 * q,
                    y == x * 256 + s.last(),
                    be_val(t) >= 128 * q,
                    p == 256 * q,
                    s.last() >= 0,
            ;
            assert(-128 * p >= i64::MIN) by (nonlinear_arith)
                requires
                    p <= 0x100_0000_0000_0000,
            ;
            assert(y < 0) by (nonlinear_arith)
                requires
                    x == be_val(t) - 256 * q,
                    y == x * 256 + s.last(),
                    be_val(t) < 256 * q,
                    s.last() < 256,
            ;
            assert(fold_i64(s, init) == y);
        } else {
            assert(be_val(t) < 128 * q) by (nonlinear_arith)
                requires
                    be_val(t) == s[0] * q + be_val(t.drop_first()),
                    s[0] < 128,
                    be_val(t.drop_first()) < q,
                    q >= 1,
            ;
            assert(y < 128 * p) by (nonlinear_arith)
                requires
                    x == be_val(t),
                    y == x * 256 + s.last(),
                    be_val(t) < 128 * q,
                    p == 256 * q,
                    s.last() < 256,
            ;
            assert(128 * p <= i64::MAX + 1) by (nonlinear_arith)
                requires
                    p <= 0x100_0000_0000_0000,
            ;
            assert(y >= 0) by (nonlinear_arith)
                requires
                    x == be_val(t),
                    y == x * 256 + s.last(),
                    x >= 0,
                    s.last() >= 0,
            ;
            assert(fold_i64(s, init) == y);
            assert(y == be_val(s));
        }
    }
}

proof fn lemma_pow_values()
    ensures
        pow256(0) == 1,
        pow256(1) == 0x100,
        pow256(2) == 0x1_0000,
        pow256(3) == 0x100_0000,
        pow256(4) == 0x1_0000_0000,
        pow256(5) == 0x100_0000_0000,
        pow256(6) == 0x1_0000_0000_0000,
        pow256(7) == 0x100_0000_0000_0000,
        pow256(8) == 0x1_0000_0000_0000_0000,
{
    reveal_with_fuel(pow256, 9);
}

proof fn lemma_pow_le_7(k: nat)
    requires
        k <= 7,
    ensures
        pow256(k) <= 0x100_0000_0000_0000,
        pow256(k + 1) == 256 * pow256(k),
{
    lemma_pow_values();
}

/// Dropping a redundant sign byte keeps the two's-complement value.
proof fn lemma_strip_keeps_signed(b: Seq<u8>, i: int)
    requires
        0 <= i,
        i + 1 < b.len(),
        redundant_at(b, i),
    ensures
        signed_val(b.skip(i)) == signed_val(b.skip(i + 1)),
{
    let s = b.skip(i);
    let t = b.skip(i + 1);
    assert(s.drop_first() =~= t);
    assert(s[0] == b[i] && t[0] == b[i + 1] && s[1] == b[i + 1]);
    lemma_be_val_first(s);
    let m = t.len();
    lemma_pow256_pos(m);
    let x = b[i + 1];
    assert(x & 0x80 == 0 <==> x < 128) by (bit_vector);
    assert(s.len() - 1 == m);
    let pm = pow256(m);
    let s0 = s[0];
    assert(be_val(s) == s0 * pm + be_val(t));
    assert(pow256(s.len()) == 256 * pm);
    if b[i] == 0xFF {
        assert(be_val(s) - 256 * pm == be_val(t) - pm) by (nonlinear_arith)
            requires
                be_val(s) == s0 * pm + be_val(t),
                s0 == 255,
        ;
    } else {
        assert(be_val(s) == be_val(t)) by (nonlinear_arith)
            requires
                be_val(s) == s0 * pm + be_val(t),
                s0 == 0,
        ;
    }
}

proof fn lemma_strip_from(b: Seq<u8>, i: int)
    requires
        0 <= i <= 7,
        b.len() == 8,
    ensures
        signed_val(b.skip(i)) == signed_val(b.skip(int_start(b, i))),
        i <= int_start(b, i) <= 7,
    decreases 7 - i,
{
    if i < 7 && redundant_at(b, i) {
        lemma_strip_keeps_signed(b, i);
        lemma_strip_from(b, i + 1);
    }
}

/// Decoding the content octets of an INTEGER gives the integer back.
pub proof fn lemma_integer_roundtrip(v: i64)
    ensures
        spec_integer(int_content(v)) == v,
{
    if v == 0 {
        assert(0u8 & 0x80 == 0) by (bit_vector);
        let z = seq![0u8];
        assert(z.drop_last() =~= Seq::<u8>::empty());
        assert(fold_i64(Seq::<u8>::empty(), 0i64) == 0);
        assert(fold_i64(z, 0i64) == 0);
        assert(int_content(v) == z);
    } else {
        let u = twos64(v);
        let b = be_bytes(u, 8);
        crate::ber::lemma_be_bytes_len(u, 8);
        lemma_be_bytes_val(u, 8);
        lemma_be_bytes_first(u, 8);
        lemma_pow_le_7(7);
        lemma_pow_le_7(6);
        lemma_pow_le_7(5);
        lemma_pow_le_7(4);
        lemma_pow_le_7(3);
        lemma_pow_le_7(2);
        lemma_pow_le_7(1);
        lemma_pow_le_7(0);
        assert(pow256(8) == 0x1_0000_0000_0000_0000);
        assert(u < pow256(8));
        vstd::arithmetic::div_mod::lemma_small_mod(u, pow256(8));
        assert(b.skip(0) =~= b);
        // the sign of the top byte is the sign of v
        assert(b[0] >= 128 <==> v < 0) by (nonlinear_arith)
            requires
                b[0] == (u / 0x100_0000_0000_0000) % 256,
                u == (if v < 0 { v + 0x1_0000_0000_0000_0000 } else { v as int }),
                i64::MIN <= v <= i64::MAX,
        ;
        assert(signed_val(b) == v);
        lemma_strip_from(b, 0);
        let start = int_start(b, 0);
        let s = b.skip(start);
        assert(s.len() > 0 && s.len() <= 8);
        let x = s[0];
        assert(x & 0x80 != 0 <==> x >= 128) by (bit_vector);
        lemma_fold_i64(s, if s[0] >= 128 { -1i64 } else { 0i64 });
        assert(signed_val(s) == signed_val(b));
        assert(int_content(v) == s);
        assert(spec_integer(s) == fold_i64(s, if s[0] >= 128 { -1i64 } else { 0i64 }));
    }
}


// ─── Unsigned integers ───────────────────────────────────────────────────────

proof fn lemma_fold_u64(s: Seq<u8>)
    requires
        be_val(s) < 0x1_0000_0000_0000_0000,
    ensures
        fold_u64(s) == be_val(s),
    decreases s.len(),
{
    if s.len() > 0 {
        let t = s.drop_last();
        assert(be_val(s) == be_val(t) * 256 + s.last());
        lemma_fold_u64(t);
    }
}

proof fn lemma_skip_zeros(b: Seq<u8>, i: int, cap: int)
    requires
        0 <= i <= cap,
        cap < b.len(),
    ensures
        be_val(b.skip(i)) == be_val(b.skip(skip_zeros(b, i, cap))),
        i <= skip_zeros(b, i, cap) <= cap,
    decreases cap - i,
{
    if i < cap && b[i] == 0 {
        let s = b.skip(i);
        let t = b.skip(i + 1);
        assert(s.drop_first() =~= t);
        lemma_be_val_first(s);
        let pm = pow256((s.len() - 1) as nat);
        let s0 = s[0];
        assert(be_val(s) == be_val(t)) by (nonlinear_arith)
            requires
                be_val(s) == s0 * pm + be_val(t),
                s0 == 0,
        ;
        lemma_skip_zeros(b, i + 1, cap);
    }
}

/// Decoding the minimal unsigned content octets of a value that fits in `n`
/// bytes (at most eight) gives the value back.
pub proof fn lemma_unsigned_roundtrip(u: nat, n: nat)
    requires
        1 <= n <= 8,
        u < pow256(n),
    ensures
        fold_u64(unsigned_content(u, n)) == u,
{
    let b = be_bytes(u, n);
    crate::ber::lemma_be_bytes_len(u, n);
    lemma_be_bytes_val(u, n);
    lemma_pow_values();
    assert(pow256(n) <= pow256(8)) by {
        if n < 8 {
            lemma_pow_mono(n, 8);
        }
    }
    assert(u % pow256(n) == u) by {
        vstd::arithmetic::div_mod::lemma_small_mod(u, pow256(n));
    }
    assert(b.skip(0) =~= b);
    lemma_skip_zeros(b, 0, n - 1);
    lemma_fold_u64(b.skip(skip_zeros(b, 0, n - 1)));
}

proof fn lemma_pow_mono(a: nat, b: nat)
    requires
        a <= b,
    ensures
        pow256(a) <= pow256(b),
    decreases b,
{
    if a < b {
        lemma_pow_mono(a, (b - 1) as nat);
        lemma_pow256_pos((b - 1) as nat);
    }
}


// ─── OBJECT IDENTIFIER ───────────────────────────────────────────────────────

/// Left fold of 7-bit groups, kept within `u32` as the decoder keeps it.
pub open spec fn fold7(a: Seq<u8>, acc: u32) -> u32
    decreases a.len(),
{
    if a.len() == 0 {
        acc
    } else {
        ((fold7(a.drop_last(), acc) * 128 + a.last() % 128) as u32)
    }
}

/// Every byte has its continuation bit set.
pub open spec fn all_cont(a: Seq<u8>) -> bool {
    forall|i: int| 0 <= i < a.len() ==> #[trigger] a[i] >= 128
}

/// A result of `take_arc` with `k` more bytes consumed.
pub open spec fn shifted(r: Option<(u32, int)>, k: int) -> Option<(u32, int)> {
    match r {
        Some((x, n)) => Some((x, n + k)),
        None => None,
    }
}

proof fn lemma_fold7_front(a: Seq<u8>, acc: u32)
    requires
        a.len() > 0,
    ensures
        fold7(a, acc) == fold7(a.drop_first(), ((acc * 128 + a[0] % 128) as u32)),
    decreases a.len(),
{
    if a.len() > 1 {
        let t = a.drop_last();
        lemma_fold7_front(t, acc);
        assert(t.drop_first() =~= a.drop_first().drop_last());
        assert(a.drop_first().last() == a.last());
        assert(t[0] == a[0]);
        let v = ((acc * 128 + a[0] % 128) as u32);
        assert(fold7(a.drop_first(), v) == ((fold7(a.drop_first().drop_last(), v) * 128 + a.last()
            % 128) as u32));
    } else {
        assert(a.drop_first() =~= Seq::<u8>::empty());
        assert(a.drop_last() =~= Seq::<u8>::empty());
        assert(a.last() == a[0]);
        let v = ((acc * 128 + a[0] % 128) as u32);
        assert(fold7(Seq::<u8>::empty(), acc) == acc);
        assert(fold7(Seq::<u8>::empty(), v) == v);
    }
}

proof fn lemma_take_arc_cont(a: Seq<u8>, t: Seq<u8>, acc: u32)
    requires
        all_cont(a),
    ensures
        take_arc(a + t, acc) == shifted(take_arc(t, fold7(a, acc)), a.len() as int),
    decreases a.len(),
{
    if a.len() == 0 {
        assert(a + t =~= t);
        if let Some((x, n)) = take_arc(t, acc) {
            assert(n + 0 == n);
        }
    } else {
        let b = a[0];
        assert(b >= 128 ==> b & 0x80 != 0) by (bit_vector);
        assert((a + t)[0] == b);
        assert((a + t).drop_first() =~= a.drop_first() + t);
        let acc2 = ((acc * 128 + b % 128) as u32);
        assert(all_cont(a.drop_first())) by {
            assert forall|i: int| 0 <= i < a.drop_first().len() implies #[trigger] a.drop_first()[i]
                >= 128 by {
                assert(a.drop_first()[i] == a[i + 1]);
            }
        }
        lemma_take_arc_cont(a.drop_first(), t, acc2);
        lemma_fold7_front(a, acc);
    }
}

proof fn lemma_cont_bytes(y: nat)
    requires
        y < 0x1_0000_0000,
    ensures
        all_cont(cont_bytes(y)),
        fold7(cont_bytes(y), 0) == y,
        cont_bytes(y).len() >= 1,
    decreases y,
{
    if y < 128 {
        let c = cont_bytes(y);
        assert(c.drop_last() =~= Seq::<u8>::empty());
        assert(fold7(Seq::<u8>::empty(), 0) == 0);
        assert(((y + 128) as u8) % 128 == y) by (nonlinear_arith)
            requires
                y < 128,
        ;
        assert(c.last() == (y + 128) as u8);
    } else {
        lemma_cont_bytes(y / 128);
        let c = cont_bytes(y);
        let p = cont_bytes(y / 128);
        assert(c.drop_last() =~= p);
        assert(((y % 128 + 128) as u8) % 128 == y % 128) by (nonlinear_arith);
        assert((y / 128) * 128 + y % 128 == y) by (nonlinear_arith);
        assert forall|i: int| 0 <= i < c.len() implies #[trigger] c[i] >= 128 by {
            if i < p.len() {
                assert(c[i] == p[i]);
            }
        }
    }
}

/// One arc's encoding, followed by anything, reads back as that arc.
proof fn lemma_take_arc_bytes(x: u32, rest: Seq<u8>)
    ensures
        take_arc(arc_bytes(x as nat) + rest, 0) == Some((x, arc_bytes(x as nat).len() as int)),
{
    if x < 128 {
        let b = x as u8;
        assert(b < 128 ==> b & 0x80 == 0) by (bit_vector);
        assert((arc_bytes(x as nat) + rest)[0] == b);
        assert(b % 128 == b);
    } else {
        let y = (x / 128) as nat;
        lemma_cont_bytes(y);
        let a = cont_bytes(y);
        let b = (x % 128) as u8;
        let t = seq![b] + rest;
        assert(arc_bytes(x as nat) + rest =~= a + t);
        lemma_take_arc_cont(a, t, 0);
        assert(b < 128 ==> b & 0x80 == 0) by (bit_vector);
        assert(t[0] == b);
        assert(((y * 128 + b % 128) as u32) == x) by (nonlinear_arith)
            requires
                y == x / 128,
                b == x % 128,
                x <= u32::MAX,
        ;
    }
}

proof fn lemma_take_arc_prefix(a: Seq<u8>, b: Seq<u8>, acc: u32)
    ensures
        take_arc(a, acc) is Some ==> take_arc(a + b, acc) == take_arc(a, acc),
    decreases a.len(),
{
    if a.len() > 0 {
        assert((a + b)[0] == a[0]);
        assert((a + b).drop_first() =~= a.drop_first() + b);
        let v = ((acc * 128 + a[0] % 128) as u32);
        lemma_take_arc_prefix(a.drop_first(), b, v);
    }
}

proof fn lemma_decode_arcs_concat(a: Seq<u8>, b: Seq<u8>)
    ensures
        decode_arcs(a) matches Some(x) ==> decode_arcs(a + b) == (match decode_arcs(b) {
            Some(y) => Some(x + y),
            None => None::<Seq<u32>>,
        }),
    decreases a.len(),
{
    if a.len() == 0 {
        assert(a + b =~= b);
        if let Some(y) = decode_arcs(b) {
            assert(Seq::<u32>::empty() + y =~= y);
        }
    } else if let Some(x) = decode_arcs(a) {
        lemma_take_arc_bounds(a, 0);
        let (v, n) = take_arc(a, 0)->Some_0;
        lemma_take_arc_prefix(a, b, 0);
        assert((a + b).skip(n) =~= a.skip(n) + b);
        lemma_decode_arcs_concat(a.skip(n), b);
        assert((a + b).len() > 0);
        if let Some(y) = decode_arcs(b) {
            let x2 = decode_arcs(a.skip(n))->Some_0;
            assert(seq![v] + (x2 + y) =~= (seq![v] + x2) + y);
        }
    }
}

/// The encodings of arcs read back as those arcs.
proof fn lemma_decode_arcs_bytes(s: Seq<u32>)
    ensures
        decode_arcs(arcs_bytes(s)) == Some(s),
    decreases s.len(),
{
    if s.len() == 0 {
        assert(s =~= Seq::<u32>::empty());
    } else {
        let s0 = s.drop_last();
        let x = s.last();
        lemma_decode_arcs_bytes(s0);
        let e = arc_bytes(x as nat);
        lemma_take_arc_bytes(x, Seq::<u8>::empty());
        assert(e + Seq::<u8>::empty() =~= e);
        lemma_take_arc_bounds(e, 0);
        assert(e.skip(e.len() as int) =~= Seq::<u8>::empty());
        assert(decode_arcs(Seq::<u8>::empty()) == Some(Seq::<u32>::empty()));
        assert(seq![x] + Seq::<u32>::empty() =~= seq![x]);
        assert(decode_arcs(e) == Some(seq![x]));
        lemma_decode_arcs_concat(arcs_bytes(s0), e);
        assert(s0 + seq![x] =~= s);
    }
}

/// An OID whose first arc is at most 6 and whose second arc is below 40
/// (with `40 * c0 + c1 < 256`) decodes back from its content octets.
pub proof fn lemma_oid_roundtrip(c: Seq<u32>)
    requires
        c.len() >= 2,
        c[1] < 40,
        c[0] * 40 + c[1] < 256,
    ensures
        spec_oid_bytes(oid_content(c)) == Ok::<Seq<u32>, Seq<char>>(c),
{
    let f = (c[0] * 40 + c[1]) as u8;
    let d = oid_content(c);
    assert(d.skip(1) =~= arcs_bytes(c.skip(2)));
    lemma_decode_arcs_bytes(c.skip(2));
    assert(d[0] == f);
    assert(f as int == c[0] * 40 + c[1]);
    vstd::arithmetic::div_mod::lemma_fundamental_div_mod_converse(
        f as int,
        40,
        c[0] as int,
        c[1] as int,
    );
    assert(seq![c[0], c[1]] + c.skip(2) =~= c);
}


// ─── Values, var-binds and messages ──────────────────────────────────────────

/// An OID that its encoding gives back: at least two arcs, the second below
/// 40, and `40 * c0 + c1` within one byte.
pub open spec fn oid_roundtrips(c: Seq<u32>) -> bool {
    c.len() >= 2 && c[1] < 40 && c[0] * 40 + c[1] < 256
}

/// A value that its encoding gives back.
pub open spec fn value_roundtrips(v: SpecValue) -> bool {
    match v {
        SpecValue::ObjectIdentifier(c) => oid_roundtrips(c),
        _ => true,
    }
}

/// Decoding the encoding of a value gives back the value and the bytes that
/// follow, provided its content is shorter than 2^24 bytes.
pub proof fn lemma_value_roundtrip(v: SpecValue, rest: Seq<u8>)
    requires
        value_roundtrips(v),
        value_content(v).len() < 0x100_0000,
    ensures
        spec_decode_value(spec_encode_value(v) + rest) == Ok::<(SpecValue, Seq<u8>), Seq<char>>(
            (v, rest),
        ),
{
    lemma_tlv_roundtrip(ber_tag_of(v), value_content(v), rest);
    lemma_pow_values();
    match v {
        SpecValue::Integer(i) => {
            lemma_integer_roundtrip(i);
        },
        SpecValue::ObjectIdentifier(c) => {
            lemma_oid_roundtrip(c);
        },
        SpecValue::IpAddress(ip) => {
            assert(value_content(v).len() == 4);
        },
        SpecValue::Counter32(x) => {
            lemma_unsigned_roundtrip(x as nat, 4);
        },
        SpecValue::Gauge32(x) => {
            lemma_unsigned_roundtrip(x as nat, 4);
        },
        SpecValue::TimeTicks(x) => {
            lemma_unsigned_roundtrip(x as nat, 4);
        },
        SpecValue::Counter64(x) => {
            lemma_unsigned_roundtrip(x as nat, 8);
        },
        _ => {},
    }
}

/// A var-bind that its encoding gives back.
pub open spec fn var_bind_roundtrips(vb: SpecVarBind) -> bool {
    oid_roundtrips(vb.oid) && value_roundtrips(vb.value)
}

/// Decoding the encoding of a var-bind gives back the var-bind and the bytes
/// that follow, provided its encoding is shorter than 2^24 bytes.
pub proof fn lemma_var_bind_roundtrip(vb: SpecVarBind, rest: Seq<u8>)
    requires
        var_bind_roundtrips(vb),
        spec_encode_var_bind(vb).len() < 0x100_0000,
    ensures
        spec_decode_var_bind(spec_encode_var_bind(vb) + rest) == Ok::<
            (SpecVarBind, Seq<u8>),
            Seq<char>,
        >((vb, rest)),
{
    let oc = crate::ber::oid_content(vb.oid);
    let ev = spec_encode_value(vb.value);
    let inner = tlv(ber_tags::OID, oc) + ev;
    lemma_tlv_roundtrip(ber_tags::SEQUENCE, inner, rest);
    lemma_tlv_roundtrip(ber_tags::OID, oc, ev);
    lemma_oid_roundtrip(vb.oid);
    lemma_value_roundtrip(vb.value, Seq::<u8>::empty());
    assert(ev + Seq::<u8>::empty() =~= ev);
}

proof fn lemma_var_bind_prefix(a: Seq<u8>, b: Seq<u8>)
    ensures
        spec_decode_var_bind(a) matches Ok((vb, r)) ==> spec_decode_var_bind(a + b) == Ok::<
            (SpecVarBind, Seq<u8>),
            Seq<char>,
        >((vb, r + b)),
{
    lemma_tlv_prefix(a, b);
}

proof fn lemma_var_bind_seq_concat(a: Seq<u8>, b: Seq<u8>)
    ensures
        decode_var_bind_seq(a) matches Ok(x) ==> decode_var_bind_seq(a + b) == prepend_ok(
            x,
            decode_var_bind_seq(b),
        ),
    decreases a.len(),
{
    if a.len() == 0 {
        assert(a + b =~= b);
        if let Ok(y) = decode_var_bind_seq(b) {
            assert(Seq::<SpecVarBind>::empty() + y =~= y);
        }
    } else if let Ok(x) = decode_var_bind_seq(a) {
        let (vb, r) = spec_decode_var_bind(a)->Ok_0;
        lemma_tlv_shrinks(a);
        lemma_var_bind_prefix(a, b);
        lemma_var_bind_seq_concat(r, b);
        assert((a + b).len() > 0);
        if let Ok(y) = decode_var_bind_seq(b) {
            let x2 = decode_var_bind_seq(r)->Ok_0;
            assert(seq![vb] + (x2 + y) =~= (seq![vb] + x2) + y);
        }
    }
}

proof fn lemma_var_binds_bytes_parts(s: Seq<SpecVarBind>, i: int)
    requires
        0 <= i < s.len(),
    ensures
        spec_encode_var_bind(s[i]).len() <= var_binds_bytes(s).len(),
    decreases s.len(),
{
    if i < s.len() - 1 {
        lemma_var_binds_bytes_parts(s.drop_last(), i);
    }
}

proof fn lemma_single_var_bind_seq(vb: SpecVarBind)
    requires
        var_bind_roundtrips(vb),
        spec_encode_var_bind(vb).len() < 0x100_0000,
    ensures
        decode_var_bind_seq(spec_encode_var_bind(vb)) == Ok::<Seq<SpecVarBind>, Seq<char>>(
            seq![vb],
        ),
{
    let e = spec_encode_var_bind(vb);
    lemma_var_bind_roundtrip(vb, Seq::<u8>::empty());
    assert(e + Seq::<u8>::empty() =~= e);
    lemma_tlv_shrinks(e);
    assert(decode_var_bind_seq(Seq::<u8>::empty()) == Ok::<Seq<SpecVarBind>, Seq<char>>(
        Seq::<SpecVarBind>::empty(),
    ));
    assert(seq![vb] + Seq::<SpecVarBind>::empty() =~= seq![vb]);
}

/// Decoding concatenated var-bind encodings gives back the var-binds.
pub proof fn lemma_var_binds_roundtrip(s: Seq<SpecVarBind>)
    requires
        forall|i: int| 0 <= i < s.len() ==> var_bind_roundtrips(#[trigger] s[i]),
        var_binds_bytes(s).len() < 0x100_0000,
    ensures
        decode_var_bind_seq(var_binds_bytes(s)) == Ok::<Seq<SpecVarBind>, Seq<char>>(s),
    decreases s.len(),
{
    if s.len() == 0 {
        assert(s =~= Seq::<SpecVarBind>::empty());
    } else {
        let s0 = s.drop_last();
        let vb = s.last();
        lemma_var_binds_bytes_parts(s, s.len() - 1);
        assert(var_binds_bytes(s0).len() <= var_binds_bytes(s).len());
        assert forall|i: int| 0 <= i < s0.len() implies var_bind_roundtrips(#[trigger] s0[i]) by {
            assert(s0[i] == s[i]);
        }
        lemma_var_binds_roundtrip(s0);
        let e = spec_encode_var_bind(vb);
        lemma_single_var_bind_seq(vb);
        lemma_var_bind_seq_concat(var_binds_bytes(s0), e);
        assert(s0 + seq![vb] =~= s);
    }
}

#[verifier::spinoff_prover]
#[verifier::rlimit(40)]
proof fn lemma_pdu_fields_roundtrip(
    request_id: i64,
    error_status: i64,
    error_index: i64,
    vbs: Seq<SpecVarBind>,
)
    requires
        forall|i: int| 0 <= i < vbs.len() ==> var_bind_roundtrips(#[trigger] vbs[i]),
        spec_encode_pdu(ber_tags::GET_RESPONSE, request_id, error_status, error_index, vbs).len()
            < 0x100_0000,
    ensures
        spec_pdu_fields(
            tlv(ber_tags::INTEGER, int_content(request_id)) + tlv(
                ber_tags::INTEGER,
                int_content(error_status),
            ) + tlv(ber_tags::INTEGER, int_content(error_index)) + tlv(
                ber_tags::SEQUENCE,
                var_binds_bytes(vbs),
            ),
        ) == Ok::<SpecPduBody, Seq<char>>(
            SpecPduBody { request_id, field2: error_status, field3: error_index, var_binds: vbs },
        ),
{
    let e = Seq::<u8>::empty();
    let vb_bytes = var_binds_bytes(vbs);
    let t1 = tlv(ber_tags::INTEGER, int_content(request_id));
    let t2 = tlv(ber_tags::INTEGER, int_content(error_status));
    let t3 = tlv(ber_tags::INTEGER, int_content(error_index));
    let t4 = tlv(ber_tags::SEQUENCE, vb_bytes);
    let q = t1 + t2 + t3 + t4;
    let r1 = t2 + (t3 + t4);
    assert(vb_bytes.len() < 0x100_0000);
    assert(spec_tlv(q) == Ok::<(u8, Seq<u8>, Seq<u8>), Seq<char>>(
        (ber_tags::INTEGER, int_content(request_id), r1),
    )) by {
        assert(q =~= t1 + r1);
        lemma_tlv_roundtrip(ber_tags::INTEGER, int_content(request_id), r1);
    }
    assert(spec_tlv(r1) == Ok::<(u8, Seq<u8>, Seq<u8>), Seq<char>>(
        (ber_tags::INTEGER, int_content(error_status), t3 + t4),
    )) by {
        lemma_tlv_roundtrip(ber_tags::INTEGER, int_content(error_status), t3 + t4);
    }
    assert(spec_tlv(t3 + t4) == Ok::<(u8, Seq<u8>, Seq<u8>), Seq<char>>(
        (ber_tags::INTEGER, int_content(error_index), t4),
    )) by {
        lemma_tlv_roundtrip(ber_tags::INTEGER, int_content(error_index), t4);
    }
    assert(spec_var_bind_list(t4) == Ok::<Seq<SpecVarBind>, Seq<char>>(vbs)) by {
        assert(t4 + e =~= t4);
        lemma_tlv_roundtrip(ber_tags::SEQUENCE, vb_bytes, e);
        lemma_var_binds_roundtrip(vbs);
    }
    lemma_integer_roundtrip(request_id);
    lemma_integer_roundtrip(error_status);
    lemma_integer_roundtrip(error_index);
}

/// Decoding an encoded GetResponse message gives back its version, community,
/// request id, error status, error index and var-binds, provided the
/// encoding is shorter than 2^24 bytes and every var-bind round-trips.
proof fn lemma_decode_message_steps(
    whole: Seq<u8>,
    m: Seq<u8>,
    vb: Seq<u8>,
    r1: Seq<u8>,
    c: Seq<u8>,
    r2: Seq<u8>,
    pb: Seq<u8>,
    r3: Seq<u8>,
    t1: u8,
    t2: u8,
    t3: u8,
    r0: Seq<u8>,
    pdu: SpecPdu,
)
    requires
        spec_tlv(whole) == Ok::<(u8, Seq<u8>, Seq<u8>), Seq<char>>((ber_tags::SEQUENCE, m, r0)),
        spec_tlv(m) == Ok::<(u8, Seq<u8>, Seq<u8>), Seq<char>>((t1, vb, r1)),
        spec_tlv(r1) == Ok::<(u8, Seq<u8>, Seq<u8>), Seq<char>>((t2, c, r2)),
        r2.len() > 0,
        spec_tlv(r2) == Ok::<(u8, Seq<u8>, Seq<u8>), Seq<char>>((t3, pb, r3)),
        spec_pdu_of(r2[0], pb) == Ok::<SpecPdu, Seq<char>>(pdu),
    ensures
        spec_decode_message(whole) == Ok::<SpecMessage, Seq<char>>(
            SpecMessage { version: spec_integer(vb), community: c, pdu },
        ),
{
}

proof fn lemma_tlv_len(tag: u8, c: Seq<u8>)
    ensures
        tlv(tag, c).len() > c.len(),
{
}

/// A response message decodes back to what it was encoded from: version,
/// community, request id, error status and index, and var-binds (each of
/// which decodes back), when the content of the message's outer SEQUENCE
/// (the longest TLV content in it) is shorter than 2^24 bytes.
pub proof fn lemma_response_roundtrip(
    version: i64,
    community: Seq<u8>,
    request_id: i64,
    error_status: i64,
    error_index: i64,
    vbs: Seq<SpecVarBind>,
)
    requires
        forall|i: int| 0 <= i < vbs.len() ==> var_bind_roundtrips(#[trigger] vbs[i]),
        (tlv(ber_tags::INTEGER, int_content(version)) + tlv(ber_tags::OCTET_STRING, community)
            + spec_encode_pdu(
            ber_tags::GET_RESPONSE,
            request_id,
            error_status,
            error_index,
            vbs,
        )).len() < 0x100_0000,
    ensures
        spec_decode_message(
            spec_encode_response(version, community, request_id, error_status, error_index, vbs),
        ) == Ok::<SpecMessage, Seq<char>>(
            SpecMessage {
                version,
                community,
                pdu: SpecPdu::GetResponse(
                    SpecPduBody {
                        request_id,
                        field2: error_status,
                        field3: error_index,
                        var_binds: vbs,
                    },
                ),
            },
        ),
{
    let e = Seq::<u8>::empty();
    let vb_bytes = var_binds_bytes(vbs);
    let t1 = tlv(ber_tags::INTEGER, int_content(request_id));
    let t2 = tlv(ber_tags::INTEGER, int_content(error_status));
    let t3 = tlv(ber_tags::INTEGER, int_content(error_index));
    let t4 = tlv(ber_tags::SEQUENCE, vb_bytes);
    let q = t1 + t2 + t3 + t4;
    let p = spec_encode_pdu(ber_tags::GET_RESPONSE, request_id, error_status, error_index, vbs);
    assert(p == tlv(ber_tags::GET_RESPONSE, q));
    let tv = tlv(ber_tags::INTEGER, int_content(version));
    let tc = tlv(ber_tags::OCTET_STRING, community);
    let m = tv + tc + p;
    let whole = spec_encode_response(version, community, request_id, error_status, error_index, vbs);
    assert(whole == tlv(ber_tags::SEQUENCE, m));
    // lengths of the parts
    lemma_tlv_len(ber_tags::SEQUENCE, m);
    lemma_tlv_len(ber_tags::GET_RESPONSE, q);
    lemma_tlv_len(ber_tags::SEQUENCE, vb_bytes);
    assert(m.len() < 0x100_0000);
    assert(q.len() < 0x100_0000);
    assert(vb_bytes.len() < 0x100_0000);
    // outer SEQUENCE
    assert(whole + e =~= whole);
    lemma_tlv_roundtrip(ber_tags::SEQUENCE, m, e);
    // version
    assert(m =~= tv + (tc + p));
    lemma_tlv_roundtrip(ber_tags::INTEGER, int_content(version), tc + p);
    lemma_integer_roundtrip(version);
    // community
    lemma_tlv_roundtrip(ber_tags::OCTET_STRING, community, p);
    // PDU
    assert(p + e =~= p);
    lemma_tlv_roundtrip(ber_tags::GET_RESPONSE, q, e);
    assert(p[0] == ber_tags::GET_RESPONSE);
    lemma_pdu_fields_roundtrip(request_id, error_status, error_index, vbs);
    let body = SpecPduBody {
        request_id,
        field2: error_status,
        field3: error_index,
        var_binds: vbs,
    };
    assert(spec_pdu_of(ber_tags::GET_RESPONSE, q) == Ok::<SpecPdu, Seq<char>>(
        SpecPdu::GetResponse(body),
    ));
    assert(spec_tlv(whole) == Ok::<(u8, Seq<u8>, Seq<u8>), Seq<char>>(
        (ber_tags::SEQUENCE, m, e),
    ));
    assert(spec_tlv(m) == Ok::<(u8, Seq<u8>, Seq<u8>), Seq<char>>(
        (ber_tags::INTEGER, int_content(version), tc + p),
    ));
    assert(spec_tlv(tc + p) == Ok::<(u8, Seq<u8>, Seq<u8>), Seq<char>>(
        (ber_tags::OCTET_STRING, community, p),
    ));
    assert(spec_tlv(p) == Ok::<(u8, Seq<u8>, Seq<u8>), Seq<char>>((ber_tags::GET_RESPONSE, q, e)));
    lemma_decode_message_steps(
        whole,
        m,
        int_content(version),
        tc + p,
        community,
        p,
        q,
        e,
        ber_tags::INTEGER,
        ber_tags::OCTET_STRING,
        ber_tags::GET_RESPONSE,
        e,
        SpecPdu::GetResponse(body),
    );
}

// ─── Wire tags ───────────────────────────────────────────────────────────────

/// The first byte of every encoded value is the standard wire tag of its
/// type: INTEGER 0x02, OCTET STRING 0x04, NULL 0x05, OBJECT IDENTIFIER 0x06,
/// IpAddress 0x40, Counter32 0x41, Gauge32 0x42, TimeTicks 0x43, Opaque 0x44,
/// Counter64 0x46, noSuchObject 0x80, noSuchInstance 0x81, endOfMibView 0x82.
pub proof fn lemma_encoded_value_tag(v: SpecValue)
    ensures
        spec_encode_value(v).len() > 0,
        v is Integer ==> spec_encode_value(v)[0] == 0x02u8,
        v is OctetString ==> spec_encode_value(v)[0] == 0x04u8,
        v is Null ==> spec_encode_value(v)[0] == 0x05u8,
        v is ObjectIdentifier ==> spec_encode_value(v)[0] == 0x06u8,
        v is IpAddress ==> spec_encode_value(v)[0] == 0x40u8,
        v is Counter32 ==> spec_encode_value(v)[0] == 0x41u8,
        v is Gauge32 ==> spec_encode_value(v)[0] == 0x42u8,
        v is TimeTicks ==> spec_encode_value(v)[0] == 0x43u8,
        v is Opaque ==> spec_encode_value(v)[0] == 0x44u8,
        v is Counter64 ==> spec_encode_value(v)[0] == 0x46u8,
        v is NoSuchObject ==> spec_encode_value(v)[0] == 0x80u8,
        v is NoSuchInstance ==> spec_encode_value(v)[0] == 0x81u8,
        v is EndOfMibView ==> spec_encode_value(v)[0] == 0x82u8,
{
}

/// Decoding reads the type of a value from its first byte, by the standard
/// wire tags: 0x02 gives an INTEGER, 0x04 an OCTET STRING, 0x05 NULL, 0x06
/// an OBJECT IDENTIFIER, 0x40 an IpAddress, 0x41 a Counter32, 0x42 a Gauge32,
/// 0x43 TimeTicks, 0x44 Opaque, 0x46 a Counter64, 0x80 noSuchObject, 0x81
/// noSuchInstance and 0x82 endOfMibView.
pub proof fn lemma_decoded_value_type(d: Seq<u8>)
    requires
        spec_decode_value(d) is Ok,
    ensures
        d.len() > 0,
        ({
            let v = spec_decode_value(d)->Ok_0.0;
            &&& d[0] == 0x02u8 ==> v is Integer
            &&& d[0] == 0x04u8 ==> v is OctetString
            &&& d[0] == 0x05u8 ==> v is Null
            &&& d[0] == 0x06u8 ==> v is ObjectIdentifier
            &&& d[0] == 0x40u8 ==> v is IpAddress
            &&& d[0] == 0x41u8 ==> v is Counter32
            &&& d[0] == 0x42u8 ==> v is Gauge32
            &&& d[0] == 0x43u8 ==> v is TimeTicks
            &&& d[0] == 0x44u8 ==> v is Opaque
            &&& d[0] == 0x46u8 ==> v is Counter64
            &&& d[0] == 0x80u8 ==> v is NoSuchObject
            &&& d[0] == 0x81u8 ==> v is NoSuchInstance
            &&& d[0] == 0x82u8 ==> v is EndOfMibView
        }),
{
}

} // verus!
