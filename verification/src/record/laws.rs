//! Laws of .snmprec records: what is written is read back.

use vstd::prelude::*;

use crate::ber::hex2;
use crate::grammar::pipe_line;
use crate::grammar::walk::{spec_walk_tag_to_snmprec, upper};
use crate::grammar::snmprec::{
    lemma_build_parse_roundtrip, snmprec_parse, spec_split_module, spec_unpack_tag,
};
use crate::hex_codec::{hex_bytes, hex_text, is_hex_text, nibble};
use crate::oid::{oid_parse, oid_text};
use crate::record::snmprec::{
    answers_no_such_instance, ascii_chars, has_unprintable, is_printable, plain_text,
    spec_evaluate_line, spec_evaluate_value, spec_format_value, spec_hexify, spec_parse_value,
    context_of, EvalState,
};
use crate::variation::builtin::{int_param, numeric_context, numeric_next, numeric_result, text_param};
use crate::record::EvalFlags;
use crate::variation::last_value;
use crate::snmp_value::{snmprec_tag_of, tags, Ipv4Addr, SpecValue};
use crate::text::{
    dec, digit_char, digit_value, first_index_of, int_text, is_ws, parse_int, scan_down, trim,
    trim_end, IntErrorKind,
};

verus! {

// ─── Characters of written texts ─────────────────────────────────────────────

/// A text made of ASCII digits, letters and dots only.
pub open spec fn plain_chars(s: Seq<char>) -> bool {
    forall|i: int|
        0 <= i < s.len() ==> ('0' <= #[trigger] s[i] <= '9') || ('a' <= s[i] <= 'z') || s[i] == '.'
            || s[i] == '-'
}

proof fn lemma_digit_char_plain(d: int)
    requires
        0 <= d < 16,
    ensures
        ('0' <= digit_char(d) <= '9') || ('a' <= digit_char(d) <= 'f'),
        (digit_char(d) as u32) < 128,
{
    if d < 10 {
        assert(((d + 48) as u8) as char as u32 == d + 48);
    } else {
        assert(((d + 87) as u8) as char as u32 == d + 87);
    }
}

proof fn lemma_dec_plain(n: nat)
    ensures
        plain_chars(dec(n)),
        dec(n).len() > 0,
        '0' <= dec(n).last() <= '9',
    decreases n,
{
    if n < 10 {
        lemma_digit_char_plain(n as int);
    } else {
        lemma_dec_plain(n / 10);
        lemma_digit_char_plain((n % 10) as int);
    }
}

proof fn lemma_oid_text_plain(c: Seq<u32>)
    ensures
        plain_chars(oid_text(c)),
        c.len() > 0 ==> oid_text(c).len() > 0 && '0' <= oid_text(c).last() <= '9'
            && '0' <= oid_text(c)[0] <= '9',
    decreases c.len(),
{
    if c.len() == 1 {
        lemma_dec_plain(c[0] as nat);
        crate::text::lemma_dec_shape(c[0] as nat);
    } else if c.len() > 1 {
        lemma_oid_text_plain(c.drop_last());
        lemma_dec_plain(c.last() as nat);
        let a = oid_text(c.drop_last());
        let b = dec(c.last() as nat);
        assert(oid_text(c) == a + seq!['.'] + b);
        assert forall|i: int| 0 <= i < oid_text(c).len() implies ('0' <= #[trigger] oid_text(c)[i]
            <= '9') || ('a' <= oid_text(c)[i] <= 'z') || oid_text(c)[i] == '.' || oid_text(c)[i]
            == '-' by {
            if i < a.len() {
                assert(oid_text(c)[i] == a[i]);
            } else if i > a.len() {
                assert(oid_text(c)[i] == b[i - a.len() - 1]);
            }
        }
        assert(oid_text(c)[0] == a[0]);
    }
}

proof fn lemma_hex_text_shape(b: Seq<u8>)
    ensures
        hex_text(b).len() == 2 * b.len(),
        forall|i: int|
            0 <= i < b.len() ==> hex_text(b)[2 * i] == digit_char((b[i] / 16) as int) && hex_text(
                b,
            )[2 * i + 1] == digit_char((b[i] % 16) as int),
    decreases b.len(),
{
    if b.len() > 0 {
        lemma_hex_text_shape(b.drop_last());
        let a = hex_text(b.drop_last());
        assert(hex_text(b) == a + hex2(b.last()));
        assert forall|i: int| 0 <= i < b.len() implies hex_text(b)[2 * i] == digit_char(
            (b[i] / 16) as int,
        ) && hex_text(b)[2 * i + 1] == digit_char((b[i] % 16) as int) by {
            if i < b.len() - 1 {
                assert(b.drop_last()[i] == b[i]);
            }
        }
    }
}

proof fn lemma_hex_text_plain(b: Seq<u8>)
    ensures
        plain_chars(hex_text(b)),
        hex_text(b).len() > 0 ==> !is_ws(hex_text(b).last()) && !is_ws(hex_text(b)[0]),
{
    lemma_hex_text_shape(b);
    let t = hex_text(b);
    assert forall|k: int| 0 <= k < t.len() implies ('0' <= #[trigger] t[k] <= '9') || ('a' <= t[k]
        <= 'z') || t[k] == '.' || t[k] == '-' by {
        let i = k / 2;
        assert(k == 2 * i || k == 2 * i + 1);
        lemma_digit_char_plain((b[i] / 16) as int);
        lemma_digit_char_plain((b[i] % 16) as int);
    }
}

/// A plain text has no whitespace, no `|` and no `:`.
proof fn lemma_plain_chars(s: Seq<char>)
    requires
        plain_chars(s),
    ensures
        forall|i: int| 0 <= i < s.len() ==> !is_ws(#[trigger] s[i]) && s[i] != '|' && s[i] != ':',
        s.len() > 0 ==> trim(s) == s,
        trim_end(s) == s,
        !s.contains('|'),
{
    assert forall|i: int| 0 <= i < s.len() implies !is_ws(#[trigger] s[i]) && s[i] != '|' && s[i]
        != ':' by {
        assert(plain_chars(s));
    }
    if s.len() > 0 {
        crate::text::lemma_trim_fixed(s);
        assert(!is_ws(s.last()));
    }
}

// ─── Hex and ASCII texts read back ───────────────────────────────────────────

proof fn lemma_ascii_bytes(t: Seq<char>)
    requires
        forall|i: int| 0 <= i < t.len() ==> '\0' <= #[trigger] t[i] <= '\u{7f}',
    ensures
        vstd::utf8::encode_utf8(t).len() == t.len(),
        forall|i: int| 0 <= i < t.len() ==> #[trigger] vstd::utf8::encode_utf8(t)[i] == t[i] as u8,
{
    assert(vstd::utf8::is_ascii_chars(t));
    vstd::utf8::is_ascii_chars_encode_utf8(t);
}

/// Hex text decodes to the bytes it was made from.
pub proof fn lemma_hex_roundtrip(b: Seq<u8>)
    ensures
        is_hex_text(vstd::utf8::encode_utf8(hex_text(b))),
        hex_bytes(vstd::utf8::encode_utf8(hex_text(b))) == b,
{
    lemma_hex_text_shape(b);
    let t = hex_text(b);
    assert forall|k: int| 0 <= k < t.len() implies '\0' <= #[trigger] t[k] <= '\u{7f}' by {
        let i = k / 2;
        assert(k == 2 * i || k == 2 * i + 1);
        lemma_digit_char_plain((b[i] / 16) as int);
        lemma_digit_char_plain((b[i] % 16) as int);
    }
    lemma_ascii_bytes(t);
    let e = vstd::utf8::encode_utf8(t);
    assert forall|k: int| 0 <= k < e.len() implies (#[trigger] nibble(e[k])) is Some by {
        let i = k / 2;
        assert(k == 2 * i || k == 2 * i + 1);
        let d = if k == 2 * i {
            (b[i] / 16) as int
        } else {
            (b[i] % 16) as int
        };
        assert(t[k] == digit_char(d));
        if d < 10 {
            assert(((d + 48) as u8) as char as u32 == d + 48);
        } else {
            assert(((d + 87) as u8) as char as u32 == d + 87);
        }
    }
    assert forall|i: int| 0 <= i < b.len() implies #[trigger] hex_bytes(e)[i] == b[i] by {
        let hi = (b[i] / 16) as int;
        let lo = (b[i] % 16) as int;
        assert(t[2 * i] == digit_char(hi));
        assert(t[2 * i + 1] == digit_char(lo));
        if hi < 10 {
            assert(((hi + 48) as u8) as char as u32 == hi + 48);
        } else {
            assert(((hi + 87) as u8) as char as u32 == hi + 87);
        }
        if lo < 10 {
            assert(((lo + 48) as u8) as char as u32 == lo + 48);
        } else {
            assert(((lo + 87) as u8) as char as u32 == lo + 87);
        }
        assert(nibble(e[2 * i]) == Some(hi as u8));
        assert(nibble(e[2 * i + 1]) == Some(lo as u8));
    }
    assert(hex_bytes(e) =~= b);
}

/// Printable ASCII bytes, written as characters, encode back to themselves.
pub proof fn lemma_ascii_roundtrip(b: Seq<u8>)
    requires
        !has_unprintable(b),
    ensures
        vstd::utf8::encode_utf8(ascii_chars(b)) == b,
{
    let t = ascii_chars(b);
    assert forall|i: int| 0 <= i < t.len() implies '\0' <= #[trigger] t[i] <= '\u{7f}' by {
        assert(is_printable(b[i]));
        assert((b[i] as char) as u32 == b[i]);
    }
    lemma_ascii_bytes(t);
    assert forall|i: int| 0 <= i < b.len() implies #[trigger] vstd::utf8::encode_utf8(t)[i]
        == b[i] by {
        assert((b[i] as char) as u32 == b[i]);
    }
    assert(vstd::utf8::encode_utf8(t) =~= b);
}

// ─── Numbers read back ───────────────────────────────────────────────────────

proof fn lemma_scan_down_push(d: Seq<char>, c: char, radix: int, acc: int, min: int)
    ensures
        scan_down(d.push(c), radix, acc, min) == (match scan_down(d, radix, acc, min) {
            Err(e) => Err(e),
            Ok(v) => match digit_value(c, radix) {
                None => Err(IntErrorKind::InvalidDigit),
                Some(x) => if v * radix - x < min {
                    Err(IntErrorKind::NegOverflow)
                } else {
                    Ok(v * radix - x)
                },
            },
        }),
    decreases d.len(),
{
    if d.len() == 0 {
        assert(d.push(c).drop_first() =~= Seq::<char>::empty());
        assert(d.push(c)[0] == c);
        reveal_with_fuel(scan_down, 2);
    } else {
        assert(d.push(c).drop_first() =~= d.drop_first().push(c));
        assert(d.push(c)[0] == d[0]);
        if let Some(x) = digit_value(d[0], radix) {
            if acc * radix - x >= min {
                lemma_scan_down_push(d.drop_first(), c, radix, acc * radix - x, min);
            }
        }
    }
}

proof fn lemma_scan_down_dec(n: nat, min: int)
    requires
        -n >= min,
    ensures
        scan_down(dec(n), 10, 0, min) == Ok::<int, IntErrorKind>(-n),
    decreases n,
{
    if n < 10 {
        crate::text::lemma_digit_char_value(n as int);
        assert(dec(n).drop_first() =~= Seq::<char>::empty());
        assert(dec(n)[0] == digit_char(n as int));
        reveal_with_fuel(scan_down, 2);
    } else {
        assert((n / 10) * 10 + n % 10 == n) by (nonlinear_arith);
        lemma_scan_down_dec(n / 10, min);
        crate::text::lemma_digit_char_value((n % 10) as int);
        lemma_scan_down_push(dec(n / 10), digit_char((n % 10) as int), 10, 0, min);
    }
}

/// The decimal text of an `i64` parses back to it.
pub proof fn lemma_int_text_roundtrip(n: i64)
    ensures
        parse_int(int_text(n as int), 10, i64::MIN as int, i64::MAX as int) == Ok::<
            int,
            IntErrorKind,
        >(n as int),
        plain_chars(int_text(n as int)),
        int_text(n as int).len() > 0,
        !is_ws(int_text(n as int)[0]),
        !is_ws(int_text(n as int).last()),
{
    if n >= 0 {
        crate::text::lemma_dec_shape(n as nat);
        crate::text::lemma_scan_dec(n as nat, i64::MAX as int);
        lemma_dec_plain(n as nat);
        lemma_plain_chars(dec(n as nat));
    } else {
        let m = (-n) as nat;
        crate::text::lemma_dec_shape(m);
        lemma_scan_down_dec(m, i64::MIN as int);
        lemma_dec_plain(m);
        let t = seq!['-'] + dec(m);
        assert(t.drop_first() =~= dec(m));
        assert forall|i: int| 0 <= i < t.len() implies ('0' <= #[trigger] t[i] <= '9') || ('a'
            <= t[i] <= 'z') || t[i] == '.' || t[i] == '-' by {
            if i > 0 {
                assert(t[i] == dec(m)[i - 1]);
            }
        }
        assert(t.last() == dec(m).last());
    }
}

// ─── Tags ────────────────────────────────────────────────────────────────────

proof fn lemma_short_plain(s: Seq<char>)
    requires
        forall|i: int| 0 <= i < s.len() ==> ('0' <= #[trigger] s[i] <= '9' || s[i] == 'x'),
    ensures
        plain_chars(s),
{
    assert forall|i: int| 0 <= i < s.len() implies ('0' <= #[trigger] s[i] <= '9') || ('a' <= s[i]
        <= 'z') || s[i] == '.' || s[i] == '-' by {
        assert('0' <= s[i] <= '9' || s[i] == 'x');
    }
}

/// The tags of .snmprec records are one to three decimal digits.
proof fn lemma_tag_shape(v: SpecValue)
    ensures
        1 <= snmprec_tag_of(v).len() <= 3,
        forall|i: int|
            0 <= i < snmprec_tag_of(v).len() ==> '0' <= #[trigger] snmprec_tag_of(v)[i] <= '9',
{
    reveal_strlit("2");
    reveal_strlit("4");
    reveal_strlit("5");
    reveal_strlit("6");
    reveal_strlit("64");
    reveal_strlit("65");
    reveal_strlit("66");
    reveal_strlit("67");
    reveal_strlit("68");
    reveal_strlit("70");
    reveal_strlit("128");
    reveal_strlit("129");
    reveal_strlit("130");
    let t = snmprec_tag_of(v);
    assert forall|i: int| 0 <= i < t.len() implies '0' <= #[trigger] t[i] <= '9' by {
        if i == 0 {
        } else if i == 1 {
        } else {
            assert(i == 2);
        }
    }
}

/// The base tag of a value parses to a value of its own kind.
proof fn lemma_tags_distinct()
    ensures
        tags::INTEGER@ != tags::OCTET_STRING@,
        tags::INTEGER@ != tags::NULL@,
        tags::INTEGER@ != tags::OID@,
        tags::INTEGER@ != tags::IP_ADDRESS@,
        tags::INTEGER@ != tags::COUNTER32@,
        tags::INTEGER@ != tags::GAUGE32@,
        tags::INTEGER@ != tags::TIME_TICKS@,
        tags::INTEGER@ != tags::OPAQUE@,
        tags::INTEGER@ != tags::COUNTER64@,
        tags::INTEGER@ != tags::NO_SUCH_OBJECT@,
        tags::INTEGER@ != tags::NO_SUCH_INSTANCE@,
        tags::OCTET_STRING@ != tags::NULL@,
        tags::OCTET_STRING@ != tags::OID@,
        tags::OCTET_STRING@ != tags::IP_ADDRESS@,
        tags::OCTET_STRING@ != tags::COUNTER32@,
        tags::OCTET_STRING@ != tags::GAUGE32@,
        tags::OCTET_STRING@ != tags::TIME_TICKS@,
        tags::OCTET_STRING@ != tags::OPAQUE@,
        tags::OCTET_STRING@ != tags::COUNTER64@,
        tags::OCTET_STRING@ != tags::NO_SUCH_OBJECT@,
        tags::OCTET_STRING@ != tags::NO_SUCH_INSTANCE@,
        tags::NULL@ != tags::OID@,
        tags::NULL@ != tags::IP_ADDRESS@,
        tags::NULL@ != tags::COUNTER32@,
        tags::NULL@ != tags::GAUGE32@,
        tags::NULL@ != tags::TIME_TICKS@,
        tags::NULL@ != tags::OPAQUE@,
        tags::NULL@ != tags::COUNTER64@,
        tags::NULL@ != tags::NO_SUCH_OBJECT@,
        tags::NULL@ != tags::NO_SUCH_INSTANCE@,
        tags::OID@ != tags::IP_ADDRESS@,
        tags::OID@ != tags::COUNTER32@,
        tags::OID@ != tags::GAUGE32@,
        tags::OID@ != tags::TIME_TICKS@,
        tags::OID@ != tags::OPAQUE@,
        tags::OID@ != tags::COUNTER64@,
        tags::OID@ != tags::NO_SUCH_OBJECT@,
        tags::OID@ != tags::NO_SUCH_INSTANCE@,
        tags::IP_ADDRESS@ != tags::COUNTER32@,
        tags::IP_ADDRESS@ != tags::GAUGE32@,
        tags::IP_ADDRESS@ != tags::TIME_TICKS@,
        tags::IP_ADDRESS@ != tags::OPAQUE@,
        tags::IP_ADDRESS@ != tags::COUNTER64@,
        tags::IP_ADDRESS@ != tags::NO_SUCH_OBJECT@,
        tags::IP_ADDRESS@ != tags::NO_SUCH_INSTANCE@,
        tags::COUNTER32@ != tags::GAUGE32@,
        tags::COUNTER32@ != tags::TIME_TICKS@,
        tags::COUNTER32@ != tags::OPAQUE@,
        tags::COUNTER32@ != tags::COUNTER64@,
        tags::COUNTER32@ != tags::NO_SUCH_OBJECT@,
        tags::COUNTER32@ != tags::NO_SUCH_INSTANCE@,
        tags::GAUGE32@ != tags::TIME_TICKS@,
        tags::GAUGE32@ != tags::OPAQUE@,
        tags::GAUGE32@ != tags::COUNTER64@,
        tags::GAUGE32@ != tags::NO_SUCH_OBJECT@,
        tags::GAUGE32@ != tags::NO_SUCH_INSTANCE@,
        tags::TIME_TICKS@ != tags::OPAQUE@,
        tags::TIME_TICKS@ != tags::COUNTER64@,
        tags::TIME_TICKS@ != tags::NO_SUCH_OBJECT@,
        tags::TIME_TICKS@ != tags::NO_SUCH_INSTANCE@,
        tags::OPAQUE@ != tags::COUNTER64@,
        tags::OPAQUE@ != tags::NO_SUCH_OBJECT@,
        tags::OPAQUE@ != tags::NO_SUCH_INSTANCE@,
        tags::COUNTER64@ != tags::NO_SUCH_OBJECT@,
        tags::COUNTER64@ != tags::NO_SUCH_INSTANCE@,
        tags::NO_SUCH_OBJECT@ != tags::NO_SUCH_INSTANCE@,
        tags::INTEGER@ != tags::END_OF_MIB_VIEW@,
        tags::OCTET_STRING@ != tags::END_OF_MIB_VIEW@,
        tags::NULL@ != tags::END_OF_MIB_VIEW@,
        tags::OID@ != tags::END_OF_MIB_VIEW@,
        tags::IP_ADDRESS@ != tags::END_OF_MIB_VIEW@,
        tags::COUNTER32@ != tags::END_OF_MIB_VIEW@,
        tags::GAUGE32@ != tags::END_OF_MIB_VIEW@,
        tags::TIME_TICKS@ != tags::END_OF_MIB_VIEW@,
        tags::OPAQUE@ != tags::END_OF_MIB_VIEW@,
        tags::COUNTER64@ != tags::END_OF_MIB_VIEW@,
        tags::NO_SUCH_OBJECT@ != tags::END_OF_MIB_VIEW@,
        tags::NO_SUCH_INSTANCE@ != tags::END_OF_MIB_VIEW@,
{
    reveal_strlit("2");
    reveal_strlit("4");
    reveal_strlit("5");
    reveal_strlit("6");
    reveal_strlit("64");
    reveal_strlit("65");
    reveal_strlit("66");
    reveal_strlit("67");
    reveal_strlit("68");
    reveal_strlit("70");
    reveal_strlit("128");
    reveal_strlit("129");
    reveal_strlit("130");
    assert(tags::INTEGER@[0] == '2');
    assert(tags::OCTET_STRING@[0] == '4');
    assert(tags::NULL@[0] == '5');
    assert(tags::OID@[0] == '6');
    assert(tags::IP_ADDRESS@[1] == '4');
    assert(tags::COUNTER32@[1] == '5');
    assert(tags::GAUGE32@[1] == '6');
    assert(tags::TIME_TICKS@[1] == '7');
    assert(tags::OPAQUE@[1] == '8');
    assert(tags::COUNTER64@[0] == '7');
    assert(tags::NO_SUCH_OBJECT@[2] == '8');
    assert(tags::NO_SUCH_INSTANCE@[2] == '9');
    assert(tags::OID@.len() == 1);
    assert(tags::IP_ADDRESS@.len() == 2);
    assert(tags::COUNTER32@.len() == 2);
    assert(tags::GAUGE32@.len() == 2);
    assert(tags::TIME_TICKS@.len() == 2);
    assert(tags::OPAQUE@.len() == 2);
    assert(tags::COUNTER64@.len() == 2);
    assert(tags::END_OF_MIB_VIEW@.len() == 3);
    assert(tags::END_OF_MIB_VIEW@[2] == '0');
    assert(tags::END_OF_MIB_VIEW@[1] == '3');
    assert(tags::NO_SUCH_OBJECT@[1] == '2');
}

// ─── Values ──────────────────────────────────────────────────────────────────

/// An octet string whose text would lose a trailing space when the line is
/// trimmed: printable, ending with a space.
pub open spec fn ends_with_space_text(v: SpecValue) -> bool {
    v matches SpecValue::OctetString(b) && !has_unprintable(b) && b.len() > 0 && b.last() == 32
}

proof fn lemma_hex_field_roundtrip(b: Seq<u8>)
    ensures
        crate::record::snmprec::hex_field(hex_text(b)) == Ok::<Seq<u8>, Seq<char>>(b),
        trim_end(hex_text(b)) == hex_text(b),
{
    lemma_hex_text_plain(b);
    lemma_plain_chars(hex_text(b));
    lemma_hex_roundtrip(b);
    if hex_text(b).len() == 0 {
        assert(trim(hex_text(b)) == hex_text(b));
    }
}

/// What the text of a value must give back.
pub open spec fn reads_back(v: SpecValue) -> bool {
    match spec_hexify(v) {
        Some(h) => spec_parse_value(snmprec_tag_of(v), Some('x'), h) == Ok::<SpecValue, Seq<char>>(v)
            && trim_end(h) == h,
        None => spec_parse_value(snmprec_tag_of(v), None, plain_text(v)) == Ok::<
            SpecValue,
            Seq<char>,
        >(v) && trim_end(plain_text(v)) == plain_text(v),
    }
}

#[verifier::spinoff_prover]
proof fn lemma_integer_reads_back(n: i64)
    ensures
        reads_back(SpecValue::Integer(n)),
{
    lemma_int_text_roundtrip(n);
    lemma_plain_chars(int_text(n as int));
}

#[verifier::spinoff_prover]
proof fn lemma_octets_reads_back(b: Seq<u8>)
    requires
        !ends_with_space_text(SpecValue::OctetString(b)),
    ensures
        reads_back(SpecValue::OctetString(b)),
{
    lemma_tags_distinct();
    if has_unprintable(b) {
        lemma_hex_field_roundtrip(b);
    } else {
        lemma_ascii_roundtrip(b);
        let t = ascii_chars(b);
        if b.len() > 0 {
            assert(is_printable(b.last()));
            assert(t.last() == b.last() as char);
            assert((b.last() as char) as u32 == b.last());
            assert(!is_ws(t.last()));
        } else {
            assert(t.len() == 0);
        }
    }
}

#[verifier::spinoff_prover]
proof fn lemma_oid_reads_back(c: Seq<u32>)
    ensures
        reads_back(SpecValue::ObjectIdentifier(c)),
{
    lemma_tags_distinct();
    lemma_oid_text_plain(c);
    lemma_plain_chars(oid_text(c));
    crate::oid::lemma_oid_text_roundtrip(c);
    if c.len() == 0 {
        assert(oid_text(c).len() == 0);
        assert(trim(oid_text(c)) == oid_text(c));
    }
}

#[verifier::spinoff_prover]
proof fn lemma_ip_reads_back(ip: Ipv4Addr)
    ensures
        reads_back(SpecValue::IpAddress(ip)),
{
    lemma_tags_distinct();
    lemma_hex_field_roundtrip(ip.spec_octets());
    assert(ip.spec_octets().len() == 4);
    assert(Ipv4Addr(ip.spec_octets()[0], ip.spec_octets()[1], ip.spec_octets()[2], ip.spec_octets()[3])
        == ip);
}

#[verifier::spinoff_prover]
proof fn lemma_unsigned_reads_back(v: SpecValue)
    requires
        v is Counter32 || v is Gauge32 || v is TimeTicks || v is Counter64,
    ensures
        reads_back(v),
{
    lemma_tags_distinct();
    match v {
        SpecValue::Counter32(n) => {
            crate::text::lemma_parse_dec(n as nat, u32::MAX as int);
            lemma_dec_plain(n as nat);
            lemma_plain_chars(dec(n as nat));
        },
        SpecValue::Gauge32(n) => {
            crate::text::lemma_parse_dec(n as nat, u32::MAX as int);
            lemma_dec_plain(n as nat);
            lemma_plain_chars(dec(n as nat));
        },
        SpecValue::TimeTicks(n) => {
            crate::text::lemma_parse_dec(n as nat, u32::MAX as int);
            lemma_dec_plain(n as nat);
            lemma_plain_chars(dec(n as nat));
        },
        SpecValue::Counter64(n) => {
            crate::text::lemma_parse_dec(n as nat, u64::MAX as int);
            lemma_dec_plain(n as nat);
            lemma_plain_chars(dec(n as nat));
        },
        _ => {},
    }
}

#[verifier::spinoff_prover]
proof fn lemma_other_reads_back(v: SpecValue)
    requires
        v is Opaque || v is Null || v is NoSuchObject || v is NoSuchInstance || v is EndOfMibView,
    ensures
        reads_back(v),
{
    lemma_tags_distinct();
    if let SpecValue::Opaque(b) = v {
        lemma_hex_field_roundtrip(b);
    }
}

/// The text written for a value parses back to it under its tag.
pub proof fn lemma_value_text_roundtrip(v: SpecValue)
    requires
        !ends_with_space_text(v),
    ensures
        reads_back(v),
{
    match v {
        SpecValue::Integer(n) => lemma_integer_reads_back(n),
        SpecValue::OctetString(b) => lemma_octets_reads_back(b),
        SpecValue::ObjectIdentifier(c) => lemma_oid_reads_back(c),
        SpecValue::IpAddress(ip) => lemma_ip_reads_back(ip),
        SpecValue::Counter32(_) => lemma_unsigned_reads_back(v),
        SpecValue::Gauge32(_) => lemma_unsigned_reads_back(v),
        SpecValue::TimeTicks(_) => lemma_unsigned_reads_back(v),
        SpecValue::Counter64(_) => lemma_unsigned_reads_back(v),
        _ => lemma_other_reads_back(v),
    }
}

// ─── Records ─────────────────────────────────────────────────────────────────

/// The tag written for a value (with its `x` when hex-encoded) has no
/// whitespace, `|` or `:`, and unpacks to the value's tag and encoding.
proof fn lemma_written_tag(v: SpecValue)
    ensures
        ({
            let t = spec_format_value(Seq::empty(), v).1;
            &&& t.len() > 0
            &&& trim(t) == t
            &&& !t.contains('|')
            &&& t[0] != ':'
            &&& first_index_of(t, ':') is None
            &&& spec_unpack_tag(t) == (snmprec_tag_of(v), if spec_hexify(v) is Some {
                Some('x')
            } else {
                None
            })
        }),
{
    lemma_tag_shape(v);
    let base = snmprec_tag_of(v);
    let t = spec_format_value(Seq::empty(), v).1;
    if spec_hexify(v) is Some {
        assert(t == base + seq!['x']);
        lemma_short_plain(t);
        assert((base + seq!['x']).drop_last() =~= base);
    } else {
        assert(t == base);
        lemma_short_plain(t);
        assert('0' <= t.last() <= '9');
    }
    lemma_plain_chars(t);
    crate::text::lemma_first_index_of(t, ':');
}

/// Reading back a formatted record gives the OID and the value: for a
/// non-empty OID and any value except a printable octet string ending with
/// a space (the trailing space is lost when the line is trimmed), the
/// .snmprec line that `format` writes evaluates to that OID and value,
/// leaving the writecache as it is and asking for no delay, in any context
/// that asks for the value of an exact match, a GETNEXT, a SET or a request
/// without an original OID.
pub proof fn lemma_format_evaluate_roundtrip(
    cache: EvalState,
    oid: Seq<u32>,
    v: SpecValue,
    flags: EvalFlags,
)
    requires
        oid.len() > 0,
        !flags.oid_only,
        !answers_no_such_instance(flags),
        !ends_with_space_text(v),
    ensures
        ({
            let (o, t, x) = spec_format_value(oid, v);
            spec_evaluate_line(cache, snmprec_parse(vstd::utf8::encode_utf8(pipe_line(o, t, x))), flags)
                == Some((Ok::<(Seq<u32>, Option<SpecValue>), crate::variation::EvalError>((oid, Some(v))), cache, 0nat))
        }),
{
    let (o, t, x) = spec_format_value(oid, v);
    lemma_oid_text_plain(oid);
    lemma_plain_chars(o);
    lemma_written_tag(v);
    assert(t == spec_format_value(Seq::empty(), v).1);
    lemma_value_text_roundtrip(v);
    lemma_build_parse_roundtrip(o, t, x);
    crate::oid::lemma_oid_text_roundtrip(oid);
    assert(oid_parse(o) == Ok::<Seq<u32>, IntErrorKind>(oid));
    assert(spec_split_module(t) == (t, None::<Seq<char>>));
    let (r, c, d) = spec_evaluate_value(cache, oid, t, x, flags);
    assert(r == Ok::<SpecValue, crate::variation::EvalError>(v));
    assert(c == cache && d == 0);
}

// ─── Writecache records ──────────────────────────────────────────────────────

/// A SET on a writecache record is what later reads of it give: when a SET
/// evaluates a record whose tag names the writecache module, a later GET or
/// GETNEXT of the same record gives the same value, asks for no delay and
/// leaves the cache as the SET left it.
pub proof fn lemma_record_set_then_get(
    cache: EvalState,
    oid: Seq<u32>,
    tag: Seq<char>,
    value: Seq<char>,
    set_ctx: EvalFlags,
    get_ctx: EvalFlags,
)
    requires
        set_ctx.set_flag,
        !get_ctx.set_flag,
        spec_split_module(tag).1 == Some("writecache"@),
        spec_evaluate_value(cache, oid, tag, value, set_ctx).0 is Ok,
    ensures
        ({
            let (r, c, _) = spec_evaluate_value(cache, oid, tag, value, set_ctx);
            spec_evaluate_value(c, oid, tag, value, get_ctx) == (r, c, 0nat)
        }),
{
    if !(tag.len() > 0 && tag[0] == ':') {
        reveal_strlit("delay");
        reveal_strlit("error");
        reveal_strlit("numeric");
        reveal_strlit("writecache");
        assert("writecache"@ != "delay"@ && "writecache"@ != "error"@ && "writecache"@
            != "numeric"@) by {
            assert("writecache"@.len() != "delay"@.len());
            assert("writecache"@.len() != "error"@.len());
            assert("writecache"@.len() != "numeric"@.len());
        }
        let base = spec_unpack_tag(spec_split_module(tag).0).0;
        crate::variation::builtin::lemma_writecache_set_then_get(cache.writes, oid, base, value, base, value);
    }
}

/// The numeric module counts on from where it stopped for the same record:
/// when a record whose tag names the numeric module is evaluated twice for
/// an OID, the second evaluation works on the context that the first one
/// left, whatever the flags, so it gives the next value of the series.
pub proof fn lemma_numeric_continues(
    cache: EvalState,
    oid: Seq<u32>,
    tag: Seq<char>,
    value: Seq<char>,
    ctx1: EvalFlags,
    ctx2: EvalFlags,
)
    requires
        !(tag.len() > 0 && tag[0] == ':'),
        spec_split_module(tag).1 == Some("numeric"@),
    ensures
        ({
            let base = spec_unpack_tag(spec_split_module(tag).0).0;
            let (v1, rc1) = numeric_result(base, value, context_of(cache.contexts, oid));
            let (r1, c1, _) = spec_evaluate_value(cache, oid, tag, value, ctx1);
            &&& r1 == Ok::<SpecValue, crate::variation::EvalError>(v1)
            &&& spec_evaluate_value(c1, oid, tag, value, ctx2).0 == Ok::<
                SpecValue,
                crate::variation::EvalError,
            >(numeric_result(base, value, rc1).0)
        }),
{
    reveal_strlit("delay");
    reveal_strlit("error");
    reveal_strlit("numeric");
    assert("numeric"@ != "delay"@ && "numeric"@ != "error"@) by {
        assert("numeric"@.len() != "delay"@.len());
        assert("numeric"@.len() != "error"@.len());
    }
    let base = spec_unpack_tag(spec_split_module(tag).0).0;
    let (v1, rc1) = numeric_result(base, value, context_of(cache.contexts, oid));
    let c1 = spec_evaluate_value(cache, oid, tag, value, ctx1).1;
    assert(c1.contexts == cache.contexts.push((oid, rc1)));
    assert(cache.contexts.push((oid, rc1)).last() == (oid, rc1));
    assert(context_of(c1.contexts, oid) == rc1);
}

/// The oscillating numeric function turns at its bounds. With `min < max`
/// and a positive step, a value that reaches `min` records the direction
/// up, so the next value, worked out from the record context that the step
/// left, is `min` plus the step (or `max`, where that reaches `max`); a value
/// that reaches `max` records the direction down, so the next value is `max`
/// less the step (or `min`, where that reaches `min`). Steps past the `i64`
/// range wrap and are left out.
pub proof fn lemma_osc_turns_at_bounds(
    pairs: Seq<(Seq<char>, Seq<char>)>,
    rc: Seq<(Seq<char>, Seq<char>)>,
)
    requires
        text_param(pairs, "function"@, "inc"@) == "osc"@,
        int_param(pairs, "min"@, 0) < int_param(pairs, "max"@, i64::MAX),
        int_param(pairs, "step"@, int_param(pairs, "rate"@, 1)) > 0,
    ensures
        ({
            let min = int_param(pairs, "min"@, 0);
            let max = int_param(pairs, "max"@, i64::MAX);
            let step = int_param(pairs, "step"@, int_param(pairs, "rate"@, 1));
            let (n1, d1) = numeric_next(pairs, rc);
            let n2 = numeric_next(pairs, numeric_context(rc, n1, d1)).0;
            &&& n1 == min && min + step <= i64::MAX ==> n2 == if min + step >= max {
                max as int
            } else {
                min + step
            }
            &&& n1 == max && max - step >= i64::MIN ==> n2 == if max - step <= min {
                min as int
            } else {
                max - step
            }
        }),
{
    reveal_strlit("inc");
    reveal_strlit("osc");
    reveal_strlit("1");
    reveal_strlit("-1");
    reveal_strlit("current");
    reveal_strlit("direction");
    assert("inc"@[0] != "osc"@[0]);
    assert("current"@[0] != "direction"@[0]);
    let min = int_param(pairs, "min"@, 0);
    let max = int_param(pairs, "max"@, i64::MAX);
    let step = int_param(pairs, "step"@, int_param(pairs, "rate"@, 1));
    let (n1, d1) = numeric_next(pairs, rc);
    let rc2 = numeric_context(rc, n1, d1);
    lemma_int_text_roundtrip(n1);
    lemma_int_text_roundtrip(1i64);
    lemma_int_text_roundtrip(-1i64);
    assert(int_text(1) =~= "1"@);
    assert(int_text(-1) =~= "-1"@);
    assert(step.wrapping_mul(1i64) == step) by (nonlinear_arith)
        requires
            step > 0,
    {
    }
    assert(step.wrapping_mul(-1i64) == -step) by (nonlinear_arith)
        requires
            step > 0,
    {
    }
    if n1 == min {
        assert(d1 == Some("1"@));
        assert(rc2.drop_last() =~= rc.push(("direction"@, "1"@)));
        assert(last_value(rc2.drop_last(), "direction"@) == Some("1"@));
        assert(last_value(rc2, "direction"@) == Some("1"@));
        assert(int_param(rc2, "current"@, 0) == min);
        assert(int_param(rc2, "direction"@, 1) == 1);
    }
    if n1 == max {
        assert(d1 == Some("-1"@));
        assert(rc2.drop_last() =~= rc.push(("direction"@, "-1"@)));
        assert(last_value(rc2.drop_last(), "direction"@) == Some("-1"@));
        assert(last_value(rc2, "direction"@) == Some("-1"@));
        assert(int_param(rc2, "current"@, 0) == max);
        assert(int_param(rc2, "direction"@, 1) == -1);
    }
}

/// The incrementing numeric function goes on from the value it last gave:
/// the next value, worked out from the record context that a step left, is
/// that value plus the step, or `min` once that passes `max`. Sums past the
/// `i64` range wrap and are left out.
pub proof fn lemma_inc_continues(pairs: Seq<(Seq<char>, Seq<char>)>, rc: Seq<(Seq<char>, Seq<char>)>)
    requires
        text_param(pairs, "function"@, "inc"@) == "inc"@,
    ensures
        ({
            let min = int_param(pairs, "min"@, 0);
            let max = int_param(pairs, "max"@, i64::MAX);
            let step = int_param(pairs, "step"@, int_param(pairs, "rate"@, 1));
            let (n1, d1) = numeric_next(pairs, rc);
            let n2 = numeric_next(pairs, numeric_context(rc, n1, d1)).0;
            i64::MIN <= n1 + step <= i64::MAX ==> n2 == if n1 + step > max {
                min as int
            } else {
                n1 + step
            }
        }),
{
    reveal_strlit("inc");
    let (n1, d1) = numeric_next(pairs, rc);
    let rc2 = numeric_context(rc, n1, d1);
    lemma_int_text_roundtrip(n1);
    assert(d1 is None);
    assert(last_value(rc2, "current"@) == Some(int_text(n1 as int)));
    assert(int_param(rc2, "current"@, 0) == n1);
}

// ─── snmpwalk type labels ────────────────────────────────────────────────────

/// The value type that an snmpwalk type label (in uppercase) names.
pub open spec fn walk_label_type(u: Seq<char>, x: SpecValue) -> bool {
    &&& u == "INTEGER:"@ ==> x is Integer
    &&& u == "STRING:"@ ==> x is OctetString
    &&& u == "BITS:"@ ==> x is OctetString
    &&& u == "HEX-STRING:"@ ==> x is OctetString
    &&& u == "GAUGE32:"@ ==> x is Gauge32
    &&& u == "UNSIGNED32:"@ ==> x is Gauge32
    &&& u == "COUNTER32:"@ ==> x is Counter32
    &&& u == "COUNTER64:"@ ==> x is Counter64
    &&& u == "IPADDRESS:"@ ==> x is IpAddress
    &&& u == "NETWORK ADDRESS:"@ ==> x is IpAddress
    &&& u == "TIMETICKS:"@ ==> x is TimeTicks
    &&& u == "OPAQUE:"@ ==> x is Opaque
    &&& u == "OID:"@ ==> x is ObjectIdentifier
    &&& u == "NULL:"@ ==> x is Null
}

/// The type label of an snmpwalk line decides the type of the value read
/// from it. The labels known (compared in uppercase) are exactly INTEGER:,
/// STRING:, BITS:, HEX-STRING:, GAUGE32:, COUNTER32:, COUNTER64:, IPADDRESS:,
/// TIMETICKS:, OPAQUE:, OID:, NETWORK ADDRESS:, UNSIGNED32: and NULL:; and a
/// value text read under the record tag that a label maps to is, when it
/// parses, of the labelled type: an Integer for INTEGER:; an OctetString for
/// STRING:, BITS: and HEX-STRING:; a Gauge32 for GAUGE32: and UNSIGNED32:; a
/// Counter32 for COUNTER32:; a Counter64 for COUNTER64:; an IpAddress for
/// IPADDRESS: and NETWORK ADDRESS:; TimeTicks for TIMETICKS:; Opaque for
/// OPAQUE:; an OBJECT IDENTIFIER for OID:; Null for NULL:.
pub proof fn lemma_walk_label_gives_type(label: Seq<char>, v: Seq<char>)
    ensures
        ({
            let u = upper(label);
            spec_walk_tag_to_snmprec(label) is Some <==> (u == "INTEGER:"@ || u == "STRING:"@
                || u == "BITS:"@ || u == "HEX-STRING:"@ || u == "GAUGE32:"@ || u == "COUNTER32:"@
                || u == "COUNTER64:"@ || u == "IPADDRESS:"@ || u == "TIMETICKS:"@ || u
                == "OPAQUE:"@ || u == "OID:"@ || u == "NETWORK ADDRESS:"@ || u == "UNSIGNED32:"@
                || u == "NULL:"@)
        }),
        spec_walk_tag_to_snmprec(label) matches Some(t) ==> ({
            let (base, enc) = spec_unpack_tag(t);
            let u = upper(label);
            spec_parse_value(base, enc, v) matches Ok(x) ==> walk_label_type(u, x)
        }),
{
    reveal_strlit("INTEGER:");
    reveal_strlit("STRING:");
    reveal_strlit("BITS:");
    reveal_strlit("HEX-STRING:");
    reveal_strlit("GAUGE32:");
    reveal_strlit("COUNTER32:");
    reveal_strlit("COUNTER64:");
    reveal_strlit("IPADDRESS:");
    reveal_strlit("TIMETICKS:");
    reveal_strlit("OPAQUE:");
    reveal_strlit("OID:");
    reveal_strlit("NETWORK ADDRESS:");
    reveal_strlit("UNSIGNED32:");
    reveal_strlit("NULL:");
    reveal_strlit("2");
    reveal_strlit("4");
    reveal_strlit("4x");
    reveal_strlit("5");
    reveal_strlit("6");
    reveal_strlit("64");
    reveal_strlit("65");
    reveal_strlit("66");
    reveal_strlit("67");
    reveal_strlit("68");
    reveal_strlit("70");
    reveal_strlit("128");
    reveal_strlit("129");
    reveal_strlit("130");
    assert(("4x"@).drop_last() =~= "4"@);
    assert(("INTEGER:"@).len() == 8);
    assert(("STRING:"@).len() == 7);
    assert(("BITS:"@).len() == 5);
    assert(("HEX-STRING:"@).len() == 11);
    assert(("GAUGE32:"@).len() == 8);
    assert(("COUNTER32:"@).len() == 10);
    assert(("COUNTER64:"@).len() == 10);
    assert(("IPADDRESS:"@).len() == 10);
    assert(("TIMETICKS:"@).len() == 10);
    assert(("OPAQUE:"@).len() == 7);
    assert(("OID:"@).len() == 4);
    assert(("NETWORK ADDRESS:"@).len() == 16);
    assert(("UNSIGNED32:"@).len() == 11);
    assert(("NULL:"@).len() == 5);
    assert(("INTEGER:"@)[0] != ("GAUGE32:"@)[0]);
    assert(("STRING:"@)[0] != ("OPAQUE:"@)[0]);
    assert(("BITS:"@)[0] != ("NULL:"@)[0]);
    assert(("HEX-STRING:"@)[0] != ("UNSIGNED32:"@)[0]);
    assert(("COUNTER32:"@)[7] != ("COUNTER64:"@)[7]);
    assert(("COUNTER32:"@)[0] != ("IPADDRESS:"@)[0]);
    assert(("COUNTER32:"@)[0] != ("TIMETICKS:"@)[0]);
    assert(("COUNTER64:"@)[0] != ("IPADDRESS:"@)[0]);
    assert(("COUNTER64:"@)[0] != ("TIMETICKS:"@)[0]);
    assert(("IPADDRESS:"@)[0] != ("TIMETICKS:"@)[0]);
    let u = upper(label);
    if u == "INTEGER:"@ {
        assert(spec_walk_tag_to_snmprec(label) == Some("2"@));
        assert(spec_unpack_tag("2"@) == ("2"@, None::<char>));
        assert(spec_parse_value("2"@, None::<char>, v) matches Ok(x) ==> x is Integer);
        assert(spec_parse_value("2"@, None::<char>, v) matches Ok(x) ==> walk_label_type(u, x));
    } else if u == "STRING:"@ {
        assert(spec_walk_tag_to_snmprec(label) == Some("4"@));
        assert(spec_unpack_tag("4"@) == ("4"@, None::<char>));
        assert(spec_parse_value("4"@, None::<char>, v) matches Ok(x) ==> x is OctetString);
        assert(spec_parse_value("4"@, None::<char>, v) matches Ok(x) ==> walk_label_type(u, x));
    } else if u == "BITS:"@ {
        assert(spec_walk_tag_to_snmprec(label) == Some("4"@));
        assert(spec_unpack_tag("4"@) == ("4"@, None::<char>));
        assert(spec_parse_value("4"@, None::<char>, v) matches Ok(x) ==> x is OctetString);
        assert(spec_parse_value("4"@, None::<char>, v) matches Ok(x) ==> walk_label_type(u, x));
    } else if u == "HEX-STRING:"@ {
        assert(spec_walk_tag_to_snmprec(label) == Some("4x"@));
        assert(spec_unpack_tag("4x"@) == ("4"@, Some('x')));
        assert(spec_parse_value("4"@, Some('x'), v) matches Ok(x) ==> x is OctetString);
        assert(spec_parse_value("4"@, Some('x'), v) matches Ok(x) ==> walk_label_type(u, x));
    } else if u == "GAUGE32:"@ {
        assert(spec_walk_tag_to_snmprec(label) == Some("66"@));
        assert(spec_unpack_tag("66"@) == ("66"@, None::<char>));
        assert(spec_parse_value("66"@, None::<char>, v) matches Ok(x) ==> x is Gauge32);
        assert(spec_parse_value("66"@, None::<char>, v) matches Ok(x) ==> walk_label_type(u, x));
    } else if u == "COUNTER32:"@ {
        assert(spec_walk_tag_to_snmprec(label) == Some("65"@));
        assert(spec_unpack_tag("65"@) == ("65"@, None::<char>));
        assert(spec_parse_value("65"@, None::<char>, v) matches Ok(x) ==> x is Counter32);
        assert(spec_parse_value("65"@, None::<char>, v) matches Ok(x) ==> walk_label_type(u, x));
    } else if u == "COUNTER64:"@ {
        assert(spec_walk_tag_to_snmprec(label) == Some("70"@));
        assert(spec_unpack_tag("70"@) == ("70"@, None::<char>));
        assert(spec_parse_value("70"@, None::<char>, v) matches Ok(x) ==> x is Counter64);
        assert(spec_parse_value("70"@, None::<char>, v) matches Ok(x) ==> walk_label_type(u, x));
    } else if u == "IPADDRESS:"@ {
        assert(spec_walk_tag_to_snmprec(label) == Some("64"@));
        assert(spec_unpack_tag("64"@) == ("64"@, None::<char>));
        assert(spec_parse_value("64"@, None::<char>, v) matches Ok(x) ==> x is IpAddress);
        assert(spec_parse_value("64"@, None::<char>, v) matches Ok(x) ==> walk_label_type(u, x));
    } else if u == "TIMETICKS:"@ {
        assert(spec_walk_tag_to_snmprec(label) == Some("67"@));
        assert(spec_unpack_tag("67"@) == ("67"@, None::<char>));
        assert(spec_parse_value("67"@, None::<char>, v) matches Ok(x) ==> x is TimeTicks);
        assert(spec_parse_value("67"@, None::<char>, v) matches Ok(x) ==> walk_label_type(u, x));
    } else if u == "OPAQUE:"@ {
        assert(spec_walk_tag_to_snmprec(label) == Some("68"@));
        assert(spec_unpack_tag("68"@) == ("68"@, None::<char>));
        assert(spec_parse_value("68"@, None::<char>, v) matches Ok(x) ==> x is Opaque);
        assert(spec_parse_value("68"@, None::<char>, v) matches Ok(x) ==> walk_label_type(u, x));
    } else if u == "OID:"@ {
        assert(spec_walk_tag_to_snmprec(label) == Some("6"@));
        assert(spec_unpack_tag("6"@) == ("6"@, None::<char>));
        assert(spec_parse_value("6"@, None::<char>, v) matches Ok(x) ==> x is ObjectIdentifier);
        assert(spec_parse_value("6"@, None::<char>, v) matches Ok(x) ==> walk_label_type(u, x));
    } else if u == "NETWORK ADDRESS:"@ {
        assert(spec_walk_tag_to_snmprec(label) == Some("64"@));
        assert(spec_unpack_tag("64"@) == ("64"@, None::<char>));
        assert(spec_parse_value("64"@, None::<char>, v) matches Ok(x) ==> x is IpAddress);
        assert(spec_parse_value("64"@, None::<char>, v) matches Ok(x) ==> walk_label_type(u, x));
    } else if u == "UNSIGNED32:"@ {
        assert(spec_walk_tag_to_snmprec(label) == Some("66"@));
        assert(spec_unpack_tag("66"@) == ("66"@, None::<char>));
        assert(spec_parse_value("66"@, None::<char>, v) matches Ok(x) ==> x is Gauge32);
        assert(spec_parse_value("66"@, None::<char>, v) matches Ok(x) ==> walk_label_type(u, x));
    } else if u == "NULL:"@ {
        assert(spec_walk_tag_to_snmprec(label) == Some("5"@));
        assert(spec_unpack_tag("5"@) == ("5"@, None::<char>));
        assert(spec_parse_value("5"@, None::<char>, v) matches Ok(x) ==> x is Null);
        assert(spec_parse_value("5"@, None::<char>, v) matches Ok(x) ==> walk_label_type(u, x));
    } else {
        assert(spec_walk_tag_to_snmprec(label) is None);
    }
}

} // verus!
