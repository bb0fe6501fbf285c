//! Record implementation for .snmprec format files.

use vstd::prelude::*;

use crate::error::SnmpsimError;
use crate::grammar::snmprec::{
    lemma_prefix_push, prefix_bytes, snmprec_parse, spec_split_module, spec_unpack_tag, unescape,
    SnmprecGrammar,
};
use crate::grammar::{empty_oid_tag_text, pipe_line, Grammar};
use crate::record::{EvalContext, EvalFlags};
use crate::variation::builtin::{
    add_delay, delay_result, error_result, numeric_result, unknown_module_error, writecache_step,
};
use crate::variation::{
    clamp_delay, error_is, kind_of_name, last_value, module_kind, pairs_view, EvalError,
    ModuleKind, VariationContext,
    VariationModuleRegistry,
};
use crate::hex_codec::{hex_bytes, hex_decode, hex_encode, hex_error_text, hex_text, is_hex_text};
use crate::oid::{int_error_text, oid_error_text, oid_parse, oid_text, Oid};
use crate::snmp_value::{snmprec_tag_of, tags, Ipv4Addr, SnmpValue, SpecValue};
use crate::text::{
    append_str, chars_of, debug_quoted, debug_text, dec, int_text, parse_int, split_on, str_eq,
    string_from, trim, IntErrorKind,
};

verus! {

// ─── Values from text ────────────────────────────────────────────────────────

/// `"Invalid <what> <value:?>: <parse error>"`.
pub open spec fn number_error(what: Seq<char>, v: Seq<char>, k: IntErrorKind) -> Seq<char> {
    "Invalid "@ + what + " "@ + debug_text(v) + ": "@ + int_error_text(k)
}

/// The bytes of a hex-encoded field (the trimmed text), or the decode error.
pub open spec fn hex_field(v: Seq<char>) -> Result<Seq<u8>, Seq<char>> {
    let t = vstd::utf8::encode_utf8(trim(v));
    if is_hex_text(t) {
        Ok(hex_bytes(t))
    } else {
        Err("Hex decode error: "@ + hex_error_text(t))
    }
}

/// The bytes of an OCTET STRING field: hex (`x`), escaped (`e`) or the UTF-8 text itself.
pub open spec fn octets_field(enc: Option<char>, v: Seq<char>) -> Result<Seq<u8>, Seq<char>> {
    if enc == Some('x') {
        hex_field(v)
    } else if enc == Some('e') {
        unescape(v)
    } else {
        Ok(vstd::utf8::encode_utf8(v))
    }
}

/// The octets of a dotted IPv4 text, each part a decimal `u8`; the first bad
/// part gives the error.
pub open spec fn dotted_octets(parts: Seq<Seq<char>>) -> Result<Seq<u8>, Seq<char>>
    decreases parts.len(),
{
    if parts.len() == 0 {
        Ok(Seq::<u8>::empty())
    } else {
        match parse_int(parts[0], 10, 0, 255) {
            Err(k) => Err("Invalid IP octet "@ + debug_text(parts[0]) + ": "@ + int_error_text(k)),
            Ok(b) => prefix_bytes(seq![b as u8], dotted_octets(parts.drop_first())),
        }
    }
}

/// An IpAddress field: hex (`x`) or dotted decimal, which must give 4 bytes.
pub open spec fn ip_field(enc: Option<char>, v: Seq<char>) -> Result<SpecValue, Seq<char>> {
    let bytes = if enc == Some('x') {
        hex_field(v)
    } else {
        dotted_octets(split_on(trim(v), '.'))
    };
    match bytes {
        Err(m) => Err(m),
        Ok(b) => if b.len() != 4 {
            Err("IpAddress must be 4 bytes, got "@ + dec(b.len()))
        } else {
            Ok(SpecValue::IpAddress(Ipv4Addr(b[0], b[1], b[2], b[3])))
        },
    }
}

/// An unsigned field no larger than `max`, made into a value by `mk`.
pub open spec fn unsigned_field(
    what: Seq<char>,
    v: Seq<char>,
    max: int,
    mk: spec_fn(int) -> SpecValue,
) -> Result<SpecValue, Seq<char>> {
    match parse_int(trim(v), 10, 0, max) {
        Ok(n) => Ok(mk(n)),
        Err(k) => Err(number_error(what, v, k)),
    }
}

/// What the value text of a .snmprec record stands for, given its base tag
/// and encoding suffix, or the message of the parse error.
pub open spec fn spec_parse_value(base: Seq<char>, enc: Option<char>, v: Seq<char>) -> Result<
    SpecValue,
    Seq<char>,
> {
    if base == tags::INTEGER@ {
        match parse_int(trim(v), 10, i64::MIN as int, i64::MAX as int) {
            Ok(n) => Ok(SpecValue::Integer(n as i64)),
            Err(k) => Err(number_error("INTEGER"@, v, k)),
        }
    } else if base == tags::OCTET_STRING@ {
        match octets_field(enc, v) {
            Ok(b) => Ok(SpecValue::OctetString(b)),
            Err(m) => Err(m),
        }
    } else if base == tags::NULL@ {
        Ok(SpecValue::Null)
    } else if base == tags::OID@ {
        match oid_parse(trim(v)) {
            Ok(c) => Ok(SpecValue::ObjectIdentifier(c)),
            Err(k) => Err(oid_error_text(trim(v), k)),
        }
    } else if base == tags::IP_ADDRESS@ {
        ip_field(enc, v)
    } else if base == tags::COUNTER32@ {
        unsigned_field("Counter32"@, v, u32::MAX as int, |n: int| SpecValue::Counter32(n as u32))
    } else if base == tags::GAUGE32@ {
        unsigned_field("Gauge32"@, v, u32::MAX as int, |n: int| SpecValue::Gauge32(n as u32))
    } else if base == tags::TIME_TICKS@ {
        unsigned_field("TimeTicks"@, v, u32::MAX as int, |n: int| SpecValue::TimeTicks(n as u32))
    } else if base == tags::OPAQUE@ {
        let b = if enc == Some('x') {
            hex_field(v)
        } else {
            Ok(vstd::utf8::encode_utf8(v))
        };
        match b {
            Ok(b) => Ok(SpecValue::Opaque(b)),
            Err(m) => Err(m),
        }
    } else if base == tags::COUNTER64@ {
        unsigned_field("Counter64"@, v, u64::MAX as int, |n: int| SpecValue::Counter64(n as u64))
    } else if base == tags::NO_SUCH_OBJECT@ {
        Ok(SpecValue::NoSuchObject)
    } else if base == tags::NO_SUCH_INSTANCE@ {
        Ok(SpecValue::NoSuchInstance)
    } else if base == tags::END_OF_MIB_VIEW@ {
        Ok(SpecValue::EndOfMibView)
    } else {
        Err("Unknown snmprec tag: "@ + debug_text(base))
    }
}

/// `r` is the value `s` stands for, or a parse error with the message of `s`.
pub open spec fn parsed_as(r: Result<SnmpValue, SnmpsimError>, s: Result<SpecValue, Seq<char>>) -> bool {
    match s {
        Ok(v) => r matches Ok(x) && x@ == v,
        Err(m) => r matches Err(e) && (e matches SnmpsimError::Parse(t) && t@ == m),
    }
}

/// A parse error holding the given characters.
fn parse_error(m: &[char]) -> (e: SnmpsimError)
    ensures
        e matches SnmpsimError::Parse(t) && t@ == m@,
{
    SnmpsimError::Parse(string_from(m))
}

fn number_parse_error(what: &str, v: &str, k: IntErrorKind) -> (e: SnmpsimError)
    ensures
        e matches SnmpsimError::Parse(t) && t@ == number_error(what@, v@, k),
{
    let mut m: Vec<char> = Vec::new();
    append_str(&mut m, "Invalid ");
    append_str(&mut m, what);
    append_str(&mut m, " ");
    let q = debug_quoted(v);
    append_str(&mut m, q.as_str());
    append_str(&mut m, ": ");
    append_str(&mut m, crate::oid::int_error_message(k));
    assert(m@ =~= number_error(what@, v@, k));
    parse_error(m.as_slice())
}

/// The trimmed text of a field, as a string.
fn trimmed(v: &str) -> (r: String)
    ensures
        r@ == trim(v@),
{
    let cs = chars_of(v);
    let t = crate::text::trim_chars(cs.as_slice());
    string_from(t.as_slice())
}

fn decode_hex_field(v: &str) -> (r: Result<Vec<u8>, SnmpsimError>)
    ensures
        match hex_field(v@) {
            Ok(b) => r matches Ok(x) && x@ == b,
            Err(m) => r matches Err(e) && (e matches SnmpsimError::Parse(t) && t@ == m),
        },
{
    let t = trimmed(v);
    match hex_decode(t.as_str().as_bytes()) {
        Ok(b) => Ok(b),
        Err(msg) => {
            let mut m: Vec<char> = Vec::new();
            append_str(&mut m, "Hex decode error: ");
            append_str(&mut m, msg.as_str());
            assert(m@ =~= "Hex decode error: "@ + msg@);
            Err(parse_error(m.as_slice()))
        },
    }
}

fn utf8_bytes(v: &str) -> (r: Vec<u8>)
    ensures
        r@ == vstd::utf8::encode_utf8(v@),
{
    crate::text::copy_bytes(v.as_bytes())
}

fn decode_dotted(v: &str) -> (r: Result<Vec<u8>, SnmpsimError>)
    ensures
        match dotted_octets(split_on(trim(v@), '.')) {
            Ok(b) => r matches Ok(x) && x@ == b,
            Err(m) => r matches Err(e) && (e matches SnmpsimError::Parse(t) && t@ == m),
        },
{
    let cs = chars_of(v);
    let t = crate::text::trim_chars(cs.as_slice());
    let parts = crate::text::split_chars(t.as_slice(), '.');
    let ghost ps = split_on(trim(v@), '.');
    assert(parts@.len() == ps.len());
    let mut out: Vec<u8> = Vec::new();
    let mut i: usize = 0;
    assert(ps.skip(0) =~= ps);
    assert(Seq::<u8>::empty() + Seq::<u8>::empty() =~= Seq::<u8>::empty());
    while i < parts.len()
        invariant
            i <= parts@.len(),
            parts@.len() == ps.len(),
            ps == split_on(trim(v@), '.'),
            forall|j: int| 0 <= j < parts@.len() ==> #[trigger] parts@[j]@ == ps[j],
            dotted_octets(ps) == prefix_bytes(out@, dotted_octets(ps.skip(i as int))),
        decreases parts@.len() - i,
    {
        let ghost rest = ps.skip(i as int);
        assert(rest[0] == ps[i as int]);
        assert(rest.drop_first() =~= ps.skip(i + 1));
        match crate::text::parse_unsigned(parts[i].as_slice(), 10, 255) {
            Ok(b) => {
                proof {
                    crate::text::lemma_parse_int_unsigned_bound(parts@[i as int]@, 10, 255);
                    lemma_prefix_push(out@, b as u8, dotted_octets(ps.skip(i + 1)));
                    let r2 = dotted_octets(ps.skip(i + 1));
                    if let Ok(x) = r2 {
                        assert(seq![b as u8] + x =~= seq![b as u8] + x);
                    }
                    assert(prefix_bytes(seq![b as u8], r2) == crate::grammar::snmprec::prepend_byte(
                        b as u8,
                        r2,
                    ));
                }
                out.push(b as u8);
                i += 1;
            },
            Err(k) => {
                let part = string_from(parts[i].as_slice());
                let q = debug_quoted(part.as_str());
                let mut m: Vec<char> = Vec::new();
                append_str(&mut m, "Invalid IP octet ");
                append_str(&mut m, q.as_str());
                append_str(&mut m, ": ");
                append_str(&mut m, crate::oid::int_error_message(k));
                assert(m@ =~= "Invalid IP octet "@ + debug_text(ps[i as int]) + ": "@
                    + int_error_text(k));
                assert(parts@[i as int]@ == rest[0]);
                assert(dotted_octets(rest) == Err::<Seq<u8>, Seq<char>>(m@));
                return Err(parse_error(m.as_slice()));
            },
        }
    }
    assert(ps.skip(i as int) =~= Seq::<Seq<char>>::empty());
    assert(out@ + Seq::<u8>::empty() =~= out@);
    Ok(out)
}

fn parse_ip(encoding: Option<char>, v: &str) -> (r: Result<SnmpValue, SnmpsimError>)
    ensures
        parsed_as(r, ip_field(encoding, v@)),
{
    let bytes = if encoding == Some('x') {
        decode_hex_field(v)
    } else {
        decode_dotted(v)
    };
    let bytes = match bytes {
        Ok(b) => b,
        Err(e) => {
            return Err(e);
        },
    };
    if bytes.len() != 4 {
        let mut m: Vec<char> = Vec::new();
        append_str(&mut m, "IpAddress must be 4 bytes, got ");
        crate::text::push_dec(&mut m, bytes.len() as u64);
        assert(m@ =~= "IpAddress must be 4 bytes, got "@ + dec(bytes@.len()));
        return Err(parse_error(m.as_slice()));
    }
    Ok(SnmpValue::IpAddress(Ipv4Addr::new(bytes[0], bytes[1], bytes[2], bytes[3])))
}

fn parse_unsigned_field(what: &str, v: &str, max: u64) -> (r: Result<u64, SnmpsimError>)
    ensures
        match parse_int(trim(v@), 10, 0, max as int) {
            Ok(n) => r matches Ok(x) && x == n,
            Err(k) => r matches Err(e) && (e matches SnmpsimError::Parse(t) && t@ == number_error(
                what@,
                v@,
                k,
            )),
        },
{
    let cs = chars_of(v);
    let t = crate::text::trim_chars(cs.as_slice());
    match crate::text::parse_unsigned(t.as_slice(), 10, max) {
        Ok(n) => Ok(n),
        Err(k) => Err(number_parse_error(what, v, k)),
    }
}

impl Default for SnmprecRecord {
    fn default() -> (r: SnmprecRecord)
        ensures
            r.wf(),
            r.cache() == fresh_state(),
            r.pending_delay() == 0,
    {
        SnmprecRecord::new()
    }
}

impl SnmprecRecord {
    /// Parse a snmprec value string into a typed SnmpValue, handling
    /// encoding suffixes ('x' for hex, 'e' for escaped).
    pub fn parse_value(base_tag: &str, encoding: Option<char>, value_str: &str) -> (r: Result<
        SnmpValue,
        SnmpsimError,
    >)
        ensures
            parsed_as(r, spec_parse_value(base_tag@, encoding, value_str@)),
    {
        if str_eq(base_tag, tags::INTEGER) {
            let cs = chars_of(value_str);
            let t = crate::text::trim_chars(cs.as_slice());
            match crate::text::parse_i64(t.as_slice()) {
                Ok(n) => Ok(SnmpValue::Integer(n)),
                Err(k) => Err(number_parse_error("INTEGER", value_str, k)),
            }
        } else if str_eq(base_tag, tags::OCTET_STRING) {
            let bytes = if encoding == Some('x') {
                decode_hex_field(value_str)
            } else if encoding == Some('e') {
                SnmprecGrammar::evaluate_escaped(value_str)
            } else {
                Ok(utf8_bytes(value_str))
            };
            match bytes {
                Ok(b) => Ok(SnmpValue::OctetString(b)),
                Err(e) => Err(e),
            }
        } else if str_eq(base_tag, tags::NULL) {
            Ok(SnmpValue::Null)
        } else if str_eq(base_tag, tags::OID) {
            let t = trimmed(value_str);
            match Oid::parse_str(t.as_str()) {
                Ok(o) => Ok(SnmpValue::ObjectIdentifier(o)),
                Err(e) => Err(e),
            }
        } else if str_eq(base_tag, tags::IP_ADDRESS) {
            parse_ip(encoding, value_str)
        } else if str_eq(base_tag, tags::COUNTER32) {
            match parse_unsigned_field("Counter32", value_str, 0xFFFF_FFFF) {
                Ok(n) => Ok(SnmpValue::Counter32(n as u32)),
                Err(e) => Err(e),
            }
        } else if str_eq(base_tag, tags::GAUGE32) {
            match parse_unsigned_field("Gauge32", value_str, 0xFFFF_FFFF) {
                Ok(n) => Ok(SnmpValue::Gauge32(n as u32)),
                Err(e) => Err(e),
            }
        } else if str_eq(base_tag, tags::TIME_TICKS) {
            match parse_unsigned_field("TimeTicks", value_str, 0xFFFF_FFFF) {
                Ok(n) => Ok(SnmpValue::TimeTicks(n as u32)),
                Err(e) => Err(e),
            }
        } else if str_eq(base_tag, tags::OPAQUE) {
            let bytes = if encoding == Some('x') {
                decode_hex_field(value_str)
            } else {
                Ok(utf8_bytes(value_str))
            };
            match bytes {
                Ok(b) => Ok(SnmpValue::Opaque(b)),
                Err(e) => Err(e),
            }
        } else if str_eq(base_tag, tags::COUNTER64) {
            match parse_unsigned_field("Counter64", value_str, 0xFFFF_FFFF_FFFF_FFFF) {
                Ok(n) => Ok(SnmpValue::Counter64(n)),
                Err(e) => Err(e),
            }
        } else if str_eq(base_tag, tags::NO_SUCH_OBJECT) {
            Ok(SnmpValue::NoSuchObject)
        } else if str_eq(base_tag, tags::NO_SUCH_INSTANCE) {
            Ok(SnmpValue::NoSuchInstance)
        } else if str_eq(base_tag, tags::END_OF_MIB_VIEW) {
            Ok(SnmpValue::EndOfMibView)
        } else {
            let mut m: Vec<char> = Vec::new();
            append_str(&mut m, "Unknown snmprec tag: ");
            let q = debug_quoted(base_tag);
            append_str(&mut m, q.as_str());
            assert(m@ =~= "Unknown snmprec tag: "@ + debug_text(base_tag@));
            Err(parse_error(m.as_slice()))
        }
    }
}

// ─── Values to text ──────────────────────────────────────────────────────────

/// A byte that is printed as itself in .snmprec values: ASCII from space to `~`.
pub open spec fn is_printable(b: u8) -> bool {
    32 <= b <= 126
}

/// Some byte is not printable.
pub open spec fn has_unprintable(b: Seq<u8>) -> bool {
    exists|i: int| 0 <= i < b.len() && !is_printable(#[trigger] b[i])
}

/// The hex form of a value when .snmprec writes it hex-encoded: octet
/// strings holding a non-printable byte, IP addresses and opaque values.
pub open spec fn spec_hexify(v: SpecValue) -> Option<Seq<char>> {
    match v {
        SpecValue::OctetString(b) => if has_unprintable(b) {
            Some(hex_text(b))
        } else {
            None
        },
        SpecValue::IpAddress(ip) => Some(hex_text(ip.spec_octets())),
        SpecValue::Opaque(b) => Some(hex_text(b)),
        _ => None,
    }
}

/// The characters of ASCII bytes.
pub open spec fn ascii_chars(b: Seq<u8>) -> Seq<char> {
    Seq::new(b.len(), |i: int| b[i] as char)
}

/// The value text of a value that is not hex-encoded.
pub open spec fn plain_text(v: SpecValue) -> Seq<char> {
    match v {
        SpecValue::Integer(n) => int_text(n as int),
        SpecValue::OctetString(b) => ascii_chars(b),
        SpecValue::ObjectIdentifier(c) => oid_text(c),
        SpecValue::IpAddress(ip) => ip.spec_text(),
        SpecValue::Counter32(n) => dec(n as nat),
        SpecValue::Gauge32(n) => dec(n as nat),
        SpecValue::TimeTicks(n) => dec(n as nat),
        SpecValue::Opaque(b) => hex_text(b),
        SpecValue::Counter64(n) => dec(n as nat),
        _ => Seq::<char>::empty(),
    }
}

/// The (oid, tag, value) strings of a record: the tag gets an `x` suffix
/// when the value is written hex-encoded.
pub open spec fn spec_format_value(oid: Seq<u32>, v: SpecValue) -> (Seq<char>, Seq<char>, Seq<char>) {
    match spec_hexify(v) {
        Some(h) => (oid_text(oid), snmprec_tag_of(v) + seq!['x'], h),
        None => (oid_text(oid), snmprec_tag_of(v), plain_text(v)),
    }
}

fn find_unprintable(b: &[u8]) -> (r: bool)
    ensures
        r == has_unprintable(b@),
{
    let mut i: usize = 0;
    while i < b.len()
        invariant
            i <= b.len(),
            forall|j: int| 0 <= j < i ==> is_printable(b@[j]),
        decreases b.len() - i,
    {
        if !(32 <= b[i] && b[i] <= 126) {
            assert(!is_printable(b@[i as int]));
            return true;
        }
        i += 1;
    }
    false
}

fn ascii_string(b: &[u8]) -> (r: String)
    ensures
        r@ == ascii_chars(b@),
{
    let mut v: Vec<char> = Vec::new();
    let mut i: usize = 0;
    while i < b.len()
        invariant
            i <= b.len(),
            v@ =~= ascii_chars(b@.take(i as int)),
        decreases b.len() - i,
    {
        v.push(b[i] as char);
        i += 1;
    }
    assert(b@.take(b.len() as int) =~= b@);
    string_from(v.as_slice())
}

impl SnmprecRecord {
    /// Format a value as a hex string for display in .snmprec files.
    pub fn hexify_value(value: &SnmpValue) -> (r: Option<String>)
        ensures
            r is Some <==> spec_hexify(value@) is Some,
            r matches Some(h) ==> spec_hexify(value@) == Some(h@),
    {
        match value {
            SnmpValue::OctetString(bytes) => {
                assert(value@ == SpecValue::OctetString(bytes@));
                if find_unprintable(bytes.as_slice()) {
                    Some(hex_encode(bytes.as_slice()))
                } else {
                    None
                }
            },
            SnmpValue::IpAddress(ip) => {
                let o = ip.octets();
                let v = vec![o[0], o[1], o[2], o[3]];
                assert(v@ =~= ip.spec_octets());
                Some(hex_encode(v.as_slice()))
            },
            SnmpValue::Opaque(bytes) => Some(hex_encode(bytes.as_slice())),
            _ => None,
        }
    }

    /// The (oid, tag, value) strings that represent a value in a .snmprec record.
    pub fn format_value(&self, oid: &Oid, value: &SnmpValue) -> (r: (String, String, String))
        ensures
            (r.0@, r.1@, r.2@) == spec_format_value(oid@, value@),
    {
        let oid_str = oid.to_dotted_string();
        let base_tag = value.snmprec_tag();
        match Self::hexify_value(value) {
            Some(hex) => {
                let mut t: Vec<char> = Vec::new();
                append_str(&mut t, base_tag);
                t.push('x');
                assert(t@ =~= snmprec_tag_of(value@) + seq!['x']);
                (oid_str, string_from(t.as_slice()), hex)
            },
            None => {
                let val_str = match value {
                    SnmpValue::Integer(v) => string_from(crate::text::i64_text(*v).as_slice()),
                    SnmpValue::OctetString(bytes) => ascii_string(bytes.as_slice()),
                    SnmpValue::ObjectIdentifier(o) => o.to_dotted_string(),
                    SnmpValue::IpAddress(ip) => ip.to_dotted_string(),
                    SnmpValue::Counter32(v) => string_from(
                        crate::text::u64_text(*v as u64).as_slice(),
                    ),
                    SnmpValue::Gauge32(v) => string_from(
                        crate::text::u64_text(*v as u64).as_slice(),
                    ),
                    SnmpValue::TimeTicks(v) => string_from(
                        crate::text::u64_text(*v as u64).as_slice(),
                    ),
                    SnmpValue::Opaque(bytes) => hex_encode(bytes.as_slice()),
                    SnmpValue::Counter64(v) => string_from(crate::text::u64_text(*v).as_slice()),
                    _ => String::new(),
                };
                (oid_str, base_tag.to_string(), val_str)
            },
        }
    }
}

// ─── Evaluation ──────────────────────────────────────────────────────────────

/// A GET that did not match a record exactly answers noSuchInstance.
pub open spec fn answers_no_such_instance(ctx: EvalFlags) -> bool {
    !ctx.next_flag && !ctx.exact_match && !ctx.set_flag && ctx.has_orig_oid
}

/// What a record handler keeps between evaluations: the values that the
/// writecache module holds, and the per-record contexts of the numeric
/// module, both by OID (the last pair for an OID is the one that counts).
pub struct EvalState {
    pub writes: Seq<(Seq<u32>, SpecValue)>,
    pub contexts: Seq<(Seq<u32>, Seq<(Seq<char>, Seq<char>)>)>,
}

/// The state of a new handler: nothing written, no contexts.
pub open spec fn fresh_state() -> EvalState {
    EvalState { writes: Seq::empty(), contexts: Seq::empty() }
}

/// The per-record context kept for an OID (empty before its first use).
pub open spec fn context_of(
    contexts: Seq<(Seq<u32>, Seq<(Seq<char>, Seq<char>)>)>,
    oid: Seq<u32>,
) -> Seq<(Seq<char>, Seq<char>)> {
    match last_value(contexts, oid) {
        Some(rc) => rc,
        None => Seq::empty(),
    }
}

/// What a record's (tag, value) evaluates to for `oid` in context `ctx`,
/// given the handler's state: the value or error, the new state, and the
/// delay asked for. The numeric module works on the context kept for `oid`
/// and leaves its new context for the next evaluation. A tag starting with `:` marks a subtree record (Null); a
/// module named after `:` in the tag computes the value; otherwise the value
/// text is parsed by its base tag and encoding.
pub open spec fn spec_evaluate_value(
    cache: EvalState,
    oid: Seq<u32>,
    tag: Seq<char>,
    value: Seq<char>,
    ctx: EvalFlags,
) -> (Result<SpecValue, EvalError>, EvalState, nat) {
    if tag.len() > 0 && tag[0] == ':' {
        (Ok(SpecValue::Null), cache, 0)
    } else {
        let (type_tag, module) = spec_split_module(tag);
        let (base, enc) = spec_unpack_tag(type_tag);
        match module {
            Some(name) => match kind_of_name(name) {
                Some(ModuleKind::Delay) => {
                    let (r, d) = delay_result(base, value);
                    (r, cache, d)
                },
                Some(ModuleKind::Error) => (Ok(error_result(value)), cache, 0),
                Some(ModuleKind::Numeric) => {
                    let (v, rc) = numeric_result(base, value, context_of(cache.contexts, oid));
                    (
                        Ok(v),
                        EvalState { writes: cache.writes, contexts: cache.contexts.push((oid, rc)) },
                        0,
                    )
                },
                Some(ModuleKind::WriteCache) => {
                    let (r, w, d) = writecache_step(cache.writes, oid, base, value, ctx.set_flag);
                    (r, EvalState { writes: w, contexts: cache.contexts }, d)
                },
                None => (
                    Err(EvalError::Config("Unknown variation module: "@ + debug_text(name))),
                    cache,
                    0,
                ),
            },
            None => match spec_parse_value(base, enc, value) {
                Err(m) => (Err(EvalError::Parse(m)), cache, 0),
                Ok(v) => (
                    Ok(
                        if answers_no_such_instance(ctx) {
                            SpecValue::NoSuchInstance
                        } else {
                            v
                        },
                    ),
                    cache,
                    0,
                ),
            },
        }
    }
}

/// `r` is the value or the error of `s`.
pub open spec fn value_outcome(r: Result<SnmpValue, SnmpsimError>, s: Result<SpecValue, EvalError>) -> bool {
    match s {
        Ok(v) => r matches Ok(x) && x@ == v,
        Err(e) => r matches Err(x) && error_is(x, e),
    }
}

/// What evaluating a whole .snmprec line gives: the OID and (unless only the
/// OID is asked for) the value, the new cache and the delay; `None` when the
/// line itself is refused.
pub open spec fn spec_evaluate_line(
    cache: EvalState,
    fields: Option<(Seq<char>, Seq<char>, Seq<char>)>,
    ctx: EvalFlags,
) -> Option<(Result<(Seq<u32>, Option<SpecValue>), EvalError>, EvalState, nat)> {
    match fields {
        None => None,
        Some((o, t, v)) => Some(
            match oid_parse(o) {
                Err(k) => (Err(EvalError::Parse(oid_error_text(o, k))), cache, 0),
                Ok(c) => if ctx.oid_only {
                    (Ok((c, None)), cache, 0)
                } else {
                    let (r, c2, d) = spec_evaluate_value(cache, c, t, v, ctx);
                    match r {
                        Ok(x) => (Ok((c, Some(x))), c2, d),
                        Err(e) => (Err(e), c2, d),
                    }
                },
            },
        ),
    }
}

/// `r` is the outcome `s` describes; when the line is refused, a parse error
/// with message `refusal`.
pub open spec fn line_outcome(
    r: Result<(Oid, Option<SnmpValue>), SnmpsimError>,
    s: Option<(Result<(Seq<u32>, Option<SpecValue>), EvalError>, EvalState, nat)>,
    refusal: Seq<char>,
) -> bool {
    match s {
        None => r matches Err(e) && e matches SnmpsimError::Parse(m) && m@ == refusal,
        Some((Ok((c, v)), _, _)) => r matches Ok(x) && x.0@ == c && match v {
            Some(val) => x.1 matches Some(y) && y@ == val,
            None => x.1 is None,
        },
        Some((Err(e), _, _)) => r matches Err(x) && error_is(x, e),
    }
}

/// A copy of key/value pairs.
fn copy_pairs(v: &Vec<(String, String)>) -> (r: Vec<(String, String)>)
    ensures
        pairs_view(r@) == pairs_view(v@),
{
    let mut r: Vec<(String, String)> = Vec::new();
    let mut i: usize = 0;
    while i < v.len()
        invariant
            i <= v@.len(),
            r@.len() == i,
            forall|k: int| 0 <= k < i ==> #[trigger] r@[k].0@ == v@[k].0@ && r@[k].1@ == v@[k].1@,
        decreases v@.len() - i,
    {
        r.push((crate::text::copy_string(v[i].0.as_str()), crate::text::copy_string(v[i].1.as_str())));
        i += 1;
    }
    assert(pairs_view(r@) =~= pairs_view(v@));
    r
}

/// Record handler for .snmprec files.
pub struct SnmprecRecord {
    grammar: SnmprecGrammar,
    registry: VariationModuleRegistry,
    delay_ms: u64,
    /// Per-record contexts of the numeric module, by OID; a later pair
    /// overrides an earlier one.
    contexts: Vec<(Oid, Vec<(String, String)>)>,
}

/// The per-record contexts as OIDs and key/value texts.
pub open spec fn contexts_view(v: Seq<(Oid, Vec<(String, String)>)>) -> Seq<
    (Seq<u32>, Seq<(Seq<char>, Seq<char>)>),
> {
    Seq::new(v.len(), |i: int| (v[i].0@, pairs_view(v[i].1@)))
}

impl SnmprecRecord {
    /// Every built-in variation module is registered.
    pub closed spec fn wf(&self) -> bool {
        self.registry.is_complete()
    }

    /// What the handler keeps between evaluations: the values that the
    /// writecache module holds and the numeric module's contexts, by OID.
    pub closed spec fn cache(&self) -> EvalState {
        EvalState { writes: self.registry.cache(), contexts: contexts_view(self.contexts@) }
    }

    /// The delay (ms) asked for by delay modules since it was last taken.
    pub closed spec fn pending_delay(&self) -> u64 {
        self.delay_ms
    }

    pub fn new() -> (r: SnmprecRecord)
        ensures
            r.wf(),
            r.cache() == fresh_state(),
            r.pending_delay() == 0,
    {
        let r = SnmprecRecord {
            grammar: SnmprecGrammar::new(),
            registry: VariationModuleRegistry::with_builtins(),
            delay_ms: 0,
            contexts: Vec::new(),
        };
        assert(contexts_view(r.contexts@) =~= Seq::empty());
        r
    }

    /// The grammar that reads this record type's lines.
    pub fn grammar(&self) -> (r: &SnmprecGrammar) {
        &self.grammar
    }

    /// The file extension of this record type (without leading dot).
    pub fn extension(&self) -> (r: &'static str)
        ensures
            r@ == "snmprec"@,
    {
        "snmprec"
    }

    /// A copy of the context kept for `oid` (empty before its first use).
    fn context_for(&self, oid: &Oid) -> (r: Vec<(String, String)>)
        ensures
            pairs_view(r@) == context_of(contexts_view(self.contexts@), oid@),
    {
        let ghost cv = contexts_view(self.contexts@);
        let mut i: usize = self.contexts.len();
        assert(cv.take(i as int) =~= cv);
        while i > 0
            invariant
                i <= self.contexts@.len(),
                cv == contexts_view(self.contexts@),
                last_value(cv, oid@) == last_value(cv.take(i as int), oid@),
            decreases i,
        {
            assert(cv.take(i as int).drop_last() =~= cv.take(i - 1));
            if self.contexts[i - 1].0.equals(oid) {
                return copy_pairs(&self.contexts[i - 1].1);
            }
            i -= 1;
        }
        Vec::new()
    }

    /// Returns the delay asked for since the last call, and forgets it.
    pub fn take_delay(&mut self) -> (r: u64)
        ensures
            r == old(self).pending_delay(),
            final(self).pending_delay() == 0,
            final(self).wf() == old(self).wf(),
            final(self).cache() == old(self).cache(),
    {
        let d = self.delay_ms;
        self.delay_ms = 0;
        d
    }

    /// Parse an OID string into a typed Oid.
    pub fn evaluate_oid(&self, oid_str: &str) -> (r: Result<Oid, SnmpsimError>)
        ensures
            r matches Ok(o) ==> oid_parse(oid_str@) == Ok::<Seq<u32>, IntErrorKind>(o@),
            r matches Err(e) ==> (oid_parse(oid_str@) is Err && (e matches SnmpsimError::Parse(m)
                && m@ == oid_error_text(oid_str@, oid_parse(oid_str@)->Err_0))),
    {
        Oid::parse_str(oid_str)
    }

    /// Parse a (tag, value) string pair into a typed SnmpValue.
    pub fn evaluate_value(
        &mut self,
        oid: &Oid,
        tag: &str,
        value_str: &str,
        ctx: &EvalContext,
    ) -> (r: Result<SnmpValue, SnmpsimError>)
        requires
            old(self).wf(),
        ensures
            final(self).wf(),
            ({
                let (s, c, d) = spec_evaluate_value(old(self).cache(), oid@, tag@, value_str@, ctx.flags());
                value_outcome(r, s) && final(self).cache() == c && (r is Ok ==> final(self).pending_delay() == clamp_delay((old(self).pending_delay() + d) as nat))
                    && (r is Err ==> final(self).pending_delay() == old(self).pending_delay())
            }),
    {
        // Subtree records have a leading ':' with no numeric type prefix
        let cs = chars_of(tag);
        if cs.len() > 0 && cs[0] == ':' {
            return Ok(SnmpValue::Null);
        }
        let (type_tag, module_name) = SnmprecGrammar::split_module(tag);
        let (base_tag, encoding) = SnmprecGrammar::unpack_tag(type_tag);
        if let Some(name) = module_name {
            let mut vctx = VariationContext {
                oid: oid.duplicate(),
                tag: crate::text::copy_string(base_tag),
                value: crate::text::copy_string(value_str),
                next_flag: ctx.next_flag,
                set_flag: ctx.set_flag,
                exact_match: ctx.exact_match,
                data_file: crate::text::copy_string(ctx.data_file.as_str()),
                options: String::new(),
                record_context: self.context_for(oid),
                agent_context: Vec::new(),
            };
            let ghost before = self.contexts@;
            match self.registry.variate(name, &mut vctx) {
                Some(Ok(res)) => {
                    if let Some(ModuleKind::Numeric) = module_kind(name) {
                        self.contexts.push((oid.duplicate(), vctx.record_context));
                        proof {
                            assert(contexts_view(self.contexts@) =~= contexts_view(before).push(
                                (oid@, pairs_view(vctx.record_context@)),
                            ));
                        }
                    }
                    self.delay_ms = add_delay(self.delay_ms, res.delay_ms);
                    return Ok(res.value);
                },
                Some(Err(e)) => {
                    return Err(e);
                },
                None => {
                    return Err(unknown_module_error(name));
                },
            }
        }
        let value = match Self::parse_value(base_tag, encoding, value_str) {
            Ok(v) => v,
            Err(e) => {
                return Err(e);
            },
        };
        // A GET (not NEXT) that is not an exact match answers noSuchInstance
        if !ctx.next_flag && !ctx.exact_match && !ctx.set_flag && ctx.orig_oid.is_some() {
            return Ok(SnmpValue::NoSuchInstance);
        }
        Ok(value)
    }

    /// Parse a full data file line into (Oid, SnmpValue).
    pub fn evaluate(&mut self, line: &[u8], ctx: &EvalContext) -> (r: Result<
        (Oid, Option<SnmpValue>),
        SnmpsimError,
    >)
        requires
            old(self).wf(),
        ensures
            final(self).wf(),
            line_outcome(
                r,
                spec_evaluate_line(old(self).cache(), snmprec_parse(line@), ctx.flags()),
                crate::grammar::snmprec::snmprec_refusal(line@),
            ),
            match spec_evaluate_line(old(self).cache(), snmprec_parse(line@), ctx.flags()) {
                Some((s, c, d)) => final(self).cache() == c && (s is Ok ==> final(self).pending_delay() == clamp_delay((old(self).pending_delay() + d) as nat)),
                None => final(self).cache() == old(self).cache(),
            },
            r is Err ==> final(self).pending_delay() == old(self).pending_delay(),
    {
        let (oid_str, tag, value_str) = match self.grammar.parse(line) {
            Ok(f) => f,
            Err(e) => {
                return Err(e);
            },
        };
        let oid = match self.evaluate_oid(oid_str.as_str()) {
            Ok(o) => o,
            Err(e) => {
                return Err(e);
            },
        };
        if ctx.oid_only {
            return Ok((oid, None));
        }
        match self.evaluate_value(&oid, tag.as_str(), value_str.as_str(), ctx) {
            Ok(v) => Ok((oid, Some(v))),
            Err(e) => Err(e),
        }
    }

    /// Format an OID for output.
    pub fn format_oid(&self, oid: &Oid) -> (r: String)
        ensures
            r@ == oid_text(oid@),
    {
        oid.to_dotted_string()
    }

    /// Build a record line from (oid, value).
    pub fn format(&self, oid: &Oid, value: &SnmpValue) -> (r: Result<Vec<u8>, SnmpsimError>)
        ensures
            ({
                let (o, t, v) = spec_format_value(oid@, value@);
                &&& r is Ok <==> o.len() > 0
                &&& r matches Ok(b) ==> b@ == vstd::utf8::encode_utf8(pipe_line(o, t, v))
                &&& r matches Err(e) ==> (e matches SnmpsimError::Parse(m) && m@
                    == empty_oid_tag_text(o, t))
            }),
    {
        let (o, t, v) = self.format_value(oid, value);
        proof {
            crate::snmp_value::lemma_snmprec_tag_nonempty(value@);
        }
        self.grammar.build(o.as_str(), t.as_str(), v.as_str())
    }
}

/// Record handler for .snmprec.bz2 compressed files: records as in
/// .snmprec; the file is read through a bzip2 decoder.
pub struct CompressedSnmprecRecord {
    pub inner: SnmprecRecord,
}

impl Default for CompressedSnmprecRecord {
    fn default() -> (r: CompressedSnmprecRecord)
        ensures
            r.inner.wf(),
            r.inner.cache() == fresh_state(),
            r.inner.pending_delay() == 0,
    {
        CompressedSnmprecRecord::new()
    }
}

impl CompressedSnmprecRecord {
    pub fn new() -> (r: CompressedSnmprecRecord)
        ensures
            r.inner.wf(),
            r.inner.cache() == fresh_state(),
            r.inner.pending_delay() == 0,
    {
        CompressedSnmprecRecord { inner: SnmprecRecord::new() }
    }

    /// The grammar that reads this record type's lines (that of .snmprec).
    pub fn grammar(&self) -> (r: &SnmprecGrammar) {
        self.inner.grammar()
    }

    /// Parse an OID string into a typed Oid (as .snmprec records do).
    pub fn evaluate_oid(&self, oid_str: &str) -> (r: Result<Oid, SnmpsimError>)
        ensures
            r matches Ok(o) ==> oid_parse(oid_str@) == Ok::<Seq<u32>, IntErrorKind>(o@),
            r matches Err(e) ==> (oid_parse(oid_str@) is Err && (e matches SnmpsimError::Parse(m)
                && m@ == oid_error_text(oid_str@, oid_parse(oid_str@)->Err_0))),
    {
        self.inner.evaluate_oid(oid_str)
    }

    /// Parse a (tag, value) string pair into a typed SnmpValue (as .snmprec
    /// records do).
    pub fn evaluate_value(
        &mut self,
        oid: &Oid,
        tag: &str,
        value_str: &str,
        ctx: &EvalContext,
    ) -> (r: Result<SnmpValue, SnmpsimError>)
        requires
            old(self).inner.wf(),
        ensures
            final(self).inner.wf(),
            ({
                let (s, c, d) = spec_evaluate_value(
                    old(self).inner.cache(),
                    oid@,
                    tag@,
                    value_str@,
                    ctx.flags(),
                );
                value_outcome(r, s) && final(self).inner.cache() == c && (r is Ok
                    ==> final(self).inner.pending_delay() == clamp_delay(
                    (old(self).inner.pending_delay() + d) as nat,
                )) && (r is Err ==> final(self).inner.pending_delay() == old(
                    self,
                ).inner.pending_delay())
            }),
    {
        self.inner.evaluate_value(oid, tag, value_str, ctx)
    }

    /// Parse a full (decompressed) line into (Oid, SnmpValue).
    pub fn evaluate(&mut self, line: &[u8], ctx: &EvalContext) -> (r: Result<
        (Oid, Option<SnmpValue>),
        SnmpsimError,
    >)
        requires
            old(self).inner.wf(),
        ensures
            final(self).inner.wf(),
            line_outcome(
                r,
                spec_evaluate_line(old(self).inner.cache(), snmprec_parse(line@), ctx.flags()),
                crate::grammar::snmprec::snmprec_refusal(line@),
            ),
            match spec_evaluate_line(old(self).inner.cache(), snmprec_parse(line@), ctx.flags()) {
                Some((s, c, d)) => final(self).inner.cache() == c && (s is Ok
                    ==> final(self).inner.pending_delay() == clamp_delay(
                    (old(self).inner.pending_delay() + d) as nat,
                )),
                None => final(self).inner.cache() == old(self).inner.cache(),
            },
            r is Err ==> final(self).inner.pending_delay() == old(self).inner.pending_delay(),
    {
        self.inner.evaluate(line, ctx)
    }

    /// Format an OID for output.
    pub fn format_oid(&self, oid: &Oid) -> (r: String)
        ensures
            r@ == oid_text(oid@),
    {
        self.inner.format_oid(oid)
    }

    /// The (oid, tag, value) strings of a value, as .snmprec writes them.
    pub fn format_value(&self, oid: &Oid, value: &SnmpValue) -> (r: (String, String, String))
        ensures
            (r.0@, r.1@, r.2@) == spec_format_value(oid@, value@),
    {
        self.inner.format_value(oid, value)
    }

    /// Build a record line from (oid, value).
    pub fn format(&self, oid: &Oid, value: &SnmpValue) -> (r: Result<Vec<u8>, SnmpsimError>)
        ensures
            ({
                let (o, t, v) = spec_format_value(oid@, value@);
                &&& r is Ok <==> o.len() > 0
                &&& r matches Ok(b) ==> b@ == vstd::utf8::encode_utf8(pipe_line(o, t, v))
                &&& r matches Err(e) ==> (e matches SnmpsimError::Parse(m) && m@
                    == empty_oid_tag_text(o, t))
            }),
    {
        self.inner.format(oid, value)
    }

    /// The file extension of this record type (without leading dot).
    pub fn extension(&self) -> (r: &'static str)
        ensures
            r@ == "snmprec.bz2"@,
    {
        "snmprec.bz2"
    }
}

} // verus!
