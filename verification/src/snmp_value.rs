//! SNMP value types and tag constants.

pub mod ber_tags;
pub mod tags;

use vstd::prelude::*;

use crate::oid::Oid;
use crate::hex_codec::hex_text;
use crate::oid::oid_text;
use crate::text::{chars_of, dec, int_text, lossy_text, push_dec, string_from};

verus! {

/// An IPv4 address given by its four octets, most significant first.
#[derive(Clone, Copy, Debug, PartialEq, Eq, Hash)]
pub struct Ipv4Addr(pub u8, pub u8, pub u8, pub u8);

impl Ipv4Addr {
    pub fn new(a: u8, b: u8, c: u8, d: u8) -> (r: Ipv4Addr)
        ensures
            r == Ipv4Addr(a, b, c, d),
    {
        Ipv4Addr(a, b, c, d)
    }

    /// The four octets.
    pub open spec fn spec_octets(self) -> Seq<u8> {
        seq![self.0, self.1, self.2, self.3]
    }

    pub fn octets(&self) -> (r: [u8; 4])
        ensures
            r@ == self.spec_octets(),
    {
        [self.0, self.1, self.2, self.3]
    }

    /// The dotted decimal form, e.g. `192.168.1.1`.
    pub open spec fn spec_text(self) -> Seq<char> {
        dec(self.0 as nat) + seq!['.'] + dec(self.1 as nat) + seq!['.'] + dec(self.2 as nat)
            + seq!['.'] + dec(self.3 as nat)
    }

    /// The dotted decimal form, e.g. `192.168.1.1`.
    pub fn to_dotted_string(&self) -> (r: String)
        ensures
            r@ == self.spec_text(),
    {
        let mut out: Vec<char> = Vec::new();
        push_dec(&mut out, self.0 as u64);
        out.push('.');
        push_dec(&mut out, self.1 as u64);
        out.push('.');
        push_dec(&mut out, self.2 as u64);
        out.push('.');
        push_dec(&mut out, self.3 as u64);
        proof {
            assert(out@ =~= self.spec_text());
        }
        string_from(out.as_slice())
    }
}

/// The mathematical content of an [`SnmpValue`].
pub enum SpecValue {
    Integer(i64),
    OctetString(Seq<u8>),
    Null,
    ObjectIdentifier(Seq<u32>),
    IpAddress(Ipv4Addr),
    Counter32(u32),
    Gauge32(u32),
    TimeTicks(u32),
    Opaque(Seq<u8>),
    Counter64(u64),
    NoSuchObject,
    NoSuchInstance,
    EndOfMibView,
}

/// All SNMP value types that can appear in simulation data files.
#[derive(Debug, Clone, PartialEq)]
pub enum SnmpValue {
    Integer(i64),
    OctetString(Vec<u8>),
    Null,
    ObjectIdentifier(Oid),
    IpAddress(Ipv4Addr),
    Counter32(u32),
    Gauge32(u32),
    TimeTicks(u32),
    Opaque(Vec<u8>),
    Counter64(u64),
    /// noSuchObject exception value (v2c)
    NoSuchObject,
    /// noSuchInstance exception value (v2c)
    NoSuchInstance,
    /// endOfMibView exception value (v2c)
    EndOfMibView,
}

impl View for SnmpValue {
    type V = SpecValue;

    open spec fn view(&self) -> SpecValue {
        match self {
            SnmpValue::Integer(v) => SpecValue::Integer(*v),
            SnmpValue::OctetString(v) => SpecValue::OctetString(v@),
            SnmpValue::Null => SpecValue::Null,
            SnmpValue::ObjectIdentifier(o) => SpecValue::ObjectIdentifier(o@),
            SnmpValue::IpAddress(ip) => SpecValue::IpAddress(*ip),
            SnmpValue::Counter32(v) => SpecValue::Counter32(*v),
            SnmpValue::Gauge32(v) => SpecValue::Gauge32(*v),
            SnmpValue::TimeTicks(v) => SpecValue::TimeTicks(*v),
            SnmpValue::Opaque(v) => SpecValue::Opaque(v@),
            SnmpValue::Counter64(v) => SpecValue::Counter64(*v),
            SnmpValue::NoSuchObject => SpecValue::NoSuchObject,
            SnmpValue::NoSuchInstance => SpecValue::NoSuchInstance,
            SnmpValue::EndOfMibView => SpecValue::EndOfMibView,
        }
    }
}

/// The numeric tag string of a value in .snmprec files.
pub open spec fn snmprec_tag_of(v: SpecValue) -> Seq<char> {
    match v {
        SpecValue::Integer(_) => tags::INTEGER@,
        SpecValue::OctetString(_) => tags::OCTET_STRING@,
        SpecValue::Null => tags::NULL@,
        SpecValue::ObjectIdentifier(_) => tags::OID@,
        SpecValue::IpAddress(_) => tags::IP_ADDRESS@,
        SpecValue::Counter32(_) => tags::COUNTER32@,
        SpecValue::Gauge32(_) => tags::GAUGE32@,
        SpecValue::TimeTicks(_) => tags::TIME_TICKS@,
        SpecValue::Opaque(_) => tags::OPAQUE@,
        SpecValue::Counter64(_) => tags::COUNTER64@,
        SpecValue::NoSuchObject => tags::NO_SUCH_OBJECT@,
        SpecValue::NoSuchInstance => tags::NO_SUCH_INSTANCE@,
        SpecValue::EndOfMibView => tags::END_OF_MIB_VIEW@,
    }
}

/// Every .snmprec tag is non-empty.
pub proof fn lemma_snmprec_tag_nonempty(v: SpecValue)
    ensures
        snmprec_tag_of(v).len() > 0,
{
    reveal_strlit("2");
    reveal_strlit("4");
    reveal_strlit("5");
    reveal_strlit("6");
    reveal_strlit("64");
    reveal_strlit("65");
    reveal_strlit("66");
    reveal_strlit("67");
    reveal_strlit("68");
    reveal_strlit("70");
    reveal_strlit("128");
    reveal_strlit("129");
    reveal_strlit("130");
}

/// The BER tag byte of a value.
pub open spec fn ber_tag_of(v: SpecValue) -> u8 {
    match v {
        SpecValue::Integer(_) => ber_tags::INTEGER,
        SpecValue::OctetString(_) => ber_tags::OCTET_STRING,
        SpecValue::Null => ber_tags::NULL,
        SpecValue::ObjectIdentifier(_) => ber_tags::OID,
        SpecValue::IpAddress(_) => ber_tags::IP_ADDRESS,
        SpecValue::Counter32(_) => ber_tags::COUNTER32,
        SpecValue::Gauge32(_) => ber_tags::GAUGE32,
        SpecValue::TimeTicks(_) => ber_tags::TIME_TICKS,
        SpecValue::Opaque(_) => ber_tags::OPAQUE,
        SpecValue::Counter64(_) => ber_tags::COUNTER64,
        SpecValue::NoSuchObject => ber_tags::NO_SUCH_OBJECT,
        SpecValue::NoSuchInstance => ber_tags::NO_SUCH_INSTANCE,
        SpecValue::EndOfMibView => ber_tags::END_OF_MIB_VIEW,
    }
}

/// How a value is shown to a reader: numbers in decimal, an octet string as
/// its text (invalid UTF-8 replaced), an OID dotted, an address in dotted
/// quad, an opaque value as `0x` and lowercase hex, and the three exception
/// values by their names.
pub open spec fn display_text(v: SpecValue) -> Seq<char> {
    match v {
        SpecValue::Integer(n) => int_text(n as int),
        SpecValue::OctetString(b) => lossy_text(b),
        SpecValue::Null => "NULL"@,
        SpecValue::ObjectIdentifier(c) => oid_text(c),
        SpecValue::IpAddress(ip) => ip.spec_text(),
        SpecValue::Counter32(n) => dec(n as nat),
        SpecValue::Gauge32(n) => dec(n as nat),
        SpecValue::TimeTicks(n) => dec(n as nat),
        SpecValue::Opaque(b) => "0x"@ + hex_text(b),
        SpecValue::Counter64(n) => dec(n as nat),
        SpecValue::NoSuchObject => "noSuchObject"@,
        SpecValue::NoSuchInstance => "noSuchInstance"@,
        SpecValue::EndOfMibView => "endOfMibView"@,
    }
}

/// The text of `0x` followed by the lowercase hex digits of the bytes.
fn opaque_text(b: &[u8]) -> (r: String)
    ensures
        r@ == "0x"@ + hex_text(b@),
{
    let mut out: Vec<char> = Vec::new();
    out.push('0');
    out.push('x');
    let mut i: usize = 0;
    while i < b.len()
        invariant
            i <= b@.len(),
            out@ == seq!['0', 'x'] + hex_text(b@.take(i as int)),
        decreases b@.len() - i,
    {
        proof {
            assert(b@.take(i + 1).drop_last() =~= b@.take(i as int));
        }
        crate::ber::push_hex2(&mut out, b[i]);
        i += 1;
    }
    proof {
        assert(b@.take(i as int) =~= b@);
        reveal_strlit("0x");
        assert(out@ =~= "0x"@ + hex_text(b@));
    }
    string_from(out.as_slice())
}

impl SnmpValue {
    /// Return the numeric tag string used in .snmprec files.
    pub fn snmprec_tag(&self) -> (r: &'static str)
        ensures
            r@ == snmprec_tag_of(self@),
    {
        match self {
            SnmpValue::Integer(_) => tags::INTEGER,
            SnmpValue::OctetString(_) => tags::OCTET_STRING,
            SnmpValue::Null => tags::NULL,
            SnmpValue::ObjectIdentifier(_) => tags::OID,
            SnmpValue::IpAddress(_) => tags::IP_ADDRESS,
            SnmpValue::Counter32(_) => tags::COUNTER32,
            SnmpValue::Gauge32(_) => tags::GAUGE32,
            SnmpValue::TimeTicks(_) => tags::TIME_TICKS,
            SnmpValue::Opaque(_) => tags::OPAQUE,
            SnmpValue::Counter64(_) => tags::COUNTER64,
            SnmpValue::NoSuchObject => tags::NO_SUCH_OBJECT,
            SnmpValue::NoSuchInstance => tags::NO_SUCH_INSTANCE,
            SnmpValue::EndOfMibView => tags::END_OF_MIB_VIEW,
        }
    }

    /// Return the BER tag byte for this value type.
    pub fn ber_tag(&self) -> (r: u8)
        ensures
            r == ber_tag_of(self@),
    {
        match self {
            SnmpValue::Integer(_) => ber_tags::INTEGER,
            SnmpValue::OctetString(_) => ber_tags::OCTET_STRING,
            SnmpValue::Null => ber_tags::NULL,
            SnmpValue::ObjectIdentifier(_) => ber_tags::OID,
            SnmpValue::IpAddress(_) => ber_tags::IP_ADDRESS,
            SnmpValue::Counter32(_) => ber_tags::COUNTER32,
            SnmpValue::Gauge32(_) => ber_tags::GAUGE32,
            SnmpValue::TimeTicks(_) => ber_tags::TIME_TICKS,
            SnmpValue::Opaque(_) => ber_tags::OPAQUE,
            SnmpValue::Counter64(_) => ber_tags::COUNTER64,
            SnmpValue::NoSuchObject => ber_tags::NO_SUCH_OBJECT,
            SnmpValue::NoSuchInstance => ber_tags::NO_SUCH_INSTANCE,
            SnmpValue::EndOfMibView => ber_tags::END_OF_MIB_VIEW,
        }
    }

    /// A copy of this value.
    pub fn duplicate(&self) -> (r: SnmpValue)
        ensures
            r@ == self@,
    {
        match self {
            SnmpValue::Integer(v) => SnmpValue::Integer(*v),
            SnmpValue::OctetString(v) => SnmpValue::OctetString(
                crate::text::copy_bytes(v.as_slice()),
            ),
            SnmpValue::Null => SnmpValue::Null,
            SnmpValue::ObjectIdentifier(o) => SnmpValue::ObjectIdentifier(o.duplicate()),
            SnmpValue::IpAddress(ip) => SnmpValue::IpAddress(*ip),
            SnmpValue::Counter32(v) => SnmpValue::Counter32(*v),
            SnmpValue::Gauge32(v) => SnmpValue::Gauge32(*v),
            SnmpValue::TimeTicks(v) => SnmpValue::TimeTicks(*v),
            SnmpValue::Opaque(v) => SnmpValue::Opaque(crate::text::copy_bytes(v.as_slice())),
            SnmpValue::Counter64(v) => SnmpValue::Counter64(*v),
            SnmpValue::NoSuchObject => SnmpValue::NoSuchObject,
            SnmpValue::NoSuchInstance => SnmpValue::NoSuchInstance,
            SnmpValue::EndOfMibView => SnmpValue::EndOfMibView,
        }
    }

    /// The text shown for this value (see [`display_text`]).
    pub fn to_display_string(&self) -> (r: String)
        ensures
            r@ == display_text(self@),
    {
        match self {
            SnmpValue::Integer(v) => string_from(crate::text::i64_text(*v).as_slice()),
            SnmpValue::OctetString(v) => crate::text::utf8_lossy(v.as_slice()),
            SnmpValue::Null => string_from(chars_of("NULL").as_slice()),
            SnmpValue::ObjectIdentifier(o) => o.to_dotted_string(),
            SnmpValue::IpAddress(ip) => ip.to_dotted_string(),
            SnmpValue::Counter32(v) => string_from(crate::text::u64_text(*v as u64).as_slice()),
            SnmpValue::Gauge32(v) => string_from(crate::text::u64_text(*v as u64).as_slice()),
            SnmpValue::TimeTicks(v) => string_from(crate::text::u64_text(*v as u64).as_slice()),
            SnmpValue::Opaque(v) => opaque_text(v.as_slice()),
            SnmpValue::Counter64(v) => string_from(crate::text::u64_text(*v).as_slice()),
            SnmpValue::NoSuchObject => string_from(chars_of("noSuchObject").as_slice()),
            SnmpValue::NoSuchInstance => string_from(chars_of("noSuchInstance").as_slice()),
            SnmpValue::EndOfMibView => string_from(chars_of("endOfMibView").as_slice()),
        }
    }
}

} // verus!
