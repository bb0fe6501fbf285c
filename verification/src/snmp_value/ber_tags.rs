//! BER tag bytes for SNMP wire encoding.

use vstd::prelude::*;

verus! {

/// Universal INTEGER
pub const INTEGER: u8 = 0x02;

/// Universal OCTET STRING
pub const OCTET_STRING: u8 = 0x04;

/// Universal NULL
pub const NULL: u8 = 0x05;

/// Universal OBJECT IDENTIFIER
pub const OID: u8 = 0x06;

/// Universal SEQUENCE (constructed)
pub const SEQUENCE: u8 = 0x30;

// Application types
pub const IP_ADDRESS: u8 = 0x40;

pub const COUNTER32: u8 = 0x41;

pub const GAUGE32: u8 = 0x42;

pub const TIME_TICKS: u8 = 0x43;

pub const OPAQUE: u8 = 0x44;

pub const COUNTER64: u8 = 0x46;

// Context-specific exception types (v2c)
pub const NO_SUCH_OBJECT: u8 = 0x80;

pub const NO_SUCH_INSTANCE: u8 = 0x81;

pub const END_OF_MIB_VIEW: u8 = 0x82;

// PDU types (context-specific, constructed)
pub const GET_REQUEST: u8 = 0xA0;

pub const GET_NEXT_REQUEST: u8 = 0xA1;

pub const GET_RESPONSE: u8 = 0xA2;

pub const SET_REQUEST: u8 = 0xA3;

pub const GET_BULK_REQUEST: u8 = 0xA5;

pub const INFORM_REQUEST: u8 = 0xA6;

pub const SNMPV2_TRAP: u8 = 0xA7;

pub const REPORT: u8 = 0xA8;

} // verus!
