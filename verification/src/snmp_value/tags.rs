//! Numeric tag strings used in .snmprec files.
//! These correspond to the sum of the ASN.1 tag components (class + format + tag id).

use vstd::prelude::*;

verus! {

/// Universal INTEGER (tag 2)
pub const INTEGER: &'static str = "2";

/// Universal OCTET STRING (tag 4)
pub const OCTET_STRING: &'static str = "4";

/// Universal NULL (tag 5)
pub const NULL: &'static str = "5";

/// Universal OBJECT IDENTIFIER (tag 6)
pub const OID: &'static str = "6";

/// Application IpAddress (class=64, tag=0 → 64)
pub const IP_ADDRESS: &'static str = "64";

/// Application Counter32 (class=64, tag=1 → 65)
pub const COUNTER32: &'static str = "65";

/// Application Gauge32/Unsigned32 (class=64, tag=2 → 66)
pub const GAUGE32: &'static str = "66";

/// Application TimeTicks (class=64, tag=3 → 67)
pub const TIME_TICKS: &'static str = "67";

/// Application Opaque (class=64, tag=4 → 68)
pub const OPAQUE: &'static str = "68";

/// Application Counter64 (class=64, tag=6 → 70)
pub const COUNTER64: &'static str = "70";

/// Context noSuchObject (class=128, tag=0 → 128)
pub const NO_SUCH_OBJECT: &'static str = "128";

/// Context noSuchInstance (class=128, tag=1 → 129)
pub const NO_SUCH_INSTANCE: &'static str = "129";

/// Context endOfMibView (class=128, tag=2 → 130)
pub const END_OF_MIB_VIEW: &'static str = "130";

} // verus!
