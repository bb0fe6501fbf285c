//! SNMP agent simulator library: OIDs, SNMP values, the BER codec of SNMP
//! v1/v2c messages, the grammars of simulation data files, record
//! evaluation, data-file lookups and request processing.

pub mod text;
pub mod hex_codec;
pub mod error;
pub mod oid;
pub mod snmp_value;
pub mod ber;
pub mod grammar;
pub mod record;
pub mod variation;
pub mod datafile;
pub mod reporting;
pub mod server;
pub mod daemon;
pub mod endpoint;
pub mod confdir;
pub mod convert;

use vstd::prelude::*;

verus! {

/// The version of the library.
pub const VERSION: &'static str = "0.1.0";

} // verus!
