//! Error type of the library.

use vstd::prelude::*;

verus! {

/// `std::io::Error`, carried by [`SnmpsimError::Io`].
#[verifier::external_type_specification]
#[verifier::external_body]
pub struct ExIoError(std::io::Error);

/// Top-level error type for all snmpsim errors.
#[derive(Debug)]
pub enum SnmpsimError {
    Io(std::io::Error),
    Parse(String),
    Snmp(String),
    /// No data is available for a given OID.
    NoData,
    /// More data follows.
    MoreData { message: String },
    Index(String),
    Variation(String),
    Config(String),
    Ber(String),
}

} // verus!
