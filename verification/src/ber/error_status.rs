//! SNMP error status codes.

use vstd::prelude::*;

verus! {

pub const NO_ERROR: i64 = 0;

pub const TOO_BIG: i64 = 1;

pub const NO_SUCH_NAME: i64 = 2;

pub const BAD_VALUE: i64 = 3;

pub const READ_ONLY: i64 = 4;

pub const GEN_ERR: i64 = 5;

pub const NO_ACCESS: i64 = 6;

pub const WRONG_TYPE: i64 = 7;

pub const WRONG_LENGTH: i64 = 8;

pub const WRONG_ENCODING: i64 = 9;

pub const WRONG_VALUE: i64 = 10;

pub const NO_CREATION: i64 = 11;

pub const INCONSISTENT_VALUE: i64 = 12;

pub const RESOURCE_UNAVAILABLE: i64 = 13;

pub const COMMIT_FAILED: i64 = 14;

pub const UNDO_FAILED: i64 = 15;

pub const AUTHORIZATION_ERROR: i64 = 16;

pub const NOT_WRITABLE: i64 = 17;

pub const INCONSISTENT_NAME: i64 = 18;

} // verus!
