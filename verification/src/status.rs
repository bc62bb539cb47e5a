//! The HTTP status codes that the handlers answer with.

use vstd::prelude::*;

verus! {

pub const OK: u16 = 200;

pub const NO_CONTENT: u16 = 204;

pub const BAD_REQUEST: u16 = 400;

pub const UNAUTHORIZED: u16 = 401;

pub const NOT_FOUND: u16 = 404;

pub const CONFLICT: u16 = 409;

pub const INTERNAL_SERVER_ERROR: u16 = 500;

pub const BAD_GATEWAY: u16 = 502;

} // verus!
