//! The typed failure a device call can end in.

use vstd::prelude::*;

use crate::text::dec_of_usize;
use crate::text::spec_dec;

verus! {

/// Errors a device call can end in, beyond the transport itself.
///
/// The device answers every request with an envelope `{"data":..,"error":N}`.
/// A nonzero `N` becomes `WrongParameters` (the one code the firmware
/// documents, 400) or `UnknownCode` carrying the raw code.  A success
/// envelope that does not hold what it must (missing `data`, or no entry for
/// outlet 0) becomes `MalformedResponse`; no response can make a call panic.
#[derive(Debug, Clone, Copy, PartialEq, Eq, Structural)]
pub enum Error {
    /// The device rejected the request parameters (device error code 400).
    WrongParameters,
    /// The device answered with a nonzero error code this client does not
    /// know; the raw code is kept.
    UnknownCode(usize),
    /// The response envelope does not hold what a successful answer must.
    MalformedResponse,
}

/// The error a nonzero device error code maps to.
pub open spec fn spec_error_of_code(code: usize) -> Error {
    if code == 400 {
        Error::WrongParameters
    } else {
        Error::UnknownCode(code)
    }
}

impl Error {
    /// Maps a nonzero device error code to the typed error: 400 is the one
    /// named code, every other code is kept as `UnknownCode`.
    pub fn from_api_error_code(code: usize) -> (r: Error)
        requires
            code != 0,
        ensures
            r == spec_error_of_code(code),
    {
        match code {
            400 => Error::WrongParameters,
            _ => Error::UnknownCode(code),
        }
    }

    /// A human-readable description of the error.
    pub fn message(&self) -> (r: String)
        ensures
            r@ == match *self {
                Error::WrongParameters => "API errored with code 400, wrong parameters"@,
                Error::UnknownCode(code) => "unknown device error code "@ + spec_dec(
                    code as int,
                ),
                Error::MalformedResponse => "malformed response from device"@,
            },
    {
        match self {
            Error::WrongParameters => "API errored with code 400, wrong parameters".to_owned(),
            Error::UnknownCode(code) => {
                let mut r = "unknown device error code ".to_owned();
                let digits = dec_of_usize(*code);
                r.append(digits.as_str());
                r
            },
            Error::MalformedResponse => "malformed response from device".to_owned(),
        }
    }
}

} // verus!
