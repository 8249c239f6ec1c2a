//! Error codes reported by the USB engine.

use vstd::prelude::*;
use libc::c_int;

verus! {

/// Status code: success (no error).
pub const LIBUSB_SUCCESS: c_int = 0;

/// Status code: input/output error.
pub const LIBUSB_ERROR_IO: c_int = -1;

/// Status code: invalid parameter.
pub const LIBUSB_ERROR_INVALID_PARAM: c_int = -2;

/// Status code: access denied (insufficient permissions).
pub const LIBUSB_ERROR_ACCESS: c_int = -3;

/// Status code: no such device (it may have been disconnected).
pub const LIBUSB_ERROR_NO_DEVICE: c_int = -4;

/// Status code: entity not found.
pub const LIBUSB_ERROR_NOT_FOUND: c_int = -5;

/// Status code: resource busy.
pub const LIBUSB_ERROR_BUSY: c_int = -6;

/// Status code: operation timed out.
pub const LIBUSB_ERROR_TIMEOUT: c_int = -7;

/// Status code: overflow.
pub const LIBUSB_ERROR_OVERFLOW: c_int = -8;

/// Status code: pipe error.
pub const LIBUSB_ERROR_PIPE: c_int = -9;

/// Status code: system call interrupted (perhaps due to signal).
pub const LIBUSB_ERROR_INTERRUPTED: c_int = -10;

/// Status code: insufficient memory.
pub const LIBUSB_ERROR_NO_MEM: c_int = -11;

/// Status code: operation not supported or unimplemented on this platform.
pub const LIBUSB_ERROR_NOT_SUPPORTED: c_int = -12;

/// Status code: other error.
pub const LIBUSB_ERROR_OTHER: c_int = -99;

/// Errors returned by the USB engine.
#[derive(Debug, Clone, Copy, PartialEq, Eq, Structural)]
pub enum Error {
    /// Success (no error).
    Success,
    /// Input/output error.
    Io,
    /// Invalid parameter.
    InvalidParam,
    /// Access denied (insufficient permissions).
    Access,
    /// No such device (it may have been disconnected).
    NoDevice,
    /// Entity not found.
    NotFound,
    /// Resource busy.
    Busy,
    /// Operation timed out.
    Timeout,
    /// Overflow.
    Overflow,
    /// Pipe error.
    Pipe,
    /// System call interrupted (perhaps due to signal).
    Interrupted,
    /// Insufficient memory.
    NoMem,
    /// Operation not supported or unimplemented on this platform.
    NotSupported,
    /// Other error.
    Other,
}

impl Error {
    /// The description of an error, as a sequence of characters.
    pub open spec fn message(self) -> Seq<char> {
        match self {
            Error::Success => "Success"@,
            Error::Io => "Input/Output Error"@,
            Error::InvalidParam => "Invalid parameter"@,
            Error::Access => "Access denied (insufficient permissions)"@,
            Error::NoDevice => "No such device (it may have been disconnected)"@,
            Error::NotFound => "Entity not found"@,
            Error::Busy => "Resource busy"@,
            Error::Timeout => "Operation timed out"@,
            Error::Overflow => "Overflow"@,
            Error::Pipe => "Pipe error"@,
            Error::Interrupted => "System call interrupted (perhaps due to signal)"@,
            Error::NoMem => "Insufficient memory"@,
            Error::NotSupported => "Operation not supported or unimplemented on this platform"@,
            Error::Other => "Other error"@,
        }
    }

    /// Returns a description of an error suitable for display to an end user.
    pub fn strerror(&self) -> (s: &'static str)
        ensures
            s@ == self.message(),
    {
        match *self {
            Error::Success => "Success",
            Error::Io => "Input/Output Error",
            Error::InvalidParam => "Invalid parameter",
            Error::Access => "Access denied (insufficient permissions)",
            Error::NoDevice => "No such device (it may have been disconnected)",
            Error::NotFound => "Entity not found",
            Error::Busy => "Resource busy",
            Error::Timeout => "Operation timed out",
            Error::Overflow => "Overflow",
            Error::Pipe => "Pipe error",
            Error::Interrupted => "System call interrupted (perhaps due to signal)",
            Error::NoMem => "Insufficient memory",
            Error::NotSupported => "Operation not supported or unimplemented on this platform",
            Error::Other => "Other error",
        }
    }
}

/// The error that an engine status code stands for.
pub open spec fn error_of_code(err: int) -> Error {
    if err == 0 {
        Error::Success
    } else if err == -1 {
        Error::Io
    } else if err == -2 {
        Error::InvalidParam
    } else if err == -3 {
        Error::Access
    } else if err == -4 {
        Error::NoDevice
    } else if err == -5 {
        Error::NotFound
    } else if err == -6 {
        Error::Busy
    } else if err == -7 {
        Error::Timeout
    } else if err == -8 {
        Error::Overflow
    } else if err == -9 {
        Error::Pipe
    } else if err == -10 {
        Error::Interrupted
    } else if err == -11 {
        Error::NoMem
    } else if err == -12 {
        Error::NotSupported
    } else {
        Error::Other
    }
}

/// Maps an engine status code to the error it stands for; codes outside the
/// table fold into `Other`.
pub fn from_libusb(err: c_int) -> (e: Error)
    ensures
        e == error_of_code(err as int),
{
    if err == LIBUSB_SUCCESS {
        Error::Success
    } else if err == LIBUSB_ERROR_IO {
        Error::Io
    } else if err == LIBUSB_ERROR_INVALID_PARAM {
        Error::InvalidParam
    } else if err == LIBUSB_ERROR_ACCESS {
        Error::Access
    } else if err == LIBUSB_ERROR_NO_DEVICE {
        Error::NoDevice
    } else if err == LIBUSB_ERROR_NOT_FOUND {
        Error::NotFound
    } else if err == LIBUSB_ERROR_BUSY {
        Error::Busy
    } else if err == LIBUSB_ERROR_TIMEOUT {
        Error::Timeout
    } else if err == LIBUSB_ERROR_OVERFLOW {
        Error::Overflow
    } else if err == LIBUSB_ERROR_PIPE {
        Error::Pipe
    } else if err == LIBUSB_ERROR_INTERRUPTED {
        Error::Interrupted
    } else if err == LIBUSB_ERROR_NO_MEM {
        Error::NoMem
    } else if err == LIBUSB_ERROR_NOT_SUPPORTED {
        Error::NotSupported
    } else {
        Error::Other
    }
}

/// The outcome of an engine call that reports a status code: success for
/// zero, the error the code stands for otherwise.
pub open spec fn engine_result(code: int) -> Result<(), Error> {
    if code == 0 {
        Ok(())
    } else {
        Err(error_of_code(code))
    }
}

/// Turns the status code of an engine call into a result.
pub fn check(code: c_int) -> (r: Result<(), Error>)
    ensures
        r == engine_result(code as int),
{
    if code == LIBUSB_SUCCESS {
        Ok(())
    } else {
        Err(from_libusb(code))
    }
}

} // verus!
