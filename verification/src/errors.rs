use vstd::prelude::*;

verus! {

/// The failure taxonomy of one tick: a transport problem while reading the
/// sensor or fetching the forecast, a missing or malformed expiry in the
/// forecast response metadata, a malformed forecast payload, or a framebuffer
/// transport failure.
#[derive(Clone, Copy, Debug, PartialEq, Eq, Structural)]
pub enum TickError {
    IoError,
    ProtocolError,
    DecodeError,
    DisplayError,
}

} // verus!
