//! The errors of the protocol, and the device handles that transfers go through.
use vstd::prelude::*;

use hidra::HidError;

use crate::verify::VerificationError;

verus! {

/// An error reported by `hidra`, carried through unopened.
#[verifier::external_type_specification]
#[verifier::external_body]
pub struct ExHidError(HidError);

/// Why a read or write cycle failed.
#[derive(Debug)]
pub enum ISPError {
    /// A HID transfer failed.
    HidError(HidError),
    /// The image read back after a write differs from the one written.
    VerificationError(VerificationError),
    /// The bootloader answered a transfer with the wrong transfer kind.
    ReadWriteMismatch,
}

/// Which of the device's HID handles a transfer goes through.
#[derive(Clone, Copy, PartialEq, Eq, Structural, Debug)]
pub enum Target {
    /// The handle that takes command reports.
    Command,
    /// The handle that carries page transfers.
    Transfer,
}

} // verus!
