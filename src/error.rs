//! Every way an exchange with the kernel can fail.

use vstd::prelude::*;

use crate::frame::ErrorReply;

verus! {

/// The outcome of a failed encode, decode or exchange.
#[derive(Debug, Clone)]
pub enum NlError {
    /// The underlying channel failed to send or receive.
    Transport,
    /// No frame arrived in the allotted time.
    Timeout,
    /// The controller does not know the requested family.
    FamilyNotFound,
    /// Fewer bytes than the fixed header size.
    ShortHeader,
    /// The header's declared length differs from the buffer's size.
    LengthMismatch,
    /// An error frame too short to hold its error code.
    ShortErrorBody,
    /// An attribute that declares more bytes than remain.
    TruncatedAttribute,
    /// An attribute whose declared length is below the attribute header size.
    MalformedAttribute,
    /// A string attribute that is not valid UTF-8.
    InvalidString,
    /// An attribute value or a message too large for its length field.
    Encoding,
    /// A command or attribute id outside the family's enumeration.
    UnknownVariant,
    /// A reply that lacks an attribute the exchange needs.
    MissingAttribute,
    /// A dump terminator where a single reply was expected.
    UnexpectedDone,
    /// The kernel rejected the request.
    Reply(ErrorReply),
}

} // verus!
