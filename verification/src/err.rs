//! The errors of the driver.

use vstd::prelude::*;
use vstd::std_specs::convert::FromSpecImpl;

verus! {

/// std's `std::io::Error`, carried through unopened: nothing is known of its
/// contents.
#[verifier::external_type_specification]
#[verifier::external_body]
pub struct ExIoError(std::io::Error);

/// std's `std::io::Error::from`, applied to `ErrorKind::UnexpectedEof`: the
/// error that std's own readers give when a stream ends early. Nothing is
/// claimed of the value.
#[verifier::external_body]
pub(crate) fn unexpected_eof() -> std::io::Error {
    std::io::Error::from(std::io::ErrorKind::UnexpectedEof)
}

/// Why a read was refused before any byte went to the wire.
#[derive(Debug)]
pub enum RangeError {
    /// More bytes were asked for than one page holds.
    PageBound { len: usize },
    /// The read would end beyond the last flash address.
    FlashBound,
}

/// Everything that can end an operation early.
#[derive(Debug)]
pub enum Error {
    /// A sector index does not fit in the one byte the wire has for it.
    FromInt(core::num::TryFromIntError),
    /// The stream failed to take or to deliver bytes.
    Io(std::io::Error),
    /// The version reply did not start with the expected header byte.
    Protocol { header: u8 },
    /// The board reported a non-zero status, with the place of the mismatch in
    /// the page and the two bytes that differ.
    Device { status: u8, offset: u8, expected: u8, actual: u8 },
    /// A read was asked for that the flash cannot serve.
    Range(RangeError),
}

/// There is one success that carries nothing.
pub proof fn lemma_ok_is_unit(r: Result<(), Error>)
    requires
        r is Ok,
    ensures
        r == Ok::<(), Error>(()),
{
    lemma_unit_is_one(r->Ok_0, ());
}

/// There is one value that holds nothing.
proof fn lemma_unit_is_one(a: (), b: ())
    ensures
        a == b,
{
}

impl From<std::io::Error> for Error {
    fn from(value: std::io::Error) -> (e: Self) {
        Error::Io(value)
    }
}

impl FromSpecImpl<std::io::Error> for Error {
    open spec fn obeys_from_spec() -> bool {
        true
    }

    open spec fn from_spec(value: std::io::Error) -> Self {
        Error::Io(value)
    }
}

impl From<core::num::TryFromIntError> for Error {
    fn from(value: core::num::TryFromIntError) -> (e: Self) {
        Error::FromInt(value)
    }
}

impl FromSpecImpl<core::num::TryFromIntError> for Error {
    open spec fn obeys_from_spec() -> bool {
        true
    }

    open spec fn from_spec(value: core::num::TryFromIntError) -> Self {
        Error::FromInt(value)
    }
}

} // verus!
