//! The error type of the notation readers.

use vstd::prelude::*;

verus! {

/// Why a piece of steno notation could not be read.
///
/// The readers are lenient: a character that names no key is skipped, and
/// no input is refused. So no reader returns this today; it stands in their
/// signatures, which give a typed result.
#[derive(Clone, Copy, Debug, PartialEq, Eq, Structural)]
pub enum Error {
    /// The text is no steno notation.
    Malformed,
}

} // verus!
