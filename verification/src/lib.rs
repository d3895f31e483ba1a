//! A codec for classic (pre-POSIX, old-style) tar header blocks.
//!
//! The core is the header field codec: it maps a fixed 512-byte block to and
//! from a typed [`Header`] record, covering octal-number fields, NUL- and
//! space-terminated string fields, and the block checksum.  Around it stand
//! small resumable stream primitives: state machines that track the progress
//! of an exact read or write so a transient interruption never loses already
//! transferred bytes, and a block-alignment helper for payload padding.

use vstd::prelude::*;

pub mod codec;
pub mod header;
pub mod helpers;
pub mod laws;
pub mod raw;
pub mod stream;

pub use crate::header::Header;
pub use crate::helpers::U64Ext;

verus! {

/// An error of the tar header codec.
#[derive(Debug, PartialEq, Eq, Copy, Clone)]
pub enum BasicTarError {
    /// An API misuse occurred: a value cannot fit the field it was handed to.
    ApiMisuse(&'static str),
    /// The tar header contains invalid data.
    InvalidData(&'static str),
    /// A header field might be well-formed but holds an unsupported value.
    Unsupported(&'static str),
    /// An empty (all-zero) header block, which marks the end of an archive.
    EmptyHeader,
}

/// The category of a [`BasicTarError`], with the message text left aside.
/// Contracts pin every error down to its kind.
#[derive(Debug, PartialEq, Eq, Copy, Clone)]
pub enum ErrKind {
    ApiMisuse,
    InvalidData,
    Unsupported,
    EmptyHeader,
}

/// The kind of an error value.
pub open spec fn err_kind(e: BasicTarError) -> ErrKind {
    match e {
        BasicTarError::ApiMisuse(_) => ErrKind::ApiMisuse,
        BasicTarError::InvalidData(_) => ErrKind::InvalidData,
        BasicTarError::Unsupported(_) => ErrKind::Unsupported,
        BasicTarError::EmptyHeader => ErrKind::EmptyHeader,
    }
}

} // verus!
