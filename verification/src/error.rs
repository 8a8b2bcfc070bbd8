//! The error taxonomy shared by every component of the namespace core.
//!
//! Each variant renders to a fixed display template; downstream consumers
//! match on the exact text, so the wording of every template is part of the
//! compatibility contract and must not change.

use vstd::prelude::*;

verus! {

use crate::ids::BlockId;
use crate::numfmt::dec_digits;
use crate::numfmt::hex_digits_upper;
use crate::numfmt::u32_hex_upper;
use crate::numfmt::u64_dec_string;
use vstd::string::StringExecFns;

/// The standard I/O error type, carried through unchanged by the `Io`
/// variant.
#[verifier::external_type_specification]
#[verifier::external_body]
pub struct ExIoError(std::io::Error);

/// A failure anywhere in the storage core or the layers above it. The set
/// is open to future additions, but the fields and display templates of the
/// existing variants are a stable compatibility surface.
#[derive(Debug)]
#[non_exhaustive]
pub enum HdfsError {
    /// A wrapped low-level I/O failure.
    Io(std::io::Error),
    /// A configuration value failed validation.
    Config { key: &'static str, msg: String },
    /// A path was rejected by the normalizer; `path` carries the original,
    /// unmodified input.
    InvalidPath { path: String, reason: &'static str },
    /// A namespace entry already exists.
    AlreadyExists { path: String },
    /// A namespace entry was not found.
    NotFound { path: String },
    /// An operation hit an illegal namespace or lease state.
    State { what: &'static str, details: String },
    /// A malformed or unexpected wire-protocol message.
    Protocol { op: &'static str, details: String },
    /// A block chunk failed checksum verification.
    ChecksumMismatch { block: BlockId, chunk_index: u64, expected: u32, got: u32 },
    /// An operation ran out of time.
    Timeout { op: &'static str, during: &'static str },
}

/// The exact display text of an error, for every variant but `Io`, whose
/// wrapped failure has no specified text.
pub open spec fn display_text(e: HdfsError) -> Seq<char>
    recommends
        !(e is Io),
{
    match e {
        HdfsError::Io(_) => Seq::empty(),
        HdfsError::Config { key, msg } => "config error ("@ + key@ + "): "@ + msg@,
        HdfsError::InvalidPath { path, reason } => "invalid path '"@ + path@ + "': "@ + reason@,
        HdfsError::AlreadyExists { path } => "already exists: "@ + path@,
        HdfsError::NotFound { path } => "not found: "@ + path@,
        HdfsError::State { what, details } => "state error ("@ + what@ + "): "@ + details@,
        HdfsError::Protocol { op, details } => "protocol error ("@ + op@ + "): "@ + details@,
        HdfsError::ChecksumMismatch { block, chunk_index, expected, got } => "checksum mismatch (blk_"@
            + dec_digits(block.0 as nat) + ", chunk "@ + dec_digits(chunk_index as nat)
            + "): expected 0x"@ + hex_digits_upper(expected as nat, 8) + ", got 0x"@
            + hex_digits_upper(got as nat, 8),
        HdfsError::Timeout { op, during } => "timeout during "@ + op@ + ": "@ + during@,
    }
}

impl HdfsError {
    /// The display form of the error: its variant's fixed template with the
    /// field values interpolated verbatim. The `Io` variant renders as
    /// `io: ` followed by the wrapped failure's own text.
    pub fn to_display_string(&self) -> (r: String)
        ensures
            !(self is Io) ==> r@ == display_text(*self),
            self is Io ==> r@.len() >= 4 && r@.subrange(0, 4) == "io: "@,
    {
        match self {
            HdfsError::Io(inner) => {
                let mut s = String::from_str("io: ");
                s.append(inner.to_string().as_str());
                proof {
                    reveal_strlit("io: ");
                    assert(s@.subrange(0, 4) =~= "io: "@);
                }
                s
            },
            HdfsError::Config { key, msg } => {
                let mut s = String::from_str("config error (");
                s.append(key);
                s.append("): ");
                s.append(msg.as_str());
                s
            },
            HdfsError::InvalidPath { path, reason } => {
                let mut s = String::from_str("invalid path '");
                s.append(path.as_str());
                s.append("': ");
                s.append(reason);
                s
            },
            HdfsError::AlreadyExists { path } => {
                let mut s = String::from_str("already exists: ");
                s.append(path.as_str());
                s
            },
            HdfsError::NotFound { path } => {
                let mut s = String::from_str("not found: ");
                s.append(path.as_str());
                s
            },
            HdfsError::State { what, details } => {
                let mut s = String::from_str("state error (");
                s.append(what);
                s.append("): ");
                s.append(details.as_str());
                s
            },
            HdfsError::Protocol { op, details } => {
                let mut s = String::from_str("protocol error (");
                s.append(op);
                s.append("): ");
                s.append(details.as_str());
                s
            },
            HdfsError::ChecksumMismatch { block, chunk_index, expected, got } => {
                let mut s = String::from_str("checksum mismatch (blk_");
                s.append(u64_dec_string(block.0).as_str());
                s.append(", chunk ");
                s.append(u64_dec_string(*chunk_index).as_str());
                s.append("): expected 0x");
                s.append(u32_hex_upper(*expected, 8).as_str());
                s.append(", got 0x");
                s.append(u32_hex_upper(*got, 8).as_str());
                s
            },
            HdfsError::Timeout { op, during } => {
                let mut s = String::from_str("timeout during ");
                s.append(op);
                s.append(": ");
                s.append(during);
                s
            },
        }
    }
}

impl From<std::io::Error> for HdfsError {
    fn from(e: std::io::Error) -> (r: Self) {
        HdfsError::Io(e)
    }
}

impl vstd::std_specs::convert::FromSpecImpl<std::io::Error> for HdfsError {
    open spec fn obeys_from_spec() -> bool {
        true
    }

    open spec fn from_spec(v: std::io::Error) -> Self {
        HdfsError::Io(v)
    }
}

} // verus!
