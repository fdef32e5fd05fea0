//! Attestation-based escrow arbitration: an oracle engine that filters
//! ledger attestations, drives a caller-supplied decision function one
//! attestation at a time, and records an ordered log of decisions, together
//! with the byte-level codecs for the obligation and demand payloads that
//! ride inside attestation data.
//!
//! The engine itself is a state machine (`oracle::ArbitrationSession`); the
//! surrounding I/O (ledger queries, transaction submission, callback
//! scheduling) stays outside the library and feeds the machine plain events.

pub mod abi;
pub mod demand;
pub mod erc1155;
pub mod erc20;
pub mod erc721;
pub mod hexstr;
pub mod oracle;
pub mod string_obligation;
pub mod uint256;

use vstd::prelude::*;

verus! {

/// How the codecs fail.
#[derive(Clone, Copy, PartialEq, Eq, Structural, Debug)]
pub enum CodecError {
    /// An address, identifier or document handed in for encoding is not
    /// well-formed; nothing was encoded.
    MalformedInput,
    /// The byte payload is not a canonical encoding of the expected shape.
    Decode,
}

} // verus!
