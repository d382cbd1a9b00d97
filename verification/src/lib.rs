//! Non-interactive Sigma-protocol transforms: Fiat-Shamir and Fischlin.
//!
//! The crate provides the protocol-engine layer shared by both transforms:
//! a random-oracle abstraction, an obligation-tracked transcript, the
//! Fiat-Shamir challenge-derivation runtime, the Fischlin state machine
//! with its bounded predicate search, and canonical byte formats for the
//! resulting proofs.

pub mod bytes;
pub mod codec;
pub mod errors;
pub mod fischlin;
pub mod fischlin_proof;
pub mod frame;
pub mod fs_proof;
pub mod fs_runtime;
pub mod recording;
pub mod replay;
pub mod runtime;
pub mod toy_sigma;
pub mod transcript;

pub use errors::ProveError;
pub use errors::ProveResult;
pub use fischlin::FischlinOracle;
pub use fischlin::FischlinParams;
pub use fischlin::search_with_retry;
pub use fischlin_proof::verify_fischlin;
pub use fischlin_proof::FischlinProof;
pub use frame::decode_frame;
pub use frame::encode_frame;
pub use fs_proof::verify_fs;
pub use fs_proof::FsProof;
pub use fs_runtime::FSOracle;
pub use recording::RecEvent;
pub use recording::RecordingHashOracle;
pub use runtime::trunc_b_to_u64;
pub use runtime::RandomOracle;
pub use runtime::StdRandomOracle;
pub use runtime::TranscriptRuntime;
pub use transcript::start_round;
pub use transcript::Absorb;
pub use transcript::Bindable;
pub use transcript::CanonicalDecode;
pub use transcript::CanonicalEncode;
pub use transcript::Challenge;
pub use transcript::Direction;
pub use transcript::HashOracle;
pub use transcript::Message;
pub use transcript::Oracle;
pub use transcript::Transcript;
pub use transcript::U64Challenge;
