//! Building and signing envelopes entirely offline.
pub mod builder;
pub mod pq;
pub mod secure_signing;
pub mod threshold;
pub mod xdr;

pub use builder::{add_signature, try_promote, OfflineEnvelopeBuilder, PartiallySignedEnvelope};
pub use secure_signing::{InMemorySigner, KeySigner, TeeSigner};
pub use threshold::{
    ParticipantId, SessionEpoch, SigningRound, ThresholdConfigError, ThresholdParams,
};
pub use xdr::extract_source_account_and_sequence;
