//! Core of a bidirectional metadata bridge between the Mercurial and Git
//! object models: codecs for raw Mercurial changesets and their sidecar
//! metadata records, a patch-based correction scheme, reconstruction of
//! bit-exact changeset bytes from a Git commit plus metadata, an in-memory
//! head set, and the decision logic of the Mercurial HTTP wire protocol.

pub mod authorship;
pub mod bytes;
pub mod changeset;
pub mod extra;
pub mod heads;
pub mod http;
pub mod metadata;
pub mod numbers;
pub mod patch;
pub mod percent;
pub mod prepare;
pub mod reconstruct;
pub mod store;
pub mod oid;
