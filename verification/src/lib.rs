//! Verified core of a toolchain installer that fetches compiler builds,
//! identified by a commit hash, from a CI artifact server and installs them
//! into a local toolchain store.
//!
//! The library holds the logic of the pipeline: validating requested commit
//! hashes, resolving a HEAD commit from strategy outcomes, detecting the
//! release channel of a commit, deriving artifact filenames and URLs,
//! planning the safe extraction of archive entries, planning an installation
//! (including the already-installed, force and dry-run rules), and the
//! keep-going policy of a batch run.  All network and filesystem traffic is
//! performed by a thin unverified shell that feeds plain values into these
//! functions and carries out the actions they return.

pub mod archive;
pub mod batch;
pub mod channel;
pub mod install;
pub mod request;
pub mod resolve;
pub mod text;
