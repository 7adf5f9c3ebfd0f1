//! The history of a repository: which commits lie in a range of time, and what they did to
//! the lines of each file.
//!
//! The library computes; reading the repository is left to its callers. What they read is
//! handed in as plain data. An operation that reads as it goes is a task: it says what it needs
//! next and takes the answer. The clock is read only for the end of a range that is counted back
//! from now.

pub mod blob;
pub mod change;
pub mod collect;
pub mod commit;
pub mod duration;
pub mod error;
pub mod history;
pub mod id_set;
pub mod oid;
pub mod outcomes;
pub mod promises;
pub mod range;
pub mod repo;
pub mod runs;
pub mod stats;
pub mod text;
pub mod timestamp;
pub mod walk;

pub use change::{Change, FileStats};
pub use collect::{CollectRequest, CollectTask};
pub use commit::{CommitInfo, CommitMeta};
pub use error::GmapError;
pub use oid::ObjectId;
pub use range::{Bound, DateRange, RevisionLookup};
pub use repo::GitRepo;
pub use stats::{CommitStats, DiffFailure, StatsRequest, StatsTask};
pub use timestamp::Timestamp;
pub use walk::ListTask;
