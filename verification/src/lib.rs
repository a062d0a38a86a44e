//! A package-dependency manager core for Debian-style catalogs.
//!
//! The catalog records, for every known package, its dependency list, the
//! version on offer, the version installed and the published checksum. On top
//! of it the crate decides whether a dependency is satisfied, computes
//! transitive closures and install plans, and keeps the queue of checksum
//! verifications that a transport layer performs against a remote server.

pub mod async_fns;
pub mod deps_available;
pub mod packages;
pub mod parsers;
pub mod reachability;
pub mod solvers;
pub mod version;

pub use async_fns::{AsyncState, Outcome, PendingVerification, Verdict, VerificationReport};
pub use deps_available::AlternativeStatus;
pub use packages::{Dependency, PackageError, Packages, RelVersionedPackageNum};
pub use solvers::Traversal;
pub use version::{VersionOrder, VersionRelation};
