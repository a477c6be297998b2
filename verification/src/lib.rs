//! A local-first issue store whose records live in a local store on
//! each clone of a repository and are synchronized through version-control
//! history: issues are exported as a canonical line-delimited JSON log,
//! reconciled by a record-aware three-way merge engine, and re-imported
//! after each sync cycle.

pub mod codec;
pub mod gitcmd;
pub mod hashing;
pub mod ident;
pub mod json;
pub mod merge;
pub mod model;
pub mod num;
pub mod snapshot;
pub mod store;
pub mod sync;
pub mod text;

pub use gitcmd::Git;
pub use model::{Comment, Dependency, Issue};
pub use store::Store;
