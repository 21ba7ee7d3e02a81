//! Bidirectional note-vault synchronisation core: content identity,
//! echo suppression, reconciliation and the remote table reducers.
pub mod client;
pub mod digest;
pub mod folder;
pub mod frontmatter;
pub mod note;
pub mod reconcile;
pub mod sanitize;
pub mod scanner;
pub mod store;
pub mod text;
pub mod tools;
pub mod tracker;
pub mod watcher;
pub mod writer;
