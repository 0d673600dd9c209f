//! Keeps a fleet of tracked repositories checked out, documents each of
//! their workspaces, and builds the index of where every component's
//! documentation lives.
pub mod keys;
pub mod ordered;
pub mod doc_index;
pub mod identifier;
pub mod rustdoc;
pub mod repo;
pub mod generate_rustdoc;
pub mod submodule_add;
pub mod manage;
