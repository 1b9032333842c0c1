//! Command logic of `zkfs`, a shell-like client for a hierarchical
//! coordination store: what each verb asks of the store, what it prints,
//! and how a whole subtree is removed one node at a time.
//!
//! Nothing here talks to the store. A command names its next request as a
//! [`store::Request`], the program around the library sends it, and the
//! command takes the answer as a plain value. Commands of one request are
//! pairs of functions in [`commands`]; the detailed listing and the removal
//! of a subtree, which go on for as long as the tree is large, are the state
//! machines [`listing::DirListing`] and [`walker::Walker`].
//!
//! Every function carries its contract, and what holds of whole runs is
//! proved beside them: in force mode a removal never fails, without force it
//! stops at the first failure with the failed node and all its ancestors
//! still in place, no node is listed or deleted twice, siblings go in the
//! store's order and the root last, and no child's failure shortens a
//! listing.

pub mod numeral;
pub mod path;
pub mod store;
pub mod error;
pub mod node_type;
pub mod data;
pub mod report;
pub mod walker;
pub mod removal;
pub mod commands;
pub mod listing;
