//! The core of a local sync agent for a bookmarking extension.
//!
//! The agent keeps three collections of files in step with a remote account
//! server, and keeps the account password sealed at rest. This library holds
//! what the agent decides and computes; reading and writing files, talking
//! HTTP and framing messages are left to the programs around it.
//!
//! - `vault`: sealing and opening the password.
//! - `config`: the stored settings, and what a sync pass or a connection test
//!   is given from them.
//! - `listing`: sets of file names, and the parser of remote listings.
//! - `collection`, `names`: the collections and their rules on file names.
//! - `remote`: request URLs and the meaning of response statuses.
//! - `reconcile`: which files to fetch and which to push.
//! - `engine`, `sync`: one sync pass as a state machine.
//! - `http`, `native`: the routing of the local HTTP surface and the handling
//!   of native messages.
//! - `error`, `text`: errors and text helpers.

pub mod collection;
pub mod config;
pub mod engine;
pub mod error;
pub mod http;
pub mod listing;
pub mod names;
pub mod native;
pub mod reconcile;
pub mod remote;
pub mod sync;
pub mod text;
pub mod vault;

pub use crate::listing::parse_server_file_listing;
