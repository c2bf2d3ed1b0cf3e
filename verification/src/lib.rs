//! Resolution of secret references held in the environment of a configuration,
//! with two smaller helpers of the same editor: the alignment of pipe tables,
//! and the handlers and display names of virtual documents.
//!
//! A configuration names secrets that live in an outside store. This library
//! finds those references, says which command fetches each of them, keeps what
//! the commands returned for the length of a session, and rewrites an
//! environment so that it holds plain values only. It runs no command itself:
//! `resolver::SecretResolver::advance` says which command is due next, and
//! `record` takes what the command gave.

pub mod text;
pub mod error;
pub mod secret;
pub mod provider;
pub mod resolver;
pub mod laws;
pub mod table;
pub mod document;
