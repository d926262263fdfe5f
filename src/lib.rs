//! Core of a small store-and-forward messaging service: a directory of
//! registered users with password hashes, and a log of messages indexed by
//! the second at which they were posted.

use vstd::prelude::*;

pub mod message;
pub mod outside;
pub mod laws;
pub mod state;

pub use message::{AppError, Message, MessageView};
pub use state::{auth, State};
