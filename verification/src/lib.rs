//! Planning and bookkeeping for bulk file transfers that are split across
//! worker threads and moved chunk by chunk.
//!
//! A run divides a file among its workers ([`shard`]), sets up one
//! [`transfer::Transfer`] per worker under the chosen [`strategy::Strategy`],
//! and lets each worker make the calls that its transfer asks for. Under the
//! vectored strategy the transfer finds out where a call that fell short has
//! stopped and asks for what completes it ([`vec_io`]). What the calls do to
//! the bytes, and that a transfer which has run to its end has moved exactly
//! its range, is stated in [`content`]. The run ends as its first failed
//! worker did ([`outcome`]).
//!
//! The library opens no file and starts no thread: it says what is to be
//! done, and is told what came of it.
pub mod buffer;
pub mod content;
pub mod error;
pub mod outcome;
pub mod segment;
pub mod shard;
pub mod strategy;
pub mod transfer;
pub mod utility;
pub mod vec_io;

pub use crate::error::TransferError;
pub use crate::outcome::WorkerOutcome;
pub use crate::segment::IoVec;
pub use crate::shard::Shard;
pub use crate::strategy::Strategy;
pub use crate::transfer::{Action, Transfer};
pub use crate::utility::{Movable, MovableMut};
