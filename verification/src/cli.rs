//! The command line as plain values, and the settings that follow from it.

use crate::transport::MAX_BLOCK_SIZE;
use vstd::prelude::*;

verus! {

/// The port on which the receiver awaits the handshake.
pub const HANDSHAKE_PORT: u16 = 7878;

/// The port on which the sender serves the blocks.
pub const TRANSFER_PORT: u16 = 7879;

/// The block size used where none is asked for, 1 MiB.
pub const DEFAULT_BLOCK_SIZE: u32 = 1024 * 1024;

/// The largest number of connections that a receiver opens.
pub const MAX_CONCURRENCY: u16 = 16;

/// The command line.
#[derive(Debug, Clone, PartialEq, Eq)]
pub struct Cli {
    pub command: Commands,
}

/// What the program is asked to do.
#[derive(Debug, Clone, PartialEq, Eq)]
pub enum Commands {
    /// Send a file to a receiver.
    Send(SendArgs),
    /// Receive a file and write it to a path.
    Receive(ReceiveArgs),
}

/// The arguments of `send`.
#[derive(Debug, Clone, PartialEq, Eq)]
pub struct SendArgs {
    /// Path to the file to send.
    pub file: String,
    /// Receiver host or IP.
    pub host: String,
    /// Block size in bytes.
    pub block_size: Option<u32>,
    /// Number of concurrent connections.
    pub concurrency: Option<u16>,
    /// Whether blocks are never compressed.
    pub no_compress: bool,
}

/// The arguments of `receive`.
#[derive(Debug, Clone, PartialEq, Eq)]
pub struct ReceiveArgs {
    /// Output path: a directory to place the file in, or the path to write.
    pub file: String,
    /// Number of concurrent connections.
    pub concurrency: Option<u16>,
}

/// The block size of a transfer: the one asked for, or 1 MiB where none is,
/// and at most 4 MiB.
pub open spec fn block_size_for(requested: Option<u32>) -> u32 {
    let wanted = match requested {
        Some(size) => size,
        None => DEFAULT_BLOCK_SIZE,
    };
    if wanted <= MAX_BLOCK_SIZE {
        wanted
    } else {
        MAX_BLOCK_SIZE
    }
}

/// The number of connections of a receiver on a machine that runs
/// `available` threads at once: the number asked for, or as many as
/// allowed where none is, and at most `available` and at most 16.
pub open spec fn concurrency_for(requested: Option<u16>, available: nat) -> u16 {
    let allowed = if available <= MAX_CONCURRENCY {
        available as u16
    } else {
        MAX_CONCURRENCY
    };
    match requested {
        Some(wanted) => if wanted <= allowed {
            wanted
        } else {
            allowed
        },
        None => allowed,
    }
}

impl SendArgs {
    /// The block size to send with.
    pub fn effective_block_size(&self) -> (size: u32)
        ensures
            size == block_size_for(self.block_size),
            size <= MAX_BLOCK_SIZE,
    {
        let wanted = match self.block_size {
            Some(size) => size,
            None => DEFAULT_BLOCK_SIZE,
        };
        if wanted <= MAX_BLOCK_SIZE {
            wanted
        } else {
            MAX_BLOCK_SIZE
        }
    }
}

/// The number of connections to receive over, given the number asked for
/// and the number of threads that the machine runs at once.
pub fn get_concurrency(requested: Option<u16>, available: usize) -> (effective: u16)
    ensures
        effective == concurrency_for(requested, available as nat),
        effective <= MAX_CONCURRENCY,
        effective <= available,
{
    let allowed: u16 = if available <= MAX_CONCURRENCY as usize {
        available as u16
    } else {
        MAX_CONCURRENCY
    };
    match requested {
        Some(wanted) => if wanted <= allowed {
            wanted
        } else {
            allowed
        },
        None => allowed,
    }
}

} // verus!
