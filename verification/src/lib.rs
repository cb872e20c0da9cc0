//! Forward-error-corrected broadcast framing for a lossy one-way radio link.
//!
//! The transmit side groups datagrams into erasure-coded blocks and frames every
//! coded packet; the receive side filters foreign traffic, rebuilds blocks from
//! whatever symbols arrive and hands back the datagrams they carried.
//!
//! - `magic_header`: the header in front of every radio packet.
//! - `fec`: the parameters of a coded block and how they travel.
//! - `directory`: the trailer that cuts a block back into datagrams.
//! - `block_id`: the wrapping block identifier and its window.
//! - `codec`: what is taken on trust from the erasure code.
//! - `tx_fec`, `rx_fec`: the block encoder and the block decoder.
//! - `tx`, `rx`: the two ends of a link.
//! - `link`, `recovery`: what holds between the two ends.
//! - `args`: reading bandwidths and durations.
//! - `bytes`: byte-string helpers.

pub mod args;
pub mod block_id;
pub mod bytes;
pub mod codec;
pub mod directory;
pub mod fec;
pub mod link;
pub mod magic_header;
pub mod recovery;
pub mod rx;
pub mod rx_fec;
pub mod tx;
pub mod tx_fec;

pub use crate::rx::Receiver;
pub use crate::tx::Transmitter;
