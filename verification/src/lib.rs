//! Client-side transport layer for an RPC protocol carried over a character
//! device. The peer exchanges NUL-delimited JSON messages under a hard size
//! bound; this crate provides the framing discipline, the wire grammar for
//! calls and replies, and the error taxonomy, all with verified contracts.
//! The device I/O itself lives outside the verified core.
//!
//! - [`error`]: the failure vocabulary every component shares.
//! - [`envelope`]: frames of the form `0x00 <json> 0x00`, bounded by
//!   [`MAX_MESSAGE_SIZE`], and their reassembly from partial reads.
//! - [`call`] and [`wire`]: the three call kinds and their exact wire
//!   texts, with a proved encode/decode round trip.
//! - [`response`]: replies, the result/error split, and the void-return
//!   discipline.
//! - [`payload`] and [`types`]: the device and method catalogs.
//! - [`id`], [`jsonstr`], [`scan`], [`num`]: identifiers, JSON string
//!   escaping, the value scanner, and typed return values.

use vstd::prelude::*;

pub mod call;
pub mod envelope;
pub mod error;
pub mod id;
pub mod jsonstr;
pub mod num;
pub mod payload;
pub mod response;
pub mod scan;
pub mod types;
pub mod wire;

verus! {

/// The maximum size of one framed message in bytes, in either direction,
/// including both NUL framing bytes.
pub const MAX_MESSAGE_SIZE: usize = 4096;

} // verus!
