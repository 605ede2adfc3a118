//! Keeping an order book view correct over an unreliable, long-lived stream.
//!
//! The crate holds the decisions of a streaming client and none of its I/O:
//! when to reconnect and how long to wait ([`backoff`], [`session`]), how a
//! payload is turned into text and into structured content ([`decoder`],
//! [`json`]), and how the two feeds are followed ([`l2`] for price levels,
//! [`l4`] for raw orders). A driver performs the network work and hands each
//! event to the state machines found here; they answer with what to show
//! and what to do next.
//!
//! Around that core stand the generic event stream with its keep-alive
//! pulse ([`subscribe`], [`stream_type`], [`pulse`]) and the backfill of
//! blocks from the archive ([`backfill`], [`block_range`]), both on top of
//! a few functions on text ([`text`]).
//!
//! What the outside crates compute is taken on trust and named, never
//! rebuilt: decompression, reading UTF-8 with substitutes, parsing JSON and
//! changing case. Every such item says so in its documentation.

pub mod backfill;
pub mod backoff;
pub mod block_range;
pub mod decoder;
pub mod json;
pub mod l2;
pub mod l4;
pub mod pulse;
pub mod session;
pub mod stream_type;
pub mod subscribe;
pub mod text;
