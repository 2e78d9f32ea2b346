//! Core of a Wayland status bar: the compositor workspace/output
//! synchronizer.
//!
//! Two compositor backends (a callback-driven client that re-queries global
//! state, and a line-delimited JSON socket protocol folded incrementally)
//! are normalized into one canonical stream of [`model::OutputInfo`]
//! snapshots.  This crate holds the verified logic: the canonical data
//! model, the incremental event fold with duplicate-emission suppression,
//! the full recompute used by the callback backend, the backend selection
//! rule, and the name-keyed fold the consumer applies to the stream.
//! Everything that talks to a compositor (sockets, callback listeners,
//! threads, channels) lives outside, hands this crate plain values, and
//! takes plain values back.

pub mod model;
pub mod niri;
pub mod hypr;
pub mod select;
pub mod output_map;
