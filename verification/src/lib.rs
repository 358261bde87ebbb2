//! Cirrus: the verified core of an audio library service.
//!
//! The crate holds the decisions of the service as functions on plain
//! values: materialized paths of audio libraries, the plan that brings the
//! stored library in line with the file system, the bookkeeping of sample
//! frames and packets, the request ranges of the client's sample buffer,
//! and the records stored for libraries, files and tags.

pub mod path;
pub mod dto;
pub mod hash;
pub mod tag;
pub mod listing;
pub mod sync;
pub mod client;
pub mod frames;
pub mod crud;
pub mod service;
pub mod media;
