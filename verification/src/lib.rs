//! A verified core for a manga chapter-download orchestrator.
//!
//! The library holds the logic of the pipeline — crawling a title's chapter
//! list into normalized, order-preserving slugs, splitting chapters into
//! worker batches, planning the job and sentinel messages of the work queue,
//! the worker's and the completion tracker's state machines, and the
//! aggregation of per-page and per-chapter failures — each with a contract
//! checked by Verus. Network and filesystem work, the broker connection and
//! the terminal surface stay outside, handing the library plain values.

pub mod crawler;
pub mod download;
pub mod errors;
pub mod html;
pub mod jobs;
pub mod models;
pub mod queue;
pub mod summary;
pub mod text;
pub mod tracker;
pub mod worker;
