//! Capture pipeline for a live MJPEG stream, and what a face authentication
//! program needs around it.
//!
//! The stream reader feeds network bytes into an accumulator, cuts complete
//! JPEG images out of it and decodes them into frames. The newest frame is
//! kept in a single-slot cache. The display shows what the cache holds, and
//! the sampler collects a fixed number of frames from it, shuts the other two
//! loops down, and leads one batched embedding call to one aggregated result.
//!
//! Each loop is split in two. What it decides is a function of this library,
//! from what was observed to what is done next. What it waits for (the
//! network, the render surface, the clock, a lock) belongs to the caller.

pub mod cache;
pub mod command;
pub mod config;
pub mod display;
pub mod extractor;
pub mod frame;
pub mod image_utils;
pub mod pipeline;
pub mod sampler;
pub mod storage;
pub mod stream;
