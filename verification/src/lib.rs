//! Core of an avatar-preparation pipeline for a messaging bot.
//!
//! The library turns user-supplied media (raster images, rendered vector
//! animations, decoded video clips) into normalized avatar outputs: a still
//! raster image or the frame schedule for a compact square video.  All
//! decision logic, pixel compositing, crop geometry and in-memory I/O
//! bookkeeping is verified; the surrounding process (network client, codec
//! bindings, face detector) lives outside and consumes this crate through
//! plain values.

pub mod color;
pub mod cursor;
pub mod error;
pub mod geometry;
pub mod job;
pub mod pipeline;
pub mod pixels;
pub mod raster;
pub mod still;
