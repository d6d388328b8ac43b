//! Batch extraction of shipment tracking numbers from scanned label images.
//!
//! The crate decodes each image, runs it through an optical text
//! recognition engine, and scans the recognized lines for a 14-digit
//! tracking number that follows a fixed label keyword. A batch of images
//! is fanned out over a worker pool and aggregated into one result that
//! places every input identifier in exactly one of two lists: successes
//! (with the extracted number) and failures.

pub mod batch;
pub mod geometry;
pub mod parse;
pub mod text;
pub mod util;
