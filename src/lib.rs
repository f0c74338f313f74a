//! Request-driven image transformation: a compact operation string selects
//! a target width, an output format and a quality; the image bytes are
//! decoded, resized with the aspect ratio kept, and re-encoded.
pub mod codec;
pub mod ops;
pub mod pipeline;
pub mod raster;
pub mod router;
