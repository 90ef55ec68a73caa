//! Media protection pipeline: derives preview keys for uploaded originals,
//! lays out and composites a visible watermark on images, builds the overlay
//! filter graph and encoder invocation for videos, and decides each asset's
//! processing outcome.

pub mod keys;
pub mod layout;
pub mod pipeline;
pub mod preview;
pub mod raster;
pub mod settings;
pub mod tenants;
pub mod video;
