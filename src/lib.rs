//! Still frames and thumbnails from media sources, through one interface
//! that hides whether a source is a single image or a decoded video track.

pub mod pixel;
pub mod frame;
pub mod driver;
pub mod video;
pub mod convert;
