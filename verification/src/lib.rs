//! Palette quantization: reduce an image to a fixed set of palette colors by
//! mapping every pixel to its nearest palette entry under a chosen color
//! metric (squared distance in RGB space, or in CIE Lab space).

pub mod color;
pub mod lab_space;
pub mod palette;
pub mod quantizer;

pub use color::Color;
pub use lab_space::LabColor;
pub use palette::Palette;
pub use quantizer::{MemoryImage, Metric, QuantizeError};
