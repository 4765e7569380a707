//! Geometry of pixel buffers: plane counts, strides and buffer sizes for packed RGB and
//! planar YUV pixel formats, with every function's contract proved.

pub mod geometry;
pub mod pixel_format;

pub use geometry::{are_planes_compatible, get_buffers_size, is_compatible};
pub use pixel_format::{
    PixelFormat, DEFAULT_STRIDES, MAX_NUMBER_OF_PLANES, NUMBER_OF_PIXEL_FORMATS, STRIDE_AUTO,
};
