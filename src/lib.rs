//! Integer core of a Mandelbrot renderer: parsing of "A<sep>B" pairs,
//! the intensity byte of an escape time, the row-major traversal that fills
//! a pixel buffer, the partition of an image into row-chunks, and the
//! grayscale PNG framing of a finished buffer.
pub mod parse;
pub mod render;
pub mod partition;
pub mod encode;
