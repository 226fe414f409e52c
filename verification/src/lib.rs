//! Pixel sampling for image resizing, thumbnails and sharpening: the integer
//! core of the filters, with its contracts proved by Verus.
mod component;
pub mod convolve;
pub mod filter;
pub mod image;
pub mod sample;
pub mod thumbnail;
pub mod unsharpen;
pub mod utils;
pub mod window;
