//! The services that the sample schema describes.

pub mod sample;
