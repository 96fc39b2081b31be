//! Conversion of DDS cubemap textures into KTX2 containers.

pub mod converter;
pub mod format;
pub mod ktx2;
