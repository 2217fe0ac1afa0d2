//! Text layout and glyph rendering core.
//!
//! All geometry is carried in integer subunits of 1/64 pixel, so that the
//! layout arithmetic is exact and machine-checkable. Font metrics enter the
//! engine as plain integer tables; rasterised bitmaps are grayscale byte
//! rows. The crate contains the line-breaking layout engine, a size-bounded
//! CPU glyph cache, a multi-page glyph atlas with per-batch protection, and
//! the CPU and GPU renderers that walk a finished layout.
//!
//! Graphics-API binding is deliberately left to platform adapters outside
//! this crate: the GPU renderer only emits upload, instance and standalone
//! records, and never touches a device.

pub mod atlas;
pub mod config;
pub mod context;
pub mod cpu;
pub mod font_store;
pub mod fragment;
pub mod glyph;
pub mod gpu;
pub mod laws;
pub mod layout;
pub mod model;
pub mod raster;
