//! Photo grid sheet composition: paper geometry, grid layout, pagination,
//! raster composition of print sheets and a minimal PDF writer.

pub mod paper;
pub mod layout;
pub mod queue;
pub mod canvas;
pub mod imaging;
pub mod grid;
pub mod pdf;
pub mod theme;
pub mod clock;
pub mod config;
pub mod files;
pub mod session;
