//! Verified core of a driver for the 128x40 monochrome OLED of SteelSeries Apex keyboards:
//! the frame format, page layouts, the parsers for /proc and the compositor, and the
//! decisions of the render loop.
mod frame_bits;
pub mod frame;
pub mod draw;
pub mod text;
pub mod stats;
pub mod weather;
pub mod pages;
pub mod control;
pub mod cava;
pub mod idle;
