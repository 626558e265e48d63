//! Rasterisation, bitmap compositing and tick scheduling for an animated
//! cat clock: a body illustration overlaid with a swinging tail, shifting
//! eyes and three clock hands.
//!
//! Every routine works on integers and plain buffers; trigonometry and the
//! display surface belong to the program that drives this library.
//!
//! * [`bitmap`] unpacks bit-packed pictures, [`buffer`] and [`image`] are the
//!   two kinds of picture that can be drawn on, and [`canvas`] lays images
//!   onto the picture that is shown.
//! * [`line`], [`ellipse`] and [`polyline`] draw on any [`surface`];
//!   [`tail`], [`eyes`] and [`hands`] build the moving parts from them.
//! * [`clock`], [`pingpong`] and [`scene`] decide what a tick does.

pub mod bits;
pub mod color;
pub mod grid;
pub mod bitmap;
pub mod surface;
pub mod image;
pub mod buffer;
pub mod canvas;
pub mod line;
pub mod ellipse;
pub mod polyline;
pub mod draw;
pub mod tail;
pub mod eyes;
pub mod hands;
pub mod pingpong;
pub mod clock;
pub mod scene;

pub use crate::bitmap::{bits_to_bytes, decode, pixel_width_to_bits_width, Bitmap};
pub use crate::buffer::Buffer;
pub use crate::canvas::Canvas;
pub use crate::color::from_u8_rgb;
pub use crate::draw::{plot, plot_ellipse, plot_line_with_width};
pub use crate::image::Image;
