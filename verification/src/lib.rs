//! SysInfo Dashboard: the device report an Android app shows, and the pixel-buffer text
//! renderer that draws it, with their behaviour stated and proved.
//!
//! - `text`: character-sequence primitives (`str::lines`, `split_whitespace`, `trim`,
//!   `parse::<u64>`, decimal printing) specified and implemented on `Vec<char>`.
//! - `units`: exact one-decimal rendering of memory sizes.
//! - `procfs`: parsers for `/proc`, `/sys` and plain HTTP replies.
//! - `sysinfo`, `android_api`: the two editions of the report.
//! - `raster`, `render`: the framebuffer, glyph painting, the frame layout and the copy
//!   into a window buffer.
use vstd::prelude::*;

pub mod raster;
pub mod text;
pub mod render;
pub mod units;
pub mod procfs;
pub mod sysinfo;
pub mod android_api;

verus! {

} // verus!
