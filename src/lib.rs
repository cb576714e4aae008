//! Speech-bubble text framing and terminal rendering of images as glyph pairs.
//!
//! The text framer merges runs of blanks, wraps the message, and draws a
//! bubble around the lines; the image renderer brings an image down to at
//! most `MAX_SIDE` pixels a side and draws each pixel as two terminal cells.
//! Every function returns the text it produces; writing it out is left to
//! the caller.

pub mod bubble;
pub mod raster;
pub mod render;
pub mod say;
pub mod strings;
pub mod text;

pub use bubble::{frame_lines, longest_line, max_width};
pub use raster::{fit_for_terminal, target_dimensions, Pixel, Raster, MAX_SIDE};
pub use render::{
    convert_image_to_text, convert_pixels, convert_to_invert, convert_to_monochrome,
    convert_to_truecolor, luminance, push_cell, PixelMode,
};
pub use say::{frame_message, say, say_from_dynamic_image, CONNECTOR, MASCOT};
pub use text::{line_widths, merge_white_spaces, split_lines, wrap_lines, SayError};
