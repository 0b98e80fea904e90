//! An ASCII drawing board: a character grid, a line-oriented command
//! language, and the rasterizer that paints lines, rectangles and circles.
pub mod canvas;
pub mod command;
pub mod raster;
pub mod session;

pub use canvas::{Canvas, GridError, Point};
pub use command::{ArgError, Command, ParseError};
pub use raster::{draw_circle, draw_line, draw_rect};
pub use session::{Action, Session};
