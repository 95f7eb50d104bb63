//! Editing core of a raster pixel-art tool: brush strokes, flood fills and an
//! undo/redo history, all acting on one RGBA8 pixel buffer.

pub mod buffer;
pub mod canvas;
pub mod commands;
pub mod frontier;
pub mod history;
pub mod line;
pub mod palette;
pub mod pixels;
pub mod region;
pub mod tools;

pub use history::{undo_redo, History, HistoryItem};
pub use palette::{ColorPalette, ColorState, HEIGHT, WIDTH};
pub use pixels::{
    color_at_img_pos, color_distance, compare_color, image, img_pos_to_index, in_img_bounds,
    index_to_img_pos, Image, Pos, Rgba,
};
pub use tools::ToolState;
