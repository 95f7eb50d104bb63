//! The canvas: its size and where the cursor stands relative to it.

use vstd::prelude::*;
use crate::pixels::{image, in_bounds, in_img_bounds, uniform, Image, Pos, Rgba};

verus! {

/// Where the cursor is: on a pixel of the canvas, or at a position outside it.
#[derive(Clone, Copy, Debug)]
pub enum CursorPosition {
    Inside(Pos),
    Outside(Pos),
}

/// The canvas that the tools edit.
pub struct Canvas {
    pub width: u32,
    pub height: u32,
    /// `Ok` with the pixel under the cursor, or `Err` with a position outside
    /// the canvas.
    pub cursor_position: Result<Pos, Pos>,
}

impl Canvas {
    /// A cursor that is reported as inside is inside.
    pub open spec fn wf(&self) -> bool {
        match self.cursor_position {
            Ok(pos) => in_bounds(pos, self.width, self.height),
            Err(_) => true,
        }
    }

    /// A canvas whose cursor has not entered it yet.
    pub fn new(width: u32, height: u32) -> (canvas: Canvas)
        ensures
            canvas.width == width,
            canvas.height == height,
            canvas.cursor_position == Err::<Pos, Pos>((0i32, 0i32)),
            canvas.wf(),
    {
        Canvas { width, height, cursor_position: Err((0, 0)) }
    }

    /// Width and height in pixels.
    pub fn size(&self) -> (size: (u32, u32))
        ensures
            size == (self.width, self.height),
    {
        (self.width, self.height)
    }

    /// Whether the cursor is on the canvas.
    pub fn cursor_on_canvas(&self) -> (on: bool)
        ensures
            on == self.cursor_position.is_ok(),
    {
        self.cursor_position.is_ok()
    }

    /// Whether `pos` is a pixel of the canvas.
    pub fn in_bounds(&self, pos: Pos) -> (inside: bool)
        ensures
            inside == in_bounds(pos, self.width, self.height),
    {
        in_img_bounds(pos, self.width, self.height)
    }

    /// The cursor position as a variant that says on which side it lies.
    pub fn cursor(&self) -> (cursor: CursorPosition)
        ensures
            cursor == match self.cursor_position {
                Ok(pos) => CursorPosition::Inside(pos),
                Err(pos) => CursorPosition::Outside(pos),
            },
    {
        match self.cursor_position {
            Ok(pos) => CursorPosition::Inside(pos),
            Err(pos) => CursorPosition::Outside(pos),
        }
    }
}

/// Records a cursor position measured in canvas pixels: inside if it names a
/// pixel of the canvas, outside otherwise. Without a measurement the last
/// position stays.
pub fn process_cursor_position(canvas: &mut Canvas, measured: Option<Pos>)
    ensures
        final(canvas).width == old(canvas).width,
        final(canvas).height == old(canvas).height,
        measured.is_some() || old(canvas).wf() ==> final(canvas).wf(),
        final(canvas).cursor_position == match measured {
            Some(pos) => if in_bounds(pos, old(canvas).width, old(canvas).height) {
                Ok::<Pos, Pos>(pos)
            } else {
                Err::<Pos, Pos>(pos)
            },
            None => old(canvas).cursor_position,
        },
{
    if let Some(pos) = measured {
        canvas.cursor_position = if in_img_bounds(pos, canvas.width, canvas.height) {
            Ok(pos)
        } else {
            Err(pos)
        };
    }
}

/// The canvas at startup and the image of its first layer: 128 by 128 pixels,
/// all transparent.
pub fn setup_canvas() -> (made: (Canvas, Image))
    ensures
        made.0.wf(),
        made.0.width == 128,
        made.0.height == 128,
        made.0.cursor_position == Err::<Pos, Pos>((0i32, 0i32)),
        made.1.wf(),
        made.1.width == 128,
        made.1.height == 128,
        made.1.data@ == uniform(128, 128, Rgba { r: 0, g: 0, b: 0, a: 0 }),
{
    let layer = image(128, 128, Rgba { r: 0, g: 0, b: 0, a: 0 });
    (Canvas::new(128, 128), layer)
}

} // verus!
