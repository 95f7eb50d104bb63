//! Painting as a command: the operation that begins a stroke, the command
//! that ends it, and the painting in between.

use vstd::prelude::*;
use crate::buffer::{lemma_applied, no_changes, ImageBuffer};
use crate::canvas::Canvas;
use crate::commands::{painting_begun, painting_stopped, Scene, World};
use crate::pixels::Rgba;
use crate::tools::{blank, blank_bytes, copy_bytes, BrushState, ToolState};

verus! {

/// The operation that begins a stroke in a colour.
pub struct Paint {
    /// The image bytes from before the stroke, or the bytes that an undo put
    /// aside.
    pub buffer: Vec<u8>,
    pub color: Rgba,
}

impl Default for Paint {
    fn default() -> (paint: Paint)
        ensures
            paint.color == (Rgba { r: 255, g: 255, b: 255, a: 255 }),
            paint.buffer@.len() == 0,
    {
        Paint::new(Rgba { r: 255, g: 255, b: 255, a: 255 })
    }
}

impl Paint {
    pub fn new(color: Rgba) -> (paint: Paint)
        ensures
            paint.color == color,
            paint.buffer@.len() == 0,
    {
        Paint { buffer: Vec::new(), color }
    }

    pub fn name(&self) -> (name: &'static str)
        ensures
            name@ == "Paint"@,
    {
        "Paint"
    }

    /// Begins the stroke: the tool paints in the operation's colour, the
    /// image as it is becomes the snapshot, and the preview is blanked.
    pub fn process(&mut self, world: &mut World)
        requires
            old(world).wf(),
        ensures
            final(world).wf(),
            final(world).same_frame(old(world)),
            final(self).color == old(self).color,
            final(self).buffer@ == old(world).image.data@,
            final(world).scene() == painting_begun(
                old(world).scene(),
                old(world).canvas,
                old(self).color,
            ),
    {
        world.state = ToolState::Painting;
        world.brush.color = self.color;
        assert(world.image.data@.len() == world.image.data.len());
        let buffer_size: usize = world.canvas.width as usize * world.canvas.height as usize * 4;
        self.buffer = copy_bytes(&world.image.data);
        world.buffer.image.data = blank_bytes(buffer_size);
    }

    /// Undoes the stroke by exchanging the held bytes with the image's.
    pub fn undo(&mut self, world: &mut World)
        requires
            old(self).buffer@.len() == old(world).image.data@.len(),
        ensures
            final(self).color == old(self).color,
            final(self).buffer@ == old(world).image.data@,
            final(world).image.data@ == old(self).buffer@,
            final(world).image.width == old(world).image.width,
            final(world).image.height == old(world).image.height,
            final(world).same_frame(old(world)),
            final(world).scene() == (Scene { live: old(self).buffer@, ..old(world).scene() }),
            old(world).wf() ==> final(world).wf(),
    {
        std::mem::swap(&mut self.buffer, &mut world.image.data);
    }

    /// Cancels the stroke: the image gets back the held bytes, what the
    /// stroke has painted so far is dropped and the tool goes idle.
    pub fn cancel(&mut self, world: &mut World)
        requires
            old(world).wf(),
            old(self).buffer@.len() == old(world).image.data@.len(),
        ensures
            final(self).color == old(self).color,
            final(self).buffer@ == old(world).image.data@,
            final(world).same_frame(old(world)),
            final(world).wf(),
            final(world).scene() == (Scene {
                live: old(self).buffer@,
                preview: blank(old(world).canvas.width * old(world).canvas.height * 4),
                changed: no_changes(),
                state: ToolState::Idle,
                ..old(world).scene()
            }),
    {
        assert(world.image.data@.len() == world.image.data.len());
        std::mem::swap(&mut self.buffer, &mut world.image.data);
        world.buffer.clear(world.canvas.width, world.canvas.height);
        world.state = ToolState::Idle;
    }

    /// Redoes the stroke by exchanging the held bytes with the image's.
    pub fn redo(&mut self, world: &mut World)
        requires
            old(self).buffer@.len() == old(world).image.data@.len(),
        ensures
            final(self).color == old(self).color,
            final(self).buffer@ == old(world).image.data@,
            final(world).image.data@ == old(self).buffer@,
            final(world).image.width == old(world).image.width,
            final(world).image.height == old(world).image.height,
            final(world).same_frame(old(world)),
            final(world).scene() == (Scene { live: old(self).buffer@, ..old(world).scene() }),
            old(world).wf() ==> final(world).wf(),
    {
        std::mem::swap(&mut self.buffer, &mut world.image.data);
    }
}

/// The command that ends a stroke.
pub struct StopPaint;

impl StopPaint {
    /// Ends the stroke: the tool goes idle, the recorded pixels go into the
    /// image, and the paint buffer is cleared.
    pub fn process(&mut self, world: &mut World)
        requires
            old(world).wf(),
        ensures
            final(world).wf(),
            final(world).same_frame(old(world)),
            final(world).scene() == painting_stopped(old(world).scene(), old(world).canvas),
    {
        world.state = ToolState::Idle;
        let canvas_width = world.canvas.width;
        let canvas_height = world.canvas.height;
        assert(world.image.data@.len() == world.image.data.len());
        world.buffer.apply_to_image(&mut world.image);
        proof {
            lemma_applied(
                old(world).image.data@,
                world.image.data@,
                canvas_width,
                canvas_height,
                old(world).buffer.changed@,
            );
        }
        world.buffer.clear(canvas_width, canvas_height);
    }

    pub fn name(&self) -> (name: &'static str)
        ensures
            name@ == "Stop Paint"@,
    {
        "Stop Paint"
    }
}

/// Paints the pixel under the cursor into the paint buffer, in the brush's
/// colour. Says whether that changed anything; with the cursor outside the
/// canvas nothing happens.
pub fn canvas_paint(brush: &BrushState, canvas: &Canvas, buffer: &mut ImageBuffer) -> (painted: bool)
    requires
        canvas.wf(),
        old(buffer).wf(),
        old(buffer).image.width == canvas.width,
        old(buffer).image.height == canvas.height,
    ensures
        final(buffer).wf(),
        final(buffer).image.width == old(buffer).image.width,
        final(buffer).image.height == old(buffer).image.height,
        match canvas.cursor_position {
            Ok(pos) => {
                &&& painted == (old(buffer).recorded(pos) != Some(brush.color))
                &&& final(buffer).changed@ == old(buffer).changed@.insert(
                    pos,
                    (brush.color.r, brush.color.g, brush.color.b, brush.color.a),
                )
                &&& final(buffer).image.data@ == (if painted {
                    crate::pixels::with_pixel(
                        old(buffer).image.data@,
                        canvas.width,
                        pos,
                        brush.color,
                    )
                } else {
                    old(buffer).image.data@
                })
            },
            Err(_) => {
                &&& !painted
                &&& final(buffer).changed@ == old(buffer).changed@
                &&& final(buffer).image.data@ == old(buffer).image.data@
            },
        },
{
    match canvas.cursor_position {
        Ok(pos) => buffer.paint(pos, brush.color),
        Err(_) => false,
    }
}

} // verus!
