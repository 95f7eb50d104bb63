//! The brush: strokes drawn pixel by pixel or as straight lines.
//!
//! A stroke is recorded in a scratch buffer of the image's size and laid over
//! a snapshot of the image as it was when the stroke began.

use vstd::prelude::*;
use crate::canvas::Canvas;
use crate::history::{added, EditKind, Entry, History, HistoryItem};
use crate::line::{
    lemma_trace_between, lemma_trace_ends, lemma_track_pixel, lemma_track_step, line, lower,
    on_track, precedes, span, steps, steps_x, steps_y, toward, trace, trace_pixel, track_error,
    upper,
};
use crate::pixels::{
    fits, in_bounds, lemma_stamp_push, markable, put_pixel, stamp, try_put_pixel, with_pixel,
    Image, Pos, Rgba,
};
use crate::tools::{blank, blank_bytes, composite, composite_buffers, copy_bytes, mark_of};

verus! {

/// How a stroke follows the cursor.
#[derive(Clone, Copy, Debug, PartialEq, Eq, Structural)]
pub enum BrushMode {
    /// Every position of the cursor is joined to the one before it.
    Pixel,
    /// One straight line runs from where the stroke began to the cursor.
    Line,
}

impl Default for BrushMode {
    fn default() -> (mode: BrushMode)
        ensures
            mode == BrushMode::Pixel,
    {
        BrushMode::Pixel
    }
}

/// How a stroke combines with the image below it.
#[derive(Clone, Copy, Debug, PartialEq, Eq, Structural)]
pub enum BlendMode {
    Replace,
    Blend,
    Glaze,
}

impl Default for BlendMode {
    fn default() -> (mode: BlendMode)
        ensures
            mode == BlendMode::Replace,
    {
        BlendMode::Replace
    }
}

/// The state of the brush.
pub struct BrushState {
    /// The scratch buffer that records the current stroke.
    pub buffer: Vec<u8>,
    /// The image as it was when the stroke began.
    pub data: Option<Vec<u8>>,
    /// The draw colour. A transparent colour erases.
    pub color: Rgba,
    /// Where the stroke began.
    pub start_position: Option<Pos>,
    /// The last pixel that the cursor visited.
    pub last_position: Option<Pos>,
    pub mode: BrushMode,
    /// Set while the scratch buffer is known to hold no mark.
    pub is_cleared: bool,
}

impl Default for BrushState {
    fn default() -> (brush: BrushState)
        ensures
            brush.buffer@.len() == 0,
            brush.data.is_none(),
            brush.color == (Rgba { r: 255, g: 255, b: 255, a: 255 }),
            brush.start_position.is_none(),
            brush.last_position.is_none(),
            brush.mode == BrushMode::Pixel,
            !brush.is_cleared,
    {
        BrushState {
            buffer: Vec::new(),
            data: None,
            color: Rgba { r: 255, g: 255, b: 255, a: 255 },
            start_position: None,
            last_position: None,
            mode: BrushMode::Pixel,
            is_cleared: false,
        }
    }
}

impl BrushState {
    /// The snapshot as a sequence of bytes, if there is one.
    pub open spec fn snapshot(&self) -> Option<Seq<u8>> {
        match self.data {
            Some(data) => Some(data@),
            None => None,
        }
    }

    /// The brush differs from `other` in its scratch buffer and cleared flag at most.
    pub open spec fn same_stroke(&self, other: &BrushState) -> bool {
        &&& self.snapshot() == other.snapshot()
        &&& self.color == other.color
        &&& self.start_position == other.start_position
        &&& self.last_position == other.last_position
        &&& self.mode == other.mode
    }

    /// A cleared scratch buffer is a blank one of the canvas's size.
    pub open spec fn wf(&self, width: u32, height: u32) -> bool {
        self.is_cleared ==> self.buffer@ == blank(width * height * 4)
    }

    /// Whether the brush erases: its colour is fully transparent.
    pub fn is_eraser(&self) -> (erasing: bool)
        ensures
            erasing == (self.color.a == 0),
    {
        self.color.a == 0
    }

    pub fn is_line_mode(&self) -> (yes: bool)
        ensures
            yes == (self.mode == BrushMode::Line),
    {
        match self.mode {
            BrushMode::Pixel => false,
            BrushMode::Line => true,
        }
    }

    pub fn is_pixel_mode(&self) -> (yes: bool)
        ensures
            yes == (self.mode == BrushMode::Pixel),
    {
        match self.mode {
            BrushMode::Pixel => true,
            BrushMode::Line => false,
        }
    }

    /// The colour that the stroke records at a pixel it covers.
    pub fn mark(&self) -> (mark: Rgba)
        ensures
            mark == mark_of(self.color),
    {
        if self.is_eraser() {
            Rgba { r: 255, g: 255, b: 255, a: 255 }
        } else {
            self.color
        }
    }

    /// Replaces the scratch buffer by a blank one of the canvas's size.
    pub fn clear_buffer(&mut self, canvas_width: u32, canvas_height: u32)
        requires
            canvas_width * canvas_height * 4 <= usize::MAX,
        ensures
            final(self).buffer@ == blank(canvas_width * canvas_height * 4),
            fits(final(self).buffer@, canvas_width, canvas_height),
            final(self).is_cleared,
            final(self).same_stroke(old(self)),
    {
        let len: usize = canvas_width as usize * canvas_height as usize * 4;
        self.buffer = blank_bytes(len);
        self.is_cleared = true;
    }

    /// Marks the pixel at `pos` in the scratch buffer. A position that is no
    /// pixel of the image, or lies outside the buffer, is ignored.
    pub fn draw_point(&mut self, pos: Pos, width: u32, height: u32)
        ensures
            final(self).buffer@ == (if markable(old(self).buffer@, width, height, pos) {
                with_pixel(old(self).buffer@, width, pos, mark_of(old(self).color))
            } else {
                old(self).buffer@
            }),
            final(self).is_cleared == (old(self).is_cleared && !markable(
                old(self).buffer@,
                width,
                height,
                pos,
            )),
            final(self).buffer@.len() == old(self).buffer@.len(),
            fits(old(self).buffer@, width, height) && in_bounds(pos, width, height) ==> markable(
                old(self).buffer@,
                width,
                height,
                pos,
            ),
            final(self).same_stroke(old(self)),
    {
        let color = self.mark();
        if try_put_pixel(&mut self.buffer, width, height, pos, color) {
            self.is_cleared = false;
        }
    }

    /// Marks every pixel of the line between `start` and `end` in the scratch
    /// buffer.
    pub fn draw_line(&mut self, width: u32, height: u32, start: Pos, end: Pos)
        requires
            fits(old(self).buffer@, width, height),
            in_bounds(start, width, height),
            in_bounds(end, width, height),
        ensures
            final(self).buffer@ == stamp(
                old(self).buffer@,
                width,
                line(start, end),
                mark_of(old(self).color),
            ),
            fits(final(self).buffer@, width, height),
            !final(self).is_cleared,
            final(self).same_stroke(old(self)),
    {
        self.is_cleared = false;
        let color = self.mark();
        let forward = start.0 < end.0 || (start.0 == end.0 && start.1 <= end.1);
        let from: Pos = if forward { start } else { end };
        let to: Pos = if forward { end } else { start };
        assert(from == lower(start, end) && to == upper(start, end));

        let dx: i64 = if from.0 <= to.0 {
            to.0 as i64 - from.0 as i64
        } else {
            from.0 as i64 - to.0 as i64
        };
        let dy: i64 = if from.1 <= to.1 {
            from.1 as i64 - to.1 as i64
        } else {
            to.1 as i64 - from.1 as i64
        };
        let sx: i32 = if from.0 < to.0 { 1 } else { -1 };
        let sy: i32 = if from.1 < to.1 { 1 } else { -1 };
        let mut x: i32 = from.0;
        let mut y: i32 = from.1;
        let mut err: i64 = dx + dy;

        let ghost a: int = span(from.0 as int, to.0 as int);
        let ghost b: int = span(from.1 as int, to.1 as int);
        let ghost mut i: int = 0;
        let ghost mut j: int = 0;
        let ghost before: Seq<u8> = self.buffer@;
        let ghost pixels: Seq<Pos> = trace(from, to);
        proof {
            lemma_trace_ends(from, to);
            assert(pixels.take(0) =~= Seq::<Pos>::empty());
            assert(0 * a == 0 && 0 * b == 0);
        }
        loop
            invariant_except_break
                self.buffer@ == stamp(
                    before,
                    width,
                    pixels.take(if a >= b { i } else { j }),
                    color,
                ),
            invariant
                in_bounds(from, width, height),
                in_bounds(to, width, height),
                a == span(from.0 as int, to.0 as int),
                b == span(from.1 as int, to.1 as int),
                dx == a,
                dy == -b,
                sx == (if from.0 < to.0 { 1i32 } else { -1i32 }),
                sy == (if from.1 < to.1 { 1i32 } else { -1i32 }),
                on_track(a, b, i, j),
                x == toward(from.0 as int, to.0 as int, i),
                y == toward(from.1 as int, to.1 as int, j),
                err == track_error(a, b, i, j),
                pixels == trace(from, to),
                pixels.len() == steps(from, to) + 1,
                color == mark_of(old(self).color),
                fits(self.buffer@, width, height),
                !self.is_cleared,
                self.same_stroke(old(self)),
            ensures
                self.buffer@ == stamp(before, width, pixels, color),
                fits(self.buffer@, width, height),
                !self.is_cleared,
                self.same_stroke(old(self)),
            decreases (a - i) + (b - j),
        {
            let ghost k = if a >= b { i } else { j };
            proof {
                lemma_track_pixel(from, to, i, j);
                lemma_trace_between(from, to, k);
                assert(pixels[k] == (x, y));
                lemma_stamp_push(before, width, pixels.take(k), (x, y), color);
                assert(pixels.take(k).push((x, y)) =~= pixels.take(k + 1));
            }
            put_pixel(&mut self.buffer, width, height, (x, y), color);
            if x == to.0 && y == to.1 {
                proof {
                    assert(i == a && j == b);
                    assert(pixels.take(k + 1) =~= pixels);
                }
                break;
            }
            proof {
                lemma_track_step(a, b, i, j);
            }
            let e2: i64 = err * 2;
            if e2 > dy {
                err += dy;
                x += sx;
                proof {
                    assert((i + 1) * b == i * b + b) by (nonlinear_arith);
                    i = i + 1;
                }
            }
            if e2 < dx {
                err += dx;
                y += sy;
                proof {
                    assert((j + 1) * a == j * a + a) by (nonlinear_arith);
                    j = j + 1;
                }
            }
        }
    }

    /// The scratch buffer laid over the snapshot, or nothing without a snapshot.
    pub fn get_updated_buffer(&self) -> (updated: Option<Vec<u8>>)
        ensures
            match updated {
                Some(bytes) => self.data.is_some() && bytes@ == composite(
                    self.data.unwrap()@,
                    self.buffer@,
                    self.color.a == 0,
                ),
                None => self.data.is_none(),
            },
    {
        match &self.data {
            Some(data) => Some(composite_buffers(data, &self.buffer, self.is_eraser())),
            None => None,
        }
    }

    /// Takes the image as it is for the snapshot.
    pub fn clone_data_from_image(&mut self, image: &Image)
        ensures
            final(self).snapshot() == Some(image.data@),
            final(self).buffer@ == old(self).buffer@,
            final(self).color == old(self).color,
            final(self).start_position == old(self).start_position,
            final(self).last_position == old(self).last_position,
            final(self).mode == old(self).mode,
            final(self).is_cleared == old(self).is_cleared,
    {
        self.data = Some(copy_bytes(&image.data));
    }

    /// The snapshot that a call of `apply_buffer_to_layer` works from: the one
    /// held, or else the image itself.
    pub open spec fn snapshot_or(&self, image: Seq<u8>) -> Seq<u8> {
        match self.data {
            Some(data) => data@,
            None => image,
        }
    }

    /// Writes the stroke, laid over the snapshot, into the image. Without a
    /// snapshot the image as it is becomes the snapshot first.
    pub fn apply_buffer_to_layer(&mut self, image: &mut Image)
        requires
            old(image).wf(),
            fits(old(self).buffer@, old(image).width, old(image).height),
            old(self).data.is_some() ==> old(self).data.unwrap()@.len() == old(image).data@.len(),
        ensures
            final(self).snapshot() == Some(old(self).snapshot_or(old(image).data@)),
            final(image).data@ == composite(
                old(self).snapshot_or(old(image).data@),
                old(self).buffer@,
                old(self).color.a == 0,
            ),
            final(image).width == old(image).width,
            final(image).height == old(image).height,
            final(image).wf(),
            final(self).buffer@ == old(self).buffer@,
            final(self).color == old(self).color,
            final(self).start_position == old(self).start_position,
            final(self).last_position == old(self).last_position,
            final(self).mode == old(self).mode,
            final(self).is_cleared == old(self).is_cleared,
    {
        if self.data.is_none() {
            self.data = Some(copy_bytes(&image.data));
        }
        let erasing = self.is_eraser();
        match &self.data {
            Some(data) => {
                image.data = composite_buffers(data, &self.buffer, erasing);
            },
            None => {},
        }
    }
}

impl BrushState {
    /// The brush can draw on an image of the given size with `image` below
    /// it: the scratch buffer has the image's size, a snapshot has the
    /// image's length, and the positions that the brush remembers are pixels
    /// of the image.
    pub open spec fn ready(&self, image: &Image) -> bool {
        &&& fits(self.buffer@, image.width, image.height)
        &&& self.holds(image)
        &&& match self.start_position {
            Some(pos) => in_bounds(pos, image.width, image.height),
            None => true,
        }
        &&& match self.last_position {
            Some(pos) => in_bounds(pos, image.width, image.height),
            None => true,
        }
    }

    /// A snapshot, if the brush holds one, has the image's length.
    pub open spec fn holds(&self, image: &Image) -> bool {
        match self.data {
            Some(data) => data@.len() == image.data@.len(),
            None => true,
        }
    }
}

/// The mode after the keys of a tick: the line key going down switches to
/// lines, the line key going up to pixels.
pub open spec fn switched(mode: BrushMode, pressed: bool, released: bool) -> BrushMode {
    if pressed {
        BrushMode::Line
    } else if released {
        BrushMode::Pixel
    } else {
        mode
    }
}

/// Whether a tick of a stroke draws a new segment: the cursor is on the
/// canvas, the stroke has a last position, and the cursor has left it or the
/// mode has changed since the last segment.
pub open spec fn redraws(last: Option<Pos>, cursor: Result<Pos, Pos>, switched: bool) -> bool {
    match (cursor, last) {
        (Ok(next), Some(before)) => before != next || switched,
        _ => false,
    }
}

/// Where the segment of a tick starts: at the last position in pixel mode,
/// at the stroke's start in line mode.
pub open spec fn segment_start(mode: BrushMode, start: Option<Pos>, last: Pos) -> Pos {
    match (mode, start) {
        (BrushMode::Line, Some(anchor)) => anchor,
        _ => last,
    }
}

/// Begins a stroke: the mode is set, the image as it is becomes the snapshot,
/// the scratch buffer is blanked, and with the cursor on the canvas the pixel
/// under it is marked and the stroke laid over the image.
pub fn start_painting(brush: &mut BrushState, canvas: &Canvas, image: &mut Image, line_mode: bool)
    requires
        canvas.wf(),
        old(image).wf(),
        canvas.width == old(image).width,
        canvas.height == old(image).height,
        old(brush).wf(canvas.width, canvas.height),
    ensures
        final(image).wf(),
        final(image).width == old(image).width,
        final(image).height == old(image).height,
        final(brush).ready(final(image)),
        final(brush).mode == (if line_mode {
            BrushMode::Line
        } else {
            BrushMode::Pixel
        }),
        final(brush).color == old(brush).color,
        final(brush).snapshot() == Some(old(image).data@),
        final(brush).start_position == canvas.cursor_position.ok(),
        final(brush).last_position == canvas.cursor_position.ok(),
        final(brush).is_cleared == canvas.cursor_position.is_err(),
        final(brush).wf(canvas.width, canvas.height),
        final(brush).buffer@ == (match canvas.cursor_position {
            Ok(pos) => with_pixel(
                blank(canvas.width * canvas.height * 4),
                canvas.width,
                pos,
                mark_of(old(brush).color),
            ),
            Err(_) => blank(canvas.width * canvas.height * 4),
        }),
        final(image).data@ == (match canvas.cursor_position {
            Ok(pos) => composite(old(image).data@, final(brush).buffer@, old(brush).color.a == 0),
            Err(_) => old(image).data@,
        }),
{
    assert(image.data@.len() == image.data.len());
    if line_mode {
        brush.mode = BrushMode::Line;
    } else {
        brush.mode = BrushMode::Pixel;
    }
    brush.clone_data_from_image(image);
    if !brush.is_cleared {
        brush.clear_buffer(canvas.width, canvas.height);
    }
    match canvas.cursor_position {
        Ok(pos) => {
            brush.start_position = Some(pos);
            brush.draw_point(pos, canvas.width, canvas.height);
            brush.apply_buffer_to_layer(image);
        },
        Err(_) => {
            brush.start_position = None;
        },
    }
    brush.last_position = match canvas.cursor_position {
        Ok(pos) => Some(pos),
        Err(_) => None,
    };
}

/// Ends a stroke: its snapshot goes to the history as a stroke that can be
/// undone, and the brush forgets its last position.
pub fn stop_painting(brush: &mut BrushState, history: &mut History)
    requires
        old(brush).data.is_some(),
    ensures
        final(history)@ == added(
            old(history)@,
            Entry { tag: EditKind::Painted, bytes: Some(old(brush).data.unwrap()@) },
        ),
        final(history).max_size == old(history).max_size,
        final(brush).data.is_none(),
        final(brush).last_position.is_none(),
        final(brush).buffer@ == old(brush).buffer@,
        final(brush).color == old(brush).color,
        final(brush).start_position == old(brush).start_position,
        final(brush).mode == old(brush).mode,
        final(brush).is_cleared == old(brush).is_cleared,
{
    if let Some(data) = brush.data.take() {
        history.add(HistoryItem::Painted(data));
    }
    brush.last_position = None;
}

/// One tick of a stroke.
///
/// The line key going down switches to line mode, the line key going up to
/// pixel mode; either way the stroke is blanked, so that nothing drawn in the
/// mode before stays. With the cursor on the canvas and away from the last
/// position, or after a switch of mode, a segment is drawn up to the cursor
/// in the same tick: in pixel mode from the last position, onto the stroke so
/// far (onto a blank one after a switch to pixels); in line mode from where
/// the stroke began, onto a blank stroke. The stroke is then laid over the
/// snapshot and written to the image. The two flags remember a switch until
/// a segment is drawn.
pub fn painting(
    brush: &mut BrushState,
    canvas: &Canvas,
    image: &mut Image,
    shift_pressed: bool,
    shift_released: bool,
    changed_to_pixel: &mut bool,
    changed_to_line: &mut bool,
)
    requires
        canvas.wf(),
        old(image).wf(),
        canvas.width == old(image).width,
        canvas.height == old(image).height,
        old(brush).ready(old(image)),
    ensures
        final(image).wf(),
        final(image).width == old(image).width,
        final(image).height == old(image).height,
        final(brush).ready(final(image)),
        final(brush).color == old(brush).color,
        final(brush).start_position == old(brush).start_position,
        final(brush).last_position == canvas.cursor_position.ok(),
        final(brush).mode == switched(old(brush).mode, shift_pressed, shift_released),
        ({
            let to_line = *old(changed_to_line) || shift_pressed;
            let to_pixel = *old(changed_to_pixel) || (!shift_pressed && shift_released);
            let toggled = shift_pressed || shift_released;
            let drawn = redraws(
                old(brush).last_position,
                canvas.cursor_position,
                to_line || to_pixel,
            );
            let mark = mark_of(old(brush).color);
            let size = canvas.width * canvas.height * 4;
            &&& *final(changed_to_line) == (to_line && !drawn)
            &&& *final(changed_to_pixel) == (to_pixel && !drawn)
            &&& final(brush).is_cleared == (if drawn {
                false
            } else if toggled {
                true
            } else {
                old(brush).is_cleared
            })
            &&& final(brush).snapshot() == (if drawn || toggled {
                Some(old(brush).snapshot_or(old(image).data@))
            } else {
                old(brush).snapshot()
            })
            &&& final(brush).buffer@ == (if drawn {
                stamp(
                    if final(brush).mode == BrushMode::Line || to_pixel {
                        blank(size)
                    } else {
                        old(brush).buffer@
                    },
                    canvas.width,
                    line(
                        segment_start(
                            final(brush).mode,
                            old(brush).start_position,
                            old(brush).last_position.unwrap(),
                        ),
                        canvas.cursor_position.unwrap(),
                    ),
                    mark,
                )
            } else if toggled {
                blank(size)
            } else {
                old(brush).buffer@
            })
            &&& final(image).data@ == (if drawn || toggled {
                composite(
                    old(brush).snapshot_or(old(image).data@),
                    final(brush).buffer@,
                    old(brush).color.a == 0,
                )
            } else {
                old(image).data@
            })
        }),
{
    assert(image.data@.len() == image.data.len());
    if shift_pressed {
        *changed_to_line = true;
        brush.clear_buffer(canvas.width, canvas.height);
        brush.apply_buffer_to_layer(image);
        brush.mode = BrushMode::Line;
    } else if shift_released {
        *changed_to_pixel = true;
        brush.clear_buffer(canvas.width, canvas.height);
        brush.apply_buffer_to_layer(image);
        brush.mode = BrushMode::Pixel;
    }
    match canvas.cursor_position {
        Ok(next_pos) => {
            if let Some(last_pos) = brush.last_position {
                if last_pos.0 == next_pos.0 && last_pos.1 == next_pos.1 && !*changed_to_line
                    && !*changed_to_pixel {
                    return ;
                }
                let from: Pos = if brush.is_pixel_mode() {
                    if *changed_to_pixel {
                        brush.clear_buffer(canvas.width, canvas.height);
                        brush.apply_buffer_to_layer(image);
                    }
                    last_pos
                } else {
                    brush.clear_buffer(canvas.width, canvas.height);
                    match brush.start_position {
                        Some(anchor) => anchor,
                        None => last_pos,
                    }
                };
                brush.draw_line(canvas.width, canvas.height, from, next_pos);
                brush.apply_buffer_to_layer(image);
                *changed_to_line = false;
                *changed_to_pixel = false;
            }
            brush.last_position = Some(next_pos);
        },
        Err(_) => {
            brush.last_position = None;
        },
    }
}

/// Shows the brush under the cursor while no stroke is under way: when the
/// cursor has moved to another pixel of the canvas, the stroke is that pixel
/// alone; when the cursor is outside, the stroke is blank. The stroke is laid
/// over the snapshot and written to the image whenever it changes.
pub fn brush_preview(brush: &mut BrushState, canvas: &Canvas, image: &mut Image)
    requires
        canvas.wf(),
        old(image).wf(),
        canvas.width == old(image).width,
        canvas.height == old(image).height,
        old(brush).holds(old(image)),
    ensures
        final(image).wf(),
        final(image).width == old(image).width,
        final(image).height == old(image).height,
        final(brush).holds(final(image)),
        final(brush).color == old(brush).color,
        final(brush).start_position == old(brush).start_position,
        final(brush).mode == old(brush).mode,
        final(brush).last_position == canvas.cursor_position.ok(),
        ({
            let size = canvas.width * canvas.height * 4;
            let moved = match (canvas.cursor_position, old(brush).last_position) {
                (Ok(pos), Some(last)) => last != pos,
                (Ok(_), None) => false,
                (Err(_), _) => !old(brush).is_cleared,
            };
            &&& final(brush).buffer@ == (if moved {
                match canvas.cursor_position {
                    Ok(pos) => with_pixel(blank(size), canvas.width, pos, mark_of(old(brush).color)),
                    Err(_) => blank(size),
                }
            } else {
                old(brush).buffer@
            })
            &&& final(brush).is_cleared == (if moved {
                canvas.cursor_position.is_err()
            } else {
                old(brush).is_cleared
            })
            &&& final(brush).snapshot() == (if moved {
                Some(old(brush).snapshot_or(old(image).data@))
            } else {
                old(brush).snapshot()
            })
            &&& final(image).data@ == (if moved {
                composite(
                    old(brush).snapshot_or(old(image).data@),
                    final(brush).buffer@,
                    old(brush).color.a == 0,
                )
            } else {
                old(image).data@
            })
        }),
{
    assert(image.data@.len() == image.data.len());
    match canvas.cursor_position {
        Ok(pos) => {
            if let Some(last_pos) = brush.last_position {
                if last_pos.0 == pos.0 && last_pos.1 == pos.1 {
                    return ;
                }
                brush.clear_buffer(canvas.width, canvas.height);
                brush.draw_point(pos, canvas.width, canvas.height);
                brush.apply_buffer_to_layer(image);
            }
            brush.last_position = Some(pos);
        },
        Err(_) => {
            if !brush.is_cleared {
                brush.clear_buffer(canvas.width, canvas.height);
                brush.apply_buffer_to_layer(image);
            }
            brush.last_position = None;
        },
    }
}

} // verus!
