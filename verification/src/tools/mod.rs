//! The drawing tools and the compositing they share.

pub mod brush;
pub mod bucket;

use vstd::prelude::*;
use crate::pixels::{
    channel, chunk, fits, in_bounds, markable, try_put_pixel, with_pixel, Image, Pos, Rgba,
};

pub use brush::BrushState;
pub use bucket::BucketState;

verus! {

/// The tool in hand.
#[derive(Clone, Copy, Debug, PartialEq, Eq, Hash, Structural)]
pub enum Tool {
    Brush,
    Bucket,
    Select,
}

impl Default for Tool {
    fn default() -> (tool: Tool)
        ensures
            tool == Tool::Brush,
    {
        Tool::Brush
    }
}

/// What the tool in hand is doing.
#[derive(Clone, Copy, Debug, PartialEq, Eq, Hash, Structural)]
pub enum ToolState {
    Painting,
    Filling,
    Idle,
}

impl Default for ToolState {
    fn default() -> (state: ToolState)
        ensures
            state == ToolState::Idle,
    {
        ToolState::Idle
    }
}

/// The colour that a stroke records at the pixels it covers: the draw colour,
/// or a full mark where the draw colour is transparent and the stroke erases.
pub open spec fn mark_of(color: Rgba) -> Rgba {
    if color.a == 0 {
        Rgba { r: 255, g: 255, b: 255, a: 255 }
    } else {
        color
    }
}

/// One channel of `below` moved towards `above` by the fraction
/// `coverage / 255`, rounded down.
pub open spec fn blend(below: u8, above: u8, coverage: u8) -> u8 {
    ((below * (255 - coverage) + above * coverage) / 255) as u8
}

/// Sum of two alpha values, capped at full opacity.
pub open spec fn alpha_sum(below: u8, above: u8) -> u8 {
    if below + above > 255 {
        255u8
    } else {
        (below + above) as u8
    }
}

/// One pixel of a stroke laid over one pixel of the image below it.
///
/// An erasing stroke resets a pixel that it marks in full and leaves every
/// other pixel alone. A drawing stroke moves the colour towards its own by its
/// alpha and adds its alpha to the one below.
pub open spec fn composite_pixel(below: Rgba, above: Rgba, erasing: bool) -> Rgba {
    if erasing {
        if above.a == 255 {
            Rgba { r: 0, g: 0, b: 0, a: 0 }
        } else {
            below
        }
    } else {
        Rgba {
            r: blend(below.r, above.r, above.a),
            g: blend(below.g, above.g, above.a),
            b: blend(below.b, above.b, above.a),
            a: alpha_sum(below.a, above.a),
        }
    }
}

/// Number of whole pixels that both buffers hold.
pub open spec fn common_pixels(below: Seq<u8>, above: Seq<u8>) -> int {
    if below.len() / 4 <= above.len() / 4 {
        below.len() as int / 4
    } else {
        above.len() as int / 4
    }
}

/// The stroke buffer `above` laid over the image buffer `below`, pixel by pixel.
pub open spec fn composite(below: Seq<u8>, above: Seq<u8>, erasing: bool) -> Seq<u8> {
    Seq::new(
        (4 * common_pixels(below, above)) as nat,
        |i: int| channel(composite_pixel(chunk(below, i / 4), chunk(above, i / 4), erasing), i % 4),
    )
}

/// A stroke at full opacity replaces whatever lies below it.
pub proof fn lemma_opaque_replaces(below: Rgba, above: Rgba)
    requires
        above.a == 255,
    ensures
        composite_pixel(below, above, false) == above,
{
}

/// One channel moved towards the stroke's by the stroke's coverage.
pub fn blend_channel(below: u8, above: u8, coverage: u8) -> (out: u8)
    ensures
        out == blend(below, above, coverage),
{
    let rest: u32 = 255 - coverage as u32;
    assert(below * rest + above * coverage <= 255 * 255) by (nonlinear_arith)
        requires
            rest == 255 - coverage,
            below <= 255,
            above <= 255,
            0 <= coverage <= 255,
    ;
    assert(0 <= below * rest && 0 <= above * coverage) by (nonlinear_arith)
        requires
            0 <= rest,
    ;
    let sum: u32 = below as u32 * rest + above as u32 * coverage as u32;
    (sum / 255) as u8
}

/// One stroke pixel laid over one image pixel.
pub fn composite_color(below: Rgba, above: Rgba, erasing: bool) -> (out: Rgba)
    ensures
        out == composite_pixel(below, above, erasing),
{
    if erasing {
        if above.a == 255 {
            Rgba { r: 0, g: 0, b: 0, a: 0 }
        } else {
            below
        }
    } else {
        let a: u8 = match below.a.checked_add(above.a) {
            Some(sum) => sum,
            None => 255,
        };
        Rgba {
            r: blend_channel(below.r, above.r, above.a),
            g: blend_channel(below.g, above.g, above.a),
            b: blend_channel(below.b, above.b, above.a),
            a,
        }
    }
}

/// The stroke buffer laid over the image buffer. Bytes beyond the last whole
/// pixel that both hold are left out.
pub fn composite_buffers(below: &Vec<u8>, above: &Vec<u8>, erasing: bool) -> (out: Vec<u8>)
    ensures
        out@ == composite(below@, above@, erasing),
{
    let count: usize = if below.len() / 4 <= above.len() / 4 {
        below.len() / 4
    } else {
        above.len() / 4
    };
    let mut out: Vec<u8> = Vec::with_capacity(above.len());
    let mut n: usize = 0;
    while n < count
        invariant
            n <= count,
            count == common_pixels(below@, above@),
            4 * count <= below.len(),
            4 * count <= above.len(),
            out@.len() == 4 * n,
            forall|i: int|
                0 <= i < out@.len() ==> out@[i] == channel(
                    composite_pixel(chunk(below@, i / 4), chunk(above@, i / 4), erasing),
                    i % 4,
                ),
        decreases count - n,
    {
        let i: usize = 4 * n;
        let under = Rgba { r: below[i], g: below[i + 1], b: below[i + 2], a: below[i + 3] };
        let over = Rgba { r: above[i], g: above[i + 1], b: above[i + 2], a: above[i + 3] };
        let color = composite_color(under, over, erasing);
        assert(under == chunk(below@, n as int));
        assert(over == chunk(above@, n as int));
        out.push(color.r);
        out.push(color.g);
        out.push(color.b);
        out.push(color.a);
        n += 1;
    }
    assert(out@ =~= composite(below@, above@, erasing));
    out
}

/// A copy of a byte buffer.
pub fn copy_bytes(bytes: &Vec<u8>) -> (out: Vec<u8>)
    ensures
        out@ == bytes@,
{
    let mut out: Vec<u8> = Vec::with_capacity(bytes.len());
    let mut n: usize = 0;
    while n < bytes.len()
        invariant
            n <= bytes.len(),
            out@ == bytes@.take(n as int),
        decreases bytes.len() - n,
    {
        out.push(bytes[n]);
        assert(bytes@.take(n as int).push(bytes@[n as int]) =~= bytes@.take(n as int + 1));
        n += 1;
    }
    assert(bytes@.take(bytes@.len() as int) =~= bytes@);
    out
}

/// A buffer of `len` zero bytes.
pub open spec fn blank(len: int) -> Seq<u8> {
    Seq::new(len as nat, |i: int| 0u8)
}

/// A buffer of `len` zero bytes.
pub fn blank_bytes(len: usize) -> (out: Vec<u8>)
    ensures
        out@ == blank(len as int),
{
    let mut out: Vec<u8> = Vec::with_capacity(len);
    let mut n: usize = 0;
    while n < len
        invariant
            n <= len,
            out@.len() == n,
            forall|i: int| 0 <= i < n ==> out@[i] == 0u8,
        decreases len - n,
    {
        out.push(0);
        n += 1;
    }
    assert(out@ =~= blank(len as int));
    out
}

/// A stroke buffer that knows its own size: the scratch buffer of a tool,
/// the snapshot that it is laid over, and the draw colour.
pub struct ToolBuffer {
    /// The draw colour. A transparent colour erases.
    pub color: Rgba,
    pub width: u32,
    pub height: u32,
    /// The scratch buffer that records the stroke.
    pub buffer: Vec<u8>,
    /// The image as it was when the stroke began.
    pub data: Option<Vec<u8>>,
    /// Set while the scratch buffer is known to hold no mark.
    pub is_cleared: bool,
}

impl Default for ToolBuffer {
    fn default() -> (tool: ToolBuffer)
        ensures
            tool.color == (Rgba { r: 255, g: 255, b: 255, a: 255 }),
            tool.width == 0,
            tool.height == 0,
            tool.buffer@.len() == 0,
            tool.data.is_none(),
            !tool.is_cleared,
    {
        ToolBuffer {
            color: Rgba { r: 255, g: 255, b: 255, a: 255 },
            width: 0,
            height: 0,
            buffer: Vec::new(),
            data: None,
            is_cleared: false,
        }
    }
}

impl ToolBuffer {
    /// The snapshot as a sequence of bytes, if there is one.
    pub open spec fn snapshot(&self) -> Option<Seq<u8>> {
        match self.data {
            Some(data) => Some(data@),
            None => None,
        }
    }

    /// The snapshot that a call of `apply_buffer_to_layer` works from: the
    /// one held, or else the image itself.
    pub open spec fn snapshot_or(&self, image: Seq<u8>) -> Seq<u8> {
        match self.data {
            Some(data) => data@,
            None => image,
        }
    }

    pub fn set_size(&mut self, width: u32, height: u32)
        ensures
            final(self).width == width,
            final(self).height == height,
            final(self).color == old(self).color,
            final(self).buffer@ == old(self).buffer@,
            final(self).snapshot() == old(self).snapshot(),
            final(self).is_cleared == old(self).is_cleared,
    {
        self.width = width;
        self.height = height;
    }

    /// Whether the draw colour is fully transparent, so that the tool erases.
    pub fn is_transparent(&self) -> (yes: bool)
        ensures
            yes == (self.color.a == 0),
    {
        self.color.a == 0
    }

    /// Replaces the scratch buffer by a blank one of the tool's size.
    pub fn clear_buffer(&mut self)
        requires
            old(self).width * old(self).height * 4 <= usize::MAX,
        ensures
            final(self).buffer@ == blank(old(self).width * old(self).height * 4),
            fits(final(self).buffer@, old(self).width, old(self).height),
            final(self).is_cleared,
            final(self).width == old(self).width,
            final(self).height == old(self).height,
            final(self).color == old(self).color,
            final(self).snapshot() == old(self).snapshot(),
    {
        let len: usize = self.width as usize * self.height as usize * 4;
        self.buffer = blank_bytes(len);
        self.is_cleared = true;
    }

    /// Marks the pixel at `pos` in the scratch buffer. A position that is no
    /// pixel of the tool's area, or lies outside the buffer, is ignored.
    pub fn draw_point(&mut self, pos: Pos)
        ensures
            final(self).buffer@ == (if markable(
                old(self).buffer@,
                old(self).width,
                old(self).height,
                pos,
            ) {
                with_pixel(old(self).buffer@, old(self).width, pos, mark_of(old(self).color))
            } else {
                old(self).buffer@
            }),
            final(self).is_cleared == (old(self).is_cleared && !markable(
                old(self).buffer@,
                old(self).width,
                old(self).height,
                pos,
            )),
            final(self).buffer@.len() == old(self).buffer@.len(),
            final(self).width == old(self).width,
            final(self).height == old(self).height,
            final(self).color == old(self).color,
            final(self).snapshot() == old(self).snapshot(),
    {
        let color = if self.is_transparent() {
            Rgba { r: 255, g: 255, b: 255, a: 255 }
        } else {
            self.color
        };
        if try_put_pixel(&mut self.buffer, self.width, self.height, pos, color) {
            self.is_cleared = false;
        }
    }

    /// The scratch buffer laid over the snapshot, or nothing without a
    /// snapshot.
    pub fn get_final_image(&self) -> (out: Option<Vec<u8>>)
        ensures
            match out {
                Some(bytes) => self.data.is_some() && bytes@ == composite(
                    self.data.unwrap()@,
                    self.buffer@,
                    self.color.a == 0,
                ),
                None => self.data.is_none(),
            },
    {
        match &self.data {
            Some(data) => Some(composite_buffers(data, &self.buffer, self.is_transparent())),
            None => None,
        }
    }

    /// Takes the image as it is for the snapshot.
    pub fn clone_data_from_image(&mut self, image: &Image)
        ensures
            final(self).snapshot() == Some(image.data@),
            final(self).buffer@ == old(self).buffer@,
            final(self).color == old(self).color,
            final(self).width == old(self).width,
            final(self).height == old(self).height,
            final(self).is_cleared == old(self).is_cleared,
    {
        self.data = Some(copy_bytes(&image.data));
    }

    /// Writes the stroke, laid over the snapshot, into the image. Without a
    /// snapshot the image as it is becomes the snapshot first.
    pub fn apply_buffer_to_layer(&mut self, image: &mut Image)
        ensures
            final(self).snapshot() == Some(old(self).snapshot_or(old(image).data@)),
            final(image).data@ == composite(
                old(self).snapshot_or(old(image).data@),
                old(self).buffer@,
                old(self).color.a == 0,
            ),
            final(image).width == old(image).width,
            final(image).height == old(image).height,
            final(self).buffer@ == old(self).buffer@,
            final(self).color == old(self).color,
            final(self).width == old(self).width,
            final(self).height == old(self).height,
            final(self).is_cleared == old(self).is_cleared,
    {
        if self.data.is_none() {
            self.data = Some(copy_bytes(&image.data));
        }
        let erasing = self.is_transparent();
        match &self.data {
            Some(data) => {
                image.data = composite_buffers(data, &self.buffer, erasing);
            },
            None => {},
        }
    }
}

} // verus!
