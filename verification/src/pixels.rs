//! Pixel buffer utilities: colours, positions and the row-major RGBA8 layout.

use vstd::prelude::*;

verus! {

/// A pixel position: its column, then its row, counted from the top-left
/// corner.
pub type Pos = (i32, i32);

/// One RGBA8 colour, not premultiplied.
#[derive(Clone, Copy, Debug, PartialEq, Eq, Structural)]
pub struct Rgba {
    pub r: u8,
    pub g: u8,
    pub b: u8,
    pub a: u8,
}

/// Absolute difference of two channel values.
pub open spec fn channel_gap(a: u8, b: u8) -> int {
    if a >= b {
        a - b
    } else {
        b - a
    }
}

/// Sum of the absolute channel differences of two colours, counted in steps of
/// one 255th of the channel range.
pub open spec fn distance(a: Rgba, b: Rgba) -> int {
    channel_gap(a.r, b.r) + channel_gap(a.g, b.g) + channel_gap(a.b, b.b) + channel_gap(a.a, b.a)
}

/// Two colours count as the same when their distance, with every channel
/// scaled to the unit interval, is below one hundredth.
pub open spec fn close(a: Rgba, b: Rgba) -> bool {
    distance(a, b) * 100 < 255
}

/// A coordinate is inside a `width` by `height` image.
pub open spec fn in_bounds(pos: Pos, width: u32, height: u32) -> bool {
    0 <= pos.0 < width && 0 <= pos.1 < height
}

/// Offset of the first byte of the pixel at `pos` in a row-major RGBA8 buffer.
pub open spec fn index_of(pos: Pos, width: u32) -> int {
    (pos.1 * width + pos.0) * 4
}

/// The buffer has exactly the bytes of a `width` by `height` image.
pub open spec fn fits(image: Seq<u8>, width: u32, height: u32) -> bool {
    image.len() == width * height * 4
}

/// The colour that the buffer holds at `pos`.
pub open spec fn pixel(image: Seq<u8>, width: u32, pos: Pos) -> Rgba {
    let i = index_of(pos, width);
    Rgba { r: image[i], g: image[i + 1], b: image[i + 2], a: image[i + 3] }
}

/// The `n`-th group of four bytes as a colour.
pub open spec fn chunk(bytes: Seq<u8>, n: int) -> Rgba {
    Rgba { r: bytes[4 * n], g: bytes[4 * n + 1], b: bytes[4 * n + 2], a: bytes[4 * n + 3] }
}

/// The buffer with the four bytes from offset `i` replaced by `color`.
pub open spec fn with_bytes(image: Seq<u8>, i: int, color: Rgba) -> Seq<u8> {
    image.update(i, color.r).update(i + 1, color.g).update(i + 2, color.b).update(i + 3, color.a)
}

/// The buffer with the pixel at `pos` replaced by `color`.
pub open spec fn with_pixel(image: Seq<u8>, width: u32, pos: Pos, color: Rgba) -> Seq<u8> {
    with_bytes(image, index_of(pos, width), color)
}

/// Every in-bounds pixel lies wholly inside a buffer of the image's size.
pub proof fn lemma_index_in_range(pos: Pos, width: u32, height: u32)
    requires
        in_bounds(pos, width, height),
    ensures
        0 <= index_of(pos, width),
        index_of(pos, width) + 4 <= width * height * 4,
        index_of(pos, width) % 4 == 0,
{
    let x = pos.0 as int;
    let y = pos.1 as int;
    let w = width as int;
    let h = height as int;
    assert(0 <= y * w && y * w + w <= h * w && h * w == w * h) by (nonlinear_arith)
        requires
            0 <= y < h,
            0 <= w,
    ;
}

/// Two in-bounds pixels share their offset only if they are the same pixel.
pub proof fn lemma_index_injective(p: Pos, q: Pos, width: u32, height: u32)
    requires
        in_bounds(p, width, height),
        in_bounds(q, width, height),
        index_of(p, width) == index_of(q, width),
    ensures
        p == q,
{
    let w = width as int;
    let (px, py, qx, qy) = (p.0 as int, p.1 as int, q.0 as int, q.1 as int);
    assert(py == qy) by (nonlinear_arith)
        requires
            0 <= px < w,
            0 <= qx < w,
            py * w + px == qy * w + qx,
    ;
}

/// Writing one pixel changes that pixel and no other.
pub proof fn lemma_with_pixel(image: Seq<u8>, width: u32, height: u32, pos: Pos, color: Rgba)
    requires
        fits(image, width, height),
        in_bounds(pos, width, height),
    ensures
        fits(with_pixel(image, width, pos, color), width, height),
        pixel(with_pixel(image, width, pos, color), width, pos) == color,
        forall|q: Pos|
            in_bounds(q, width, height) && q != pos ==> #[trigger] pixel(
                with_pixel(image, width, pos, color),
                width,
                q,
            ) == pixel(image, width, q),
{
    lemma_index_in_range(pos, width, height);
    assert forall|q: Pos| in_bounds(q, width, height) && q != pos implies #[trigger] pixel(
        with_pixel(image, width, pos, color),
        width,
        q,
    ) == pixel(image, width, q) by {
        lemma_index_in_range(q, width, height);
        if index_of(q, width) == index_of(pos, width) {
            lemma_index_injective(q, pos, width, height);
        }
    }
}

/// Two buffers of an image's size that agree on every pixel are the same
/// buffer, as long as every pixel has coordinates.
pub proof fn lemma_pixels_determine(a: Seq<u8>, b: Seq<u8>, width: u32, height: u32)
    requires
        fits(a, width, height),
        fits(b, width, height),
        width <= i32::MAX,
        height <= i32::MAX,
        forall|p: Pos|
            in_bounds(p, width, height) ==> #[trigger] pixel(a, width, p) == pixel(b, width, p),
    ensures
        a == b,
{
    assert forall|i: int| 0 <= i < a.len() implies a[i] == b[i] by {
        let w = width as int;
        let h = height as int;
        let k = i / 4;
        assert(w > 0) by (nonlinear_arith)
            requires
                0 <= i < w * h * 4,
                w >= 0,
        ;
        let x = k % w;
        let y = k / w;
        vstd::arithmetic::div_mod::lemma_fundamental_div_mod(k, w);
        vstd::arithmetic::div_mod::lemma_mod_bound(k, w);
        assert(0 <= y < h) by (nonlinear_arith)
            requires
                k == w * y + x,
                0 <= x < w,
                0 <= k < w * h,
        ;
        let p: Pos = (x as i32, y as i32);
        assert(in_bounds(p, width, height));
        assert(index_of(p, width) == 4 * k) by (nonlinear_arith)
            requires
                index_of(p, width) == (y * w + x) * 4,
                k == w * y + x,
        ;
        assert(pixel(a, width, p) == pixel(b, width, p));
    }
    assert(a =~= b);
}

/// Channel `k` of a colour: red, green, blue, then alpha.
pub open spec fn channel(color: Rgba, k: int) -> u8 {
    if k == 0 {
        color.r
    } else if k == 1 {
        color.g
    } else if k == 2 {
        color.b
    } else {
        color.a
    }
}

/// The buffer of a `width` by `height` image whose every pixel is `color`.
pub open spec fn uniform(width: u32, height: u32, color: Rgba) -> Seq<u8> {
    Seq::new((width * height * 4) as nat, |i: int| channel(color, i % 4))
}

/// The buffer with each pixel of `points` replaced by `color`.
pub open spec fn stamp(image: Seq<u8>, width: u32, points: Seq<Pos>, color: Rgba) -> Seq<u8>
    decreases points.len(),
{
    if points.len() == 0 {
        image
    } else {
        with_pixel(stamp(image, width, points.drop_last(), color), width, points.last(), color)
    }
}

/// Stamping colours exactly the pixels of `points` and keeps every other pixel.
pub proof fn lemma_stamp(image: Seq<u8>, width: u32, height: u32, points: Seq<Pos>, color: Rgba)
    requires
        fits(image, width, height),
        forall|k: int| 0 <= k < points.len() ==> in_bounds(#[trigger] points[k], width, height),
    ensures
        fits(stamp(image, width, points, color), width, height),
        forall|q: Pos|
            in_bounds(q, width, height) ==> #[trigger] pixel(
                stamp(image, width, points, color),
                width,
                q,
            ) == (if points.contains(q) {
                color
            } else {
                pixel(image, width, q)
            }),
    decreases points.len(),
{
    if points.len() > 0 {
        let before = points.drop_last();
        lemma_stamp(image, width, height, before, color);
        lemma_with_pixel(stamp(image, width, before, color), width, height, points.last(), color);
        assert forall|q: Pos| in_bounds(q, width, height) implies #[trigger] pixel(
            stamp(image, width, points, color),
            width,
            q,
        ) == (if points.contains(q) {
            color
        } else {
            pixel(image, width, q)
        }) by {
            if q == points.last() {
                assert(points[points.len() - 1] == q);
            } else if before.contains(q) {
                let k = choose|k: int| 0 <= k < before.len() && before[k] == q;
                assert(points[k] == q);
            } else if points.contains(q) {
                let k = choose|k: int| 0 <= k < points.len() && points[k] == q;
                assert(before[k] == q);
            }
        }
    }
}

/// Stamping one more pixel extends the stamp of the pixels before it.
pub proof fn lemma_stamp_push(image: Seq<u8>, width: u32, points: Seq<Pos>, next: Pos, color: Rgba)
    ensures
        stamp(image, width, points.push(next), color) == with_pixel(
            stamp(image, width, points, color),
            width,
            next,
            color,
        ),
{
    assert(points.push(next).drop_last() == points);
}

/// The pixel at `pos` is a pixel of a `width` by `height` image and lies
/// wholly inside the buffer.
pub open spec fn markable(buffer: Seq<u8>, width: u32, height: u32, pos: Pos) -> bool {
    in_bounds(pos, width, height) && index_of(pos, width) + 4 <= buffer.len()
}

/// Sets the pixel at `pos` of a buffer to `color` if the pixel is a pixel of
/// the image and lies inside the buffer; leaves the buffer alone otherwise.
/// Says whether the pixel was set.
pub fn try_put_pixel(buffer: &mut Vec<u8>, width: u32, height: u32, pos: Pos, color: Rgba) -> (put:
    bool)
    ensures
        put == markable(old(buffer)@, width, height, pos),
        final(buffer)@ == (if put {
            with_pixel(old(buffer)@, width, pos, color)
        } else {
            old(buffer)@
        }),
        final(buffer)@.len() == old(buffer)@.len(),
        fits(old(buffer)@, width, height) && in_bounds(pos, width, height) ==> put,
{
    proof {
        if fits(buffer@, width, height) && in_bounds(pos, width, height) {
            lemma_index_in_range(pos, width, height);
        }
    }
    if !in_img_bounds(pos, width, height) {
        return false;
    }
    assert(0 <= pos.1 * width <= 0x7fff_ffff * 0xffff_ffff) by (nonlinear_arith)
        requires
            0 <= pos.1 <= 0x7fff_ffff,
            0 <= width <= 0xffff_ffff,
    ;
    let i: u128 = (pos.1 as u128 * width as u128 + pos.0 as u128) * 4;
    if i + 4 > buffer.len() as u128 {
        return false;
    }
    let i: usize = i as usize;
    buffer[i] = color.r;
    buffer[i + 1] = color.g;
    buffer[i + 2] = color.b;
    buffer[i + 3] = color.a;
    true
}

/// Sets the pixel at `pos` of a buffer to `color`.
pub fn put_pixel(buffer: &mut Vec<u8>, width: u32, height: u32, pos: Pos, color: Rgba)
    requires
        fits(old(buffer)@, width, height),
        in_bounds(pos, width, height),
    ensures
        final(buffer)@ == with_pixel(old(buffer)@, width, pos, color),
        fits(final(buffer)@, width, height),
{
    proof {
        lemma_index_in_range(pos, width, height);
        assert(buffer@.len() == buffer.len());
    }
    let i = img_pos_to_index(pos, width, height);
    buffer[i] = color.r;
    buffer[i + 1] = color.g;
    buffer[i + 2] = color.b;
    buffer[i + 3] = color.a;
}

/// A raster image: `width` by `height` pixels, row by row from the top-left
/// corner, four bytes to a pixel.
pub struct Image {
    pub data: Vec<u8>,
    pub width: u32,
    pub height: u32,
}

impl Image {
    /// The buffer has exactly the bytes of the image's size.
    pub open spec fn wf(&self) -> bool {
        fits(self.data@, self.width, self.height)
    }

    /// Sets the pixel at `pos` to `color`.
    pub fn paint(&mut self, pos: Pos, color: Rgba)
        requires
            old(self).wf(),
            in_bounds(pos, old(self).width, old(self).height),
        ensures
            final(self).data@ == with_pixel(old(self).data@, old(self).width, pos, color),
            final(self).width == old(self).width,
            final(self).height == old(self).height,
            final(self).wf(),
    {
        put_pixel(&mut self.data, self.width, self.height, pos, color);
    }

    /// The colour of the pixel at `pos`.
    pub fn color_at_pos(&self, pos: Pos) -> (color: Rgba)
        requires
            self.wf(),
            in_bounds(pos, self.width, self.height),
        ensures
            color == pixel(self.data@, self.width, pos),
    {
        color_at_img_pos(pos, self.width, self.height, &self.data)
    }
}

/// An image of the given size whose every pixel is `color`.
pub fn image(width: u32, height: u32, color: Rgba) -> (img: Image)
    requires
        width * height * 4 <= usize::MAX,
    ensures
        img.width == width,
        img.height == height,
        img.data@ == uniform(width, height, color),
        img.wf(),
{
    let count: usize = width as usize * height as usize;
    let mut data: Vec<u8> = Vec::new();
    let mut n: usize = 0;
    while n < count
        invariant
            n <= count,
            count == width * height,
            count * 4 <= usize::MAX,
            data@.len() == n * 4,
            forall|i: int| 0 <= i < data@.len() ==> data@[i] == channel(color, i % 4),
        decreases count - n,
    {
        data.push(color.r);
        data.push(color.g);
        data.push(color.b);
        data.push(color.a);
        n += 1;
    }
    assert(data@ =~= uniform(width, height, color));
    Image { data, width, height }
}

/// Sum of the absolute channel differences of two colours. A distance of `d`
/// here is `d / 255` on channels scaled to the unit interval.
pub fn color_distance(a: Rgba, b: Rgba) -> (d: u32)
    ensures
        d == distance(a, b),
{
    let dr: u32 = if a.r >= b.r { (a.r - b.r) as u32 } else { (b.r - a.r) as u32 };
    let dg: u32 = if a.g >= b.g { (a.g - b.g) as u32 } else { (b.g - a.g) as u32 };
    let db: u32 = if a.b >= b.b { (a.b - b.b) as u32 } else { (b.b - a.b) as u32 };
    let da: u32 = if a.a >= b.a { (a.a - b.a) as u32 } else { (b.a - a.a) as u32 };
    dr + dg + db + da
}

/// Whether two colours are close enough to count as the same.
pub fn compare_color(a: Rgba, b: Rgba) -> (same: bool)
    ensures
        same == close(a, b),
{
    color_distance(a, b) * 100 < 255
}

/// Whether `pos` lies inside a `width` by `height` image.
pub fn in_img_bounds(pos: Pos, width: u32, height: u32) -> (inside: bool)
    ensures
        inside == in_bounds(pos, width, height),
{
    pos.0 >= 0 && pos.1 >= 0 && (pos.0 as u32) < width && (pos.1 as u32) < height
}

/// Offset of the pixel at `pos` in the buffer of an image `width` pixels wide.
pub fn img_pos_to_index(pos: Pos, width: u32, height: u32) -> (index: usize)
    requires
        in_bounds(pos, width, height),
        width * height * 4 <= usize::MAX,
    ensures
        index == index_of(pos, width),
{
    proof {
        lemma_index_in_range(pos, width, height);
    }
    let row: usize = pos.1 as usize * width as usize;
    (row + pos.0 as usize) * 4
}

/// The position of an index counted row by row in rows of `width`: the
/// column is the index modulo the width, the row the index divided by it.
pub fn index_to_img_pos(index: usize, width: u32) -> (pos: Pos)
    requires
        width > 0,
        index as int % width as int <= i32::MAX,
        index as int / width as int <= i32::MAX,
    ensures
        pos.0 == index as int % width as int,
        pos.1 == index as int / width as int,
{
    ((index % width as usize) as i32, (index / width as usize) as i32)
}

/// The colour of the pixel at `pos`.
pub fn color_at_img_pos(pos: Pos, width: u32, height: u32, image: &Vec<u8>) -> (color: Rgba)
    requires
        in_bounds(pos, width, height),
        fits(image@, width, height),
    ensures
        color == pixel(image@, width, pos),
{
    proof {
        lemma_index_in_range(pos, width, height);
        assert(image@.len() == image.len());
    }
    let i = img_pos_to_index(pos, width, height);
    Rgba { r: image[i], g: image[i + 1], b: image[i + 2], a: image[i + 3] }
}

} // verus!
