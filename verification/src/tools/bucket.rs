//! The bucket: flood fills that start at the pixel under the cursor.

use vstd::prelude::*;
use crate::canvas::Canvas;
use crate::frontier::Frontier;
use crate::history::{added, EditKind, Entry, History, HistoryItem};
use crate::pixels::{
    compare_color, fits, in_bounds, in_img_bounds, pixel, with_pixel, Image, Pos, Rgba,
};
use crate::region::{
    around, flooded, growing, lemma_reaches_seed, lemma_sweep_done, lemma_sweep_paint,
    lemma_sweep_skip, open_at, open_total, sweeping, FillRule,
};
use crate::tools::{copy_bytes, ToolState};

verus! {

/// The state of the bucket.
pub struct BucketState {
    /// The image as it was when the fill began.
    pub data: Option<Vec<u8>>,
    /// The colour that the fill lays down.
    pub fill_color: Rgba,
    /// The colour that the fill replaces: that of the seed when the fill began.
    pub target_color: Rgba,
    /// The pixels from which the fill still grows.
    pub alive_pixels: Frontier,
    /// The pixel at which the fill began.
    pub seed: Pos,
    /// Growth steps per millisecond of frame time, in thousandths, before the
    /// ramp.
    pub speed: u32,
    /// Milliseconds since the fill began.
    pub elapsed: u32,
}

/// The bucket with its buffers and its frontier as plain values.
pub ghost struct BucketView {
    pub snapshot: Option<Seq<u8>>,
    pub fill_color: Rgba,
    pub target_color: Rgba,
    pub alive: Set<Pos>,
    pub seed: Pos,
    pub speed: u32,
    pub elapsed: u32,
}

impl View for BucketState {
    type V = BucketView;

    open spec fn view(&self) -> BucketView {
        BucketView {
            snapshot: self.snapshot(),
            fill_color: self.fill_color,
            target_color: self.target_color,
            alive: self.alive_pixels@,
            seed: self.seed,
            speed: self.speed,
            elapsed: self.elapsed,
        }
    }
}

impl Default for BucketState {
    fn default() -> (bucket: BucketState)
        ensures
            bucket.data.is_none(),
            bucket.fill_color == (Rgba { r: 255, g: 255, b: 255, a: 255 }),
            bucket.target_color == (Rgba { r: 255, g: 255, b: 255, a: 255 }),
            bucket.alive_pixels@ == Set::<Pos>::empty(),
            bucket.seed == (0i32, 0i32),
            bucket.speed == 0,
            bucket.elapsed == 0,
    {
        BucketState {
            data: None,
            fill_color: Rgba { r: 255, g: 255, b: 255, a: 255 },
            target_color: Rgba { r: 255, g: 255, b: 255, a: 255 },
            alive_pixels: Frontier::new(),
            seed: (0, 0),
            speed: 0,
            elapsed: 0,
        }
    }
}

/// Puts the pixels around `p` on the stack.
pub fn push_around(stack: &mut Vec<Pos>, p: Pos)
    ensures
        final(stack)@ == old(stack)@ + around(p),
{
    if p.0 < i32::MAX {
        stack.push((p.0 + 1, p.1));
    }
    if p.0 > i32::MIN {
        stack.push((p.0 - 1, p.1));
    }
    if p.1 < i32::MAX {
        stack.push((p.0, p.1 + 1));
    }
    if p.1 > i32::MIN {
        stack.push((p.0, p.1 - 1));
    }
    assert(stack@ =~= old(stack)@ + around(p));
}

impl BucketState {
    /// The snapshot as a sequence of bytes, if there is one.
    pub open spec fn snapshot(&self) -> Option<Seq<u8>> {
        match self.data {
            Some(data) => Some(data@),
            None => None,
        }
    }

    /// What the bucket replaces, and by what, on `image`.
    pub open spec fn rule(&self, image: &Image) -> FillRule {
        FillRule {
            width: image.width,
            height: image.height,
            target: self.target_color,
            fill: self.fill_color,
        }
    }

    /// A fill that grows from the frontier is under way on `image`.
    pub open spec fn under_way(&self, image: &Image) -> bool {
        &&& image.wf()
        &&& self.data.is_some()
        &&& growing(
            self.data.unwrap()@,
            image.data@,
            self.alive_pixels@,
            self.rule(image),
            self.seed,
        )
    }

    /// The bucket differs from `other` in its frontier at most.
    pub open spec fn same_fill(&self, other: &BucketState) -> bool {
        &&& self.snapshot() == other.snapshot()
        &&& self.fill_color == other.fill_color
        &&& self.target_color == other.target_color
        &&& self.seed == other.seed
        &&& self.speed == other.speed
        &&& self.elapsed == other.elapsed
    }

    /// Colours the pixel at `start` if it exists and the fill spreads into
    /// it. Says whether it did.
    pub fn span_fill_step(&self, start: Pos, image: &mut Image) -> (painted: bool)
        requires
            old(image).wf(),
        ensures
            painted == open_at(old(image).data@, self.rule(old(image)), start),
            final(image).data@ == (if painted {
                with_pixel(old(image).data@, old(image).width, start, self.fill_color)
            } else {
                old(image).data@
            }),
            final(image).width == old(image).width,
            final(image).height == old(image).height,
            final(image).wf(),
    {
        if !in_img_bounds(start, image.width, image.height) {
            return false;
        }
        let color = image.color_at_pos(start);
        if !compare_color(color, self.target_color) || compare_color(color, self.fill_color) {
            return false;
        }
        image.paint(start, self.fill_color);
        true
    }
}

/// Begins a fill at the pixel under the cursor and carries it through: the
/// colour under the cursor becomes the target, the image as it is becomes the
/// snapshot, and the pixel under the cursor and every pixel that the fill
/// reaches from it are coloured. With the cursor outside the canvas nothing
/// happens. The tool is idle afterwards.
pub fn start_filling(bucket: &mut BucketState, canvas: &Canvas, image: &mut Image) -> (next:
    ToolState)
    requires
        old(image).wf(),
        canvas.wf(),
        canvas.width == old(image).width,
        canvas.height == old(image).height,
    ensures
        next == ToolState::Idle,
        final(image).width == old(image).width,
        final(image).height == old(image).height,
        final(image).wf(),
        final(bucket).fill_color == old(bucket).fill_color,
        final(bucket).alive_pixels@ == old(bucket).alive_pixels@,
        final(bucket).seed == old(bucket).seed,
        final(bucket).speed == old(bucket).speed,
        final(bucket).elapsed == old(bucket).elapsed,
        match canvas.cursor_position {
            Ok(pos) => {
                &&& final(bucket).target_color == pixel(old(image).data@, old(image).width, pos)
                &&& final(bucket).snapshot() == Some(old(image).data@)
                &&& flooded(
                    old(image).data@,
                    final(image).data@,
                    final(bucket).rule(old(image)),
                    pos,
                )
            },
            Err(_) => {
                &&& final(bucket).target_color == old(bucket).target_color
                &&& final(bucket).snapshot() == old(bucket).snapshot()
                &&& final(image).data@ == old(image).data@
            },
        },
{
    if let Ok(pos) = canvas.cursor_position {
        bucket.target_color = image.color_at_pos(pos);
        bucket.data = Some(copy_bytes(&image.data));
        let ghost before = image.data@;
        let ghost rule = bucket.rule(image);
        image.paint(pos, bucket.fill_color);
        let mut stack: Vec<Pos> = Vec::new();
        push_around(&mut stack, pos);
        proof {
            lemma_reaches_seed(before, rule, pos);
            lemma_sweep_paint(before, before, Seq::<Pos>::empty(), rule, pos, pos);
            assert(Seq::<Pos>::empty() + around(pos) =~= stack@);
        }
        while stack.len() > 0
            invariant
                sweeping(before, image.data@, stack@, rule, pos),
                image.wf(),
                rule == bucket.rule(image),
                image.width == old(image).width,
                image.height == old(image).height,
                bucket.fill_color == old(bucket).fill_color,
                bucket.target_color == pixel(before, rule.width, pos),
                bucket.snapshot() == Some(before),
                bucket.alive_pixels@ == old(bucket).alive_pixels@,
                bucket.seed == old(bucket).seed,
                bucket.speed == old(bucket).speed,
                bucket.elapsed == old(bucket).elapsed,
            decreases open_total(image.data@, rule), stack.len(),
        {
            let ghost now = image.data@;
            let ghost full = stack@;
            let next = stack.pop();
            if let Some(q) = next {
                let ghost rest = stack@;
                assert(full =~= rest.push(q));
                if bucket.span_fill_step(q, image) {
                    proof {
                        assert(rest.push(q)[rest.len() as int] == q);
                        lemma_sweep_paint(before, now, rest, rule, pos, q);
                    }
                    push_around(&mut stack, q);
                } else {
                    proof {
                        lemma_sweep_skip(before, now, rest, rule, pos, q);
                    }
                }
            }
        }
        proof {
            assert(stack@ =~= Seq::<Pos>::empty());
            lemma_sweep_done(before, image.data@, rule, pos);
        }
    }
    ToolState::Idle
}

/// Ends a fill: its snapshot goes to the history as a fill that can be undone.
pub fn stop_filling(bucket: &mut BucketState, history: &mut History)
    requires
        old(bucket).data.is_some(),
    ensures
        final(history)@ == added(
            old(history)@,
            Entry { tag: EditKind::Filled, bytes: Some(old(bucket).data.unwrap()@) },
        ),
        final(history).max_size == old(history).max_size,
        final(bucket).data.is_none(),
        final(bucket).fill_color == old(bucket).fill_color,
        final(bucket).target_color == old(bucket).target_color,
        final(bucket).alive_pixels@ == old(bucket).alive_pixels@,
        final(bucket).seed == old(bucket).seed,
        final(bucket).speed == old(bucket).speed,
        final(bucket).elapsed == old(bucket).elapsed,
{
    if let Some(data) = bucket.data.take() {
        history.add(HistoryItem::Filled(data));
    }
}

} // verus!
