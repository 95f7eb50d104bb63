//! The region that a flood fill covers: the pixels joined to the seed, side
//! by side, through pixels of the colour that is being replaced.

use vstd::prelude::*;
use crate::pixels::{
    channel_gap, chunk, close, distance, fits, in_bounds, index_of, lemma_index_in_range,
    lemma_pixels_determine, lemma_with_pixel, pixel, with_pixel, Pos, Rgba,
};

verus! {

/// What a fill replaces, and by what, on an image of a given size.
pub ghost struct FillRule {
    pub width: u32,
    pub height: u32,
    /// The colour that is being replaced.
    pub target: Rgba,
    /// The colour that replaces it.
    pub fill: Rgba,
}

/// A fill spreads into a colour that is close to the target and not yet close
/// to the fill colour.
pub open spec fn admits(color: Rgba, target: Rgba, fill: Rgba) -> bool {
    close(color, target) && !close(color, fill)
}

/// Where the fill colour is far enough from the target that no colour is
/// close to both, the fill spreads into exactly the colours that match the
/// target.
pub proof fn lemma_admits_matching(color: Rgba, target: Rgba, fill: Rgba)
    requires
        distance(target, fill) >= 5,
    ensures
        admits(color, target, fill) == close(color, target),
{
    lemma_gap_triangle(target.r, color.r, fill.r);
    lemma_gap_triangle(target.g, color.g, fill.g);
    lemma_gap_triangle(target.b, color.b, fill.b);
    lemma_gap_triangle(target.a, color.a, fill.a);
    assert(distance(target, fill) <= distance(color, target) + distance(color, fill));
}

/// The gap between two channel values is at most the sum of their gaps to a
/// third.
proof fn lemma_gap_triangle(a: u8, b: u8, c: u8)
    ensures
        channel_gap(a, c) <= channel_gap(b, a) + channel_gap(b, c),
{
}

/// The pixel at `pos` exists and the fill spreads into it.
pub open spec fn open_at(image: Seq<u8>, rule: FillRule, pos: Pos) -> bool {
    in_bounds(pos, rule.width, rule.height) && admits(
        pixel(image, rule.width, pos),
        rule.target,
        rule.fill,
    )
}

/// Two pixels share a side.
pub open spec fn beside(p: Pos, q: Pos) -> bool {
    (p.1 == q.1 && (p.0 - q.0 == 1 || q.0 - p.0 == 1)) || (p.0 == q.0 && (p.1 - q.1 == 1 || q.1
        - p.1 == 1))
}

/// A walk from the seed: every pixel shares a side with the one before it,
/// and the fill spreads into every pixel after the seed.
pub open spec fn is_walk(image: Seq<u8>, rule: FillRule, seed: Pos, walk: Seq<Pos>) -> bool {
    &&& walk.len() > 0
    &&& walk[0] == seed
    &&& forall|k: int| 1 <= k < walk.len() ==> beside(walk[k - 1], #[trigger] walk[k])
    &&& forall|k: int| 1 <= k < walk.len() ==> open_at(image, rule, #[trigger] walk[k])
}

/// The fill that starts at `seed` reaches `pos`.
pub open spec fn reaches(image: Seq<u8>, rule: FillRule, seed: Pos, pos: Pos) -> bool {
    exists|walk: Seq<Pos>| is_walk(image, rule, seed, walk) && #[trigger] walk.last() == pos
}

/// `after` is `before` with exactly the pixels that the fill reaches from
/// `seed` set to the fill colour.
pub open spec fn flooded(before: Seq<u8>, after: Seq<u8>, rule: FillRule, seed: Pos) -> bool {
    &&& fits(after, rule.width, rule.height)
    &&& forall|p: Pos|
        in_bounds(p, rule.width, rule.height) ==> #[trigger] pixel(after, rule.width, p) == (if reaches(
            before,
            rule,
            seed,
            p,
        ) {
            rule.fill
        } else {
            pixel(before, rule.width, p)
        })
}

/// A fill from a seed has one outcome: two images that are both the image
/// before with exactly the reached pixels in the fill colour are the same,
/// whichever way each was filled.
pub proof fn lemma_flooded_unique(
    before: Seq<u8>,
    one: Seq<u8>,
    other: Seq<u8>,
    rule: FillRule,
    seed: Pos,
)
    requires
        flooded(before, one, rule, seed),
        flooded(before, other, rule, seed),
        rule.width <= i32::MAX,
        rule.height <= i32::MAX,
    ensures
        one == other,
{
    lemma_pixels_determine(one, other, rule.width, rule.height);
}

/// Every pixel of `now` is as in `before`, or is reached by the fill and
/// holds the fill colour.
pub open spec fn filled_within(before: Seq<u8>, now: Seq<u8>, rule: FillRule, seed: Pos) -> bool {
    &&& fits(before, rule.width, rule.height)
    &&& fits(now, rule.width, rule.height)
    &&& forall|p: Pos|
        in_bounds(p, rule.width, rule.height) ==> #[trigger] pixel(now, rule.width, p) == pixel(
            before,
            rule.width,
            p,
        ) || (reaches(before, rule, seed, p) && pixel(now, rule.width, p) == rule.fill)
}

/// The fill has nowhere left to go from `p`.
pub open spec fn enclosed(now: Seq<u8>, rule: FillRule, p: Pos) -> bool {
    forall|q: Pos| beside(p, q) ==> !#[trigger] open_at(now, rule, q)
}

/// The seed is reached.
pub proof fn lemma_reaches_seed(image: Seq<u8>, rule: FillRule, seed: Pos)
    ensures
        reaches(image, rule, seed, seed),
{
    let walk = seq![seed];
    assert(is_walk(image, rule, seed, walk));
    assert(walk.last() == seed);
}

/// A pixel beside a reached pixel is reached if the fill spreads into it.
pub proof fn lemma_reaches_next(image: Seq<u8>, rule: FillRule, seed: Pos, p: Pos, q: Pos)
    requires
        reaches(image, rule, seed, p),
        beside(p, q),
        open_at(image, rule, q),
    ensures
        reaches(image, rule, seed, q),
{
    let walk = choose|walk: Seq<Pos>| is_walk(image, rule, seed, walk) && #[trigger] walk.last() == p;
    let longer = walk.push(q);
    assert forall|k: int| 1 <= k < longer.len() implies beside(longer[k - 1], #[trigger] longer[k]) by {
        if k < walk.len() {
            assert(beside(walk[k - 1], walk[k]));
        }
    }
    assert forall|k: int| 1 <= k < longer.len() implies open_at(image, rule, #[trigger] longer[k]) by {
        if k < walk.len() {
            assert(open_at(image, rule, walk[k]));
        }
    }
    assert(is_walk(image, rule, seed, longer));
    assert(longer.last() == q);
}

/// Along a walk from a seed that holds the fill colour, every pixel holds the
/// fill colour once the fill has nowhere left to go from any pixel it has
/// coloured.
proof fn lemma_walk_filled(
    before: Seq<u8>,
    now: Seq<u8>,
    rule: FillRule,
    seed: Pos,
    walk: Seq<Pos>,
    k: int,
)
    requires
        filled_within(before, now, rule, seed),
        in_bounds(seed, rule.width, rule.height),
        pixel(now, rule.width, seed) == rule.fill,
        forall|p: Pos|
            in_bounds(p, rule.width, rule.height) && reaches(before, rule, seed, p) && pixel(
                now,
                rule.width,
                p,
            ) == rule.fill ==> #[trigger] enclosed(now, rule, p),
        is_walk(before, rule, seed, walk),
        0 <= k < walk.len(),
    ensures
        in_bounds(walk[k], rule.width, rule.height),
        reaches(before, rule, seed, walk[k]),
        pixel(now, rule.width, walk[k]) == rule.fill,
    decreases k,
{
    if k == 0 {
        lemma_reaches_seed(before, rule, seed);
    } else {
        lemma_walk_filled(before, now, rule, seed, walk, k - 1);
        let p = walk[k - 1];
        let q = walk[k];
        assert(beside(p, q));
        assert(open_at(before, rule, q));
        lemma_reaches_next(before, rule, seed, p, q);
        assert(enclosed(now, rule, p));
        assert(!open_at(now, rule, q));
    }
}

/// Once the seed holds the fill colour and the fill has nowhere left to go,
/// exactly the pixels that the fill reaches hold the fill colour and every
/// other pixel is as it was.
pub proof fn lemma_flood_complete(before: Seq<u8>, now: Seq<u8>, rule: FillRule, seed: Pos)
    requires
        filled_within(before, now, rule, seed),
        in_bounds(seed, rule.width, rule.height),
        pixel(now, rule.width, seed) == rule.fill,
        forall|p: Pos|
            in_bounds(p, rule.width, rule.height) && reaches(before, rule, seed, p) && pixel(
                now,
                rule.width,
                p,
            ) == rule.fill ==> #[trigger] enclosed(now, rule, p),
    ensures
        flooded(before, now, rule, seed),
{
    assert forall|p: Pos| in_bounds(p, rule.width, rule.height) implies #[trigger] pixel(
        now,
        rule.width,
        p,
    ) == (if reaches(before, rule, seed, p) {
        rule.fill
    } else {
        pixel(before, rule.width, p)
    }) by {
        if reaches(before, rule, seed, p) {
            let walk = choose|walk: Seq<Pos>|
                is_walk(before, rule, seed, walk) && #[trigger] walk.last() == p;
            lemma_walk_filled(before, now, rule, seed, walk, walk.len() - 1);
        }
    }
}

/// Number of pixels, among the first `n` of the buffer, that the fill spreads
/// into.
pub open spec fn open_count(image: Seq<u8>, rule: FillRule, n: nat) -> nat
    decreases n,
{
    if n == 0 {
        0
    } else {
        open_count(image, rule, (n - 1) as nat) + (if admits(
            chunk(image, n - 1),
            rule.target,
            rule.fill,
        ) {
            1nat
        } else {
            0nat
        })
    }
}

/// Number of pixels of the image that the fill spreads into.
pub open spec fn open_total(image: Seq<u8>, rule: FillRule) -> nat {
    open_count(image, rule, (rule.width * rule.height) as nat)
}

/// Colouring one pixel with the fill colour takes it out of the count if it
/// was in it, and changes the count in no other way.
pub proof fn lemma_count_after_fill(image: Seq<u8>, rule: FillRule, pos: Pos, n: nat)
    requires
        fits(image, rule.width, rule.height),
        in_bounds(pos, rule.width, rule.height),
        n <= rule.width * rule.height,
    ensures
        open_count(with_pixel(image, rule.width, pos, rule.fill), rule, n) + (if pos.1 * rule.width
            + pos.0 < n && open_at(image, rule, pos) {
            1nat
        } else {
            0nat
        }) == open_count(image, rule, n),
    decreases n,
{
    if n > 0 {
        lemma_count_after_fill(image, rule, pos, (n - 1) as nat);
        lemma_index_in_range(pos, rule.width, rule.height);
        let after = with_pixel(image, rule.width, pos, rule.fill);
        let k0 = pos.1 * rule.width + pos.0;
        assert(index_of(pos, rule.width) == 4 * k0);
        if n - 1 == k0 {
            assert(chunk(after, n - 1) == rule.fill);
            assert(chunk(image, n - 1) == pixel(image, rule.width, pos));
        } else {
            assert(chunk(after, n - 1) == chunk(image, n - 1));
        }
    }
}

/// Colouring a pixel that the fill spreads into lowers the number of such
/// pixels by one; colouring any other pixel keeps it.
pub proof fn lemma_total_after_fill(image: Seq<u8>, rule: FillRule, pos: Pos)
    requires
        fits(image, rule.width, rule.height),
        in_bounds(pos, rule.width, rule.height),
    ensures
        open_total(with_pixel(image, rule.width, pos, rule.fill), rule) + (if open_at(
            image,
            rule,
            pos,
        ) {
            1nat
        } else {
            0nat
        }) == open_total(image, rule),
{
    lemma_index_in_range(pos, rule.width, rule.height);
    lemma_count_after_fill(image, rule, pos, (rule.width * rule.height) as nat);
}

/// The pixels that share a side with `p`, as far as their coordinates exist:
/// right, left, below, above.
pub open spec fn around(p: Pos) -> Seq<Pos> {
    (if p.0 < i32::MAX {
        seq![((p.0 + 1) as i32, p.1)]
    } else {
        Seq::<Pos>::empty()
    }) + (if p.0 > i32::MIN {
        seq![((p.0 - 1) as i32, p.1)]
    } else {
        Seq::<Pos>::empty()
    }) + (if p.1 < i32::MAX {
        seq![(p.0, (p.1 + 1) as i32)]
    } else {
        Seq::<Pos>::empty()
    }) + (if p.1 > i32::MIN {
        seq![(p.0, (p.1 - 1) as i32)]
    } else {
        Seq::<Pos>::empty()
    })
}

/// The pixels around `p` are exactly those that share a side with it.
pub proof fn lemma_around(p: Pos)
    ensures
        forall|q: Pos| beside(p, q) <==> #[trigger] around(p).contains(q),
{
    let right = if p.0 < i32::MAX {
        seq![((p.0 + 1) as i32, p.1)]
    } else {
        Seq::<Pos>::empty()
    };
    let left = if p.0 > i32::MIN {
        seq![((p.0 - 1) as i32, p.1)]
    } else {
        Seq::<Pos>::empty()
    };
    let below = if p.1 < i32::MAX {
        seq![(p.0, (p.1 + 1) as i32)]
    } else {
        Seq::<Pos>::empty()
    };
    let above = if p.1 > i32::MIN {
        seq![(p.0, (p.1 - 1) as i32)]
    } else {
        Seq::<Pos>::empty()
    };
    let all = around(p);
    assert(all == right + left + below + above);
    assert forall|q: Pos| beside(p, q) implies #[trigger] all.contains(q) by {
        if q.1 == p.1 && q.0 - p.0 == 1 {
            assert(right[0] == q);
            assert(all[0] == q);
        } else if q.1 == p.1 && p.0 - q.0 == 1 {
            assert(left[0] == q);
            assert(all[right.len() as int] == q);
        } else if q.0 == p.0 && q.1 - p.1 == 1 {
            assert(below[0] == q);
            assert(all[(right.len() + left.len()) as int] == q);
        } else {
            assert(above[0] == q);
            assert(all[(right.len() + left.len() + below.len()) as int] == q);
        }
    }
    assert forall|q: Pos| #[trigger] all.contains(q) implies beside(p, q) by {
        let k = choose|k: int| 0 <= k < all.len() && all[k] == q;
        if k < right.len() {
            assert(all[k] == right[k]);
        } else if k < right.len() + left.len() {
            assert(all[k] == left[k - right.len()]);
        } else if k < right.len() + left.len() + below.len() {
            assert(all[k] == below[k - right.len() - left.len()]);
        } else {
            assert(all[k] == above[k - right.len() - left.len() - below.len()]);
        }
    }
}

/// A fill that grows from a frontier is under way: what is coloured so far is
/// reached by the fill, every pixel of the frontier is reached, the seed is
/// coloured or still in the frontier, and the fill has nowhere left to go from
/// a coloured pixel that has left the frontier.
pub open spec fn growing(
    before: Seq<u8>,
    now: Seq<u8>,
    alive: Set<Pos>,
    rule: FillRule,
    seed: Pos,
) -> bool {
    &&& filled_within(before, now, rule, seed)
    &&& in_bounds(seed, rule.width, rule.height)
    &&& forall|p: Pos| #[trigger]
        alive.contains(p) ==> in_bounds(p, rule.width, rule.height) && reaches(
            before,
            rule,
            seed,
            p,
        )
    &&& alive.contains(seed) || pixel(now, rule.width, seed) == rule.fill
    &&& forall|p: Pos|
        in_bounds(p, rule.width, rule.height) && reaches(before, rule, seed, p) && pixel(
            now,
            rule.width,
            p,
        ) == rule.fill && !alive.contains(p) ==> #[trigger] enclosed(now, rule, p)
}

/// A fill starts with the seed alone in the frontier and the image untouched.
pub proof fn lemma_grow_start(before: Seq<u8>, rule: FillRule, seed: Pos)
    requires
        fits(before, rule.width, rule.height),
        in_bounds(seed, rule.width, rule.height),
        rule.target == pixel(before, rule.width, seed),
    ensures
        growing(before, before, set![seed], rule, seed),
{
    lemma_reaches_seed(before, rule, seed);
    assert forall|p: Pos|
        in_bounds(p, rule.width, rule.height) && reaches(before, rule, seed, p) && pixel(
            before,
            rule.width,
            p,
        ) == rule.fill && !set![seed].contains(p) implies #[trigger] enclosed(before, rule, p) by {
        let walk = choose|walk: Seq<Pos>|
            is_walk(before, rule, seed, walk) && #[trigger] walk.last() == p;
        assert(walk.len() > 1);
        assert(open_at(before, rule, walk[walk.len() - 1]));
    }
}

/// Colouring a pixel of the frontier keeps the fill under way.
pub proof fn lemma_grow_paint(
    before: Seq<u8>,
    now: Seq<u8>,
    alive: Set<Pos>,
    rule: FillRule,
    seed: Pos,
    p: Pos,
)
    requires
        growing(before, now, alive, rule, seed),
        alive.contains(p),
    ensures
        growing(before, with_pixel(now, rule.width, p, rule.fill), alive, rule, seed),
{
    let next = with_pixel(now, rule.width, p, rule.fill);
    lemma_with_pixel(now, rule.width, rule.height, p, rule.fill);
    assert forall|r: Pos|
        in_bounds(r, rule.width, rule.height) && reaches(before, rule, seed, r) && pixel(
            next,
            rule.width,
            r,
        ) == rule.fill && !alive.contains(r) implies #[trigger] enclosed(next, rule, r) by {
        assert(pixel(next, rule.width, r) == pixel(now, rule.width, r));
        assert(enclosed(now, rule, r));
        assert forall|q: Pos| beside(r, q) implies !#[trigger] open_at(next, rule, q) by {
            assert(!open_at(now, rule, q));
            if in_bounds(q, rule.width, rule.height) && q != p {
                assert(pixel(next, rule.width, q) == pixel(now, rule.width, q));
            }
        }
    }
    assert forall|r: Pos| in_bounds(r, rule.width, rule.height) implies #[trigger] pixel(
        next,
        rule.width,
        r,
    ) == pixel(before, rule.width, r) || (reaches(before, rule, seed, r) && pixel(
        next,
        rule.width,
        r,
    ) == rule.fill) by {
        if r != p {
            assert(pixel(next, rule.width, r) == pixel(now, rule.width, r));
        }
    }
}

/// A pixel beside a frontier pixel that the fill spreads into may join the
/// frontier.
pub proof fn lemma_grow_admit(
    before: Seq<u8>,
    now: Seq<u8>,
    alive: Set<Pos>,
    rule: FillRule,
    seed: Pos,
    p: Pos,
    q: Pos,
)
    requires
        growing(before, now, alive, rule, seed),
        alive.contains(p),
        beside(p, q),
        open_at(now, rule, q),
    ensures
        growing(before, now, alive.insert(q), rule, seed),
        open_at(before, rule, q),
{
    assert(pixel(now, rule.width, q) == pixel(before, rule.width, q));
    lemma_reaches_next(before, rule, seed, p, q);
    let more = alive.insert(q);
    assert forall|r: Pos|
        in_bounds(r, rule.width, rule.height) && reaches(before, rule, seed, r) && pixel(
            now,
            rule.width,
            r,
        ) == rule.fill && !more.contains(r) implies #[trigger] enclosed(now, rule, r) by {
        assert(!alive.contains(r));
    }
}

/// A coloured frontier pixel from which the fill has nowhere left to go may
/// leave the frontier.
pub proof fn lemma_grow_retire(
    before: Seq<u8>,
    now: Seq<u8>,
    alive: Set<Pos>,
    rule: FillRule,
    seed: Pos,
    p: Pos,
)
    requires
        growing(before, now, alive, rule, seed),
        alive.contains(p),
        pixel(now, rule.width, p) == rule.fill,
        enclosed(now, rule, p),
    ensures
        growing(before, now, alive.remove(p), rule, seed),
{
    let fewer = alive.remove(p);
    assert forall|r: Pos|
        in_bounds(r, rule.width, rule.height) && reaches(before, rule, seed, r) && pixel(
            now,
            rule.width,
            r,
        ) == rule.fill && !fewer.contains(r) implies #[trigger] enclosed(now, rule, r) by {
        if r != p {
            assert(!alive.contains(r));
        }
    }
}

/// When the frontier is empty the fill is complete.
pub proof fn lemma_grow_done(before: Seq<u8>, now: Seq<u8>, rule: FillRule, seed: Pos)
    requires
        growing(before, now, Set::<Pos>::empty(), rule, seed),
    ensures
        flooded(before, now, rule, seed),
{
    assert forall|p: Pos|
        in_bounds(p, rule.width, rule.height) && reaches(before, rule, seed, p) && pixel(
            now,
            rule.width,
            p,
        ) == rule.fill implies #[trigger] enclosed(now, rule, p) by {
        assert(!Set::<Pos>::empty().contains(p));
    }
    lemma_flood_complete(before, now, rule, seed);
}

/// A fill that works off a stack of pixels is under way: the seed is
/// coloured, what is coloured is reached by the fill, a stacked pixel that
/// the fill spreads into is reached, and wherever the fill can still go from
/// a coloured pixel is on the stack.
pub open spec fn sweeping(
    before: Seq<u8>,
    now: Seq<u8>,
    stack: Seq<Pos>,
    rule: FillRule,
    seed: Pos,
) -> bool {
    &&& filled_within(before, now, rule, seed)
    &&& in_bounds(seed, rule.width, rule.height)
    &&& pixel(now, rule.width, seed) == rule.fill
    &&& forall|k: int|
        0 <= k < stack.len() && open_at(now, rule, #[trigger] stack[k]) ==> reaches(
            before,
            rule,
            seed,
            stack[k],
        )
    &&& forall|p: Pos, q: Pos|
        in_bounds(p, rule.width, rule.height) && reaches(before, rule, seed, p) && pixel(
            now,
            rule.width,
            p,
        ) == rule.fill && #[trigger] beside(p, q) && open_at(now, rule, q) ==> stack.contains(q)
}

/// Colouring the seed of an untouched image, or a stacked pixel that the fill
/// has reached and spreads into, and stacking the pixels around it in place
/// of it, puts or keeps the fill under way. The number of pixels left to
/// colour goes down by one if the fill spreads into the pixel.
pub proof fn lemma_sweep_paint(
    before: Seq<u8>,
    now: Seq<u8>,
    stack: Seq<Pos>,
    rule: FillRule,
    seed: Pos,
    q: Pos,
)
    requires
        filled_within(before, now, rule, seed),
        in_bounds(seed, rule.width, rule.height),
        in_bounds(q, rule.width, rule.height),
        reaches(before, rule, seed, q),
        q == seed || (open_at(now, rule, q) && sweeping(before, now, stack.push(q), rule, seed)),
        q == seed ==> now == before && stack.len() == 0,
    ensures
        sweeping(before, with_pixel(now, rule.width, q, rule.fill), stack + around(q), rule, seed),
        open_total(with_pixel(now, rule.width, q, rule.fill), rule) + (if open_at(now, rule, q) {
            1nat
        } else {
            0nat
        }) == open_total(now, rule),
{
    let next = with_pixel(now, rule.width, q, rule.fill);
    let more = stack + around(q);
    lemma_with_pixel(now, rule.width, rule.height, q, rule.fill);
    lemma_total_after_fill(now, rule, q);
    lemma_around(q);
    assert forall|r: Pos| in_bounds(r, rule.width, rule.height) implies #[trigger] pixel(
        next,
        rule.width,
        r,
    ) == pixel(before, rule.width, r) || (reaches(before, rule, seed, r) && pixel(
        next,
        rule.width,
        r,
    ) == rule.fill) by {
        if r != q {
            assert(pixel(next, rule.width, r) == pixel(now, rule.width, r));
        }
    }
    assert forall|k: int|
        0 <= k < more.len() && open_at(next, rule, #[trigger] more[k]) implies reaches(
        before,
        rule,
        seed,
        more[k],
    ) by {
        let r = more[k];
        assert(r != q);
        assert(pixel(next, rule.width, r) == pixel(now, rule.width, r));
        if k < stack.len() {
            assert(q != seed);
            assert(stack.push(q)[k] == r);
        } else {
            assert(around(q)[k - stack.len()] == r);
            assert(around(q).contains(r));
            assert(pixel(now, rule.width, r) == pixel(before, rule.width, r));
            lemma_reaches_next(before, rule, seed, q, r);
        }
    }
    assert forall|p: Pos, r: Pos|
        in_bounds(p, rule.width, rule.height) && reaches(before, rule, seed, p) && pixel(
            next,
            rule.width,
            p,
        ) == rule.fill && #[trigger] beside(p, r) && open_at(next, rule, r) implies more.contains(
        r,
    ) by {
        assert(r != q);
        assert(pixel(next, rule.width, r) == pixel(now, rule.width, r));
        if p == q {
            assert(around(q).contains(r));
            let k = choose|k: int| 0 <= k < around(q).len() && around(q)[k] == r;
            assert(more[stack.len() + k] == r);
        } else {
            assert(pixel(next, rule.width, p) == pixel(now, rule.width, p));
            if q == seed {
                // Nothing but the seed is coloured yet.
                let walk = choose|walk: Seq<Pos>|
                    is_walk(before, rule, seed, walk) && #[trigger] walk.last() == p;
                if walk.len() > 1 {
                    assert(open_at(before, rule, walk[walk.len() - 1]));
                }
                assert(false);
            } else {
                assert(stack.push(q).contains(r));
                let k = choose|k: int| 0 <= k < stack.push(q).len() && stack.push(q)[k] == r;
                assert(k < stack.len());
                assert(more[k] == r);
            }
        }
    }
}

/// Dropping a stacked pixel that the fill does not spread into keeps the
/// fill under way.
pub proof fn lemma_sweep_skip(
    before: Seq<u8>,
    now: Seq<u8>,
    stack: Seq<Pos>,
    rule: FillRule,
    seed: Pos,
    q: Pos,
)
    requires
        sweeping(before, now, stack.push(q), rule, seed),
        !open_at(now, rule, q),
    ensures
        sweeping(before, now, stack, rule, seed),
{
    let longer = stack.push(q);
    assert forall|k: int|
        0 <= k < stack.len() && open_at(now, rule, #[trigger] stack[k]) implies reaches(
        before,
        rule,
        seed,
        stack[k],
    ) by {
        assert(longer[k] == stack[k]);
    }
    assert forall|p: Pos, r: Pos|
        in_bounds(p, rule.width, rule.height) && reaches(before, rule, seed, p) && pixel(
            now,
            rule.width,
            p,
        ) == rule.fill && #[trigger] beside(p, r) && open_at(now, rule, r) implies stack.contains(
        r,
    ) by {
        assert(longer.contains(r));
        let k = choose|k: int| 0 <= k < longer.len() && longer[k] == r;
        assert(stack[k] == r);
    }
}

/// When the stack is empty the fill is complete.
pub proof fn lemma_sweep_done(before: Seq<u8>, now: Seq<u8>, rule: FillRule, seed: Pos)
    requires
        sweeping(before, now, Seq::<Pos>::empty(), rule, seed),
    ensures
        flooded(before, now, rule, seed),
{
    assert forall|p: Pos|
        in_bounds(p, rule.width, rule.height) && reaches(before, rule, seed, p) && pixel(
            now,
            rule.width,
            p,
        ) == rule.fill implies #[trigger] enclosed(now, rule, p) by {
        assert forall|q: Pos| beside(p, q) implies !#[trigger] open_at(now, rule, q) by {
            if open_at(now, rule, q) {
                assert(Seq::<Pos>::empty().contains(q));
            }
        }
    }
    lemma_flood_complete(before, now, rule, seed);
}

/// Some pixel of the frontier is one that the fill spreads into: it is not
/// coloured yet.
pub open spec fn has_open(now: Seq<u8>, rule: FillRule, alive: Set<Pos>) -> bool {
    exists|p: Pos| alive.contains(p) && #[trigger] open_at(now, rule, p)
}

/// What is left to do of a fill that grows from a frontier: twice the number
/// of pixels that the fill spreads into, and one more while the frontier
/// holds none of them.
pub open spec fn fill_measure(now: Seq<u8>, rule: FillRule, alive: Set<Pos>) -> nat {
    2 * open_total(now, rule) + (if has_open(now, rule, alive) {
        0nat
    } else {
        1nat
    })
}

} // verus!
