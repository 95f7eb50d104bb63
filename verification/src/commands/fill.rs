//! The animated fill: a frontier of pixels that grows by one step at a time,
//! each frontier pixel spreading in one direction drawn at random.

use vstd::prelude::*;
use rand::rngs::StdRng;
use rand::Rng;
use crate::frontier::Frontier;
use crate::pixels::{compare_color, in_bounds, in_img_bounds, pixel, with_pixel, Image, Pos, Rgba};
use crate::pixels::lemma_with_pixel;
use crate::region::{
    beside, enclosed, fill_measure, flooded, growing, has_open, lemma_grow_admit, lemma_grow_done,
    lemma_grow_paint, lemma_grow_retire, lemma_total_after_fill, open_at, open_total, FillRule,
};
use crate::commands::{filling_begun, Scene, World};
use crate::tools::{copy_bytes, BucketState, ToolState};

verus! {

/// `StdRng` of rand: a seedable generator of random numbers.
#[verifier::external_type_specification]
#[verifier::external_body]
pub struct ExStdRng(StdRng);

/// `Rng::gen_range` of rand on the range from 0 up to and without `bound`:
/// some number of that range. An empty range is not sampled.
#[verifier::external_body]
fn pick_below(rng: &mut StdRng, bound: usize) -> (pick: usize)
    requires
        bound > 0,
    ensures
        pick < bound,
{
    rng.gen_range(0..bound)
}

/// One of the four directions in which a fill spreads.
#[derive(Clone, Copy, Debug, PartialEq, Eq, Structural)]
pub enum Direction {
    Left,
    Right,
    Up,
    Down,
}

/// The pixel next to `p` in direction `d`, if its coordinates exist.
pub open spec fn moved(p: Pos, d: Direction) -> Option<Pos> {
    match d {
        Direction::Left => if p.0 > i32::MIN {
            Some(((p.0 - 1) as i32, p.1))
        } else {
            None
        },
        Direction::Right => if p.0 < i32::MAX {
            Some(((p.0 + 1) as i32, p.1))
        } else {
            None
        },
        Direction::Up => if p.1 > i32::MIN {
            Some((p.0, (p.1 - 1) as i32))
        } else {
            None
        },
        Direction::Down => if p.1 < i32::MAX {
            Some((p.0, (p.1 + 1) as i32))
        } else {
            None
        },
    }
}

/// The four directions in their fixed order: left, right, up, down.
pub open spec fn all_directions() -> Seq<Direction> {
    seq![Direction::Left, Direction::Right, Direction::Up, Direction::Down]
}

/// The order in which the directions of `pool` are drawn by `picks`: each
/// pick names a place in what is left of the pool, whose direction comes next
/// and leaves the pool. Where a pick is missing or names no place, the first
/// place is taken.
pub open spec fn drawn(pool: Seq<Direction>, picks: Seq<usize>) -> Seq<Direction>
    decreases pool.len(),
{
    if pool.len() == 0 {
        Seq::<Direction>::empty()
    } else {
        let n = if picks.len() > 0 && picks[0] < pool.len() {
            picks[0] as int
        } else {
            0
        };
        seq![pool[n]] + drawn(
            pool.remove(n),
            if picks.len() > 0 {
                picks.drop_first()
            } else {
                picks
            },
        )
    }
}

/// Every direction occurs in the order.
pub open spec fn covers_all(order: Seq<Direction>) -> bool {
    &&& order.contains(Direction::Left)
    &&& order.contains(Direction::Right)
    &&& order.contains(Direction::Up)
    &&& order.contains(Direction::Down)
}

/// Drawing from a pool gives every direction of the pool, and as many
/// directions as the pool holds.
pub proof fn lemma_drawn_covers(pool: Seq<Direction>, picks: Seq<usize>)
    ensures
        drawn(pool, picks).len() == pool.len(),
        forall|d: Direction| pool.contains(d) ==> #[trigger] drawn(pool, picks).contains(d),
    decreases pool.len(),
{
    if pool.len() > 0 {
        let n = if picks.len() > 0 && picks[0] < pool.len() {
            picks[0] as int
        } else {
            0
        };
        let rest = pool.remove(n);
        let later = if picks.len() > 0 {
            picks.drop_first()
        } else {
            picks
        };
        lemma_drawn_covers(rest, later);
        let out = drawn(pool, picks);
        assert(out == seq![pool[n]] + drawn(rest, later));
        assert forall|d: Direction| pool.contains(d) implies #[trigger] out.contains(d) by {
            let k = choose|k: int| 0 <= k < pool.len() && pool[k] == d;
            if k == n {
                assert(out[0] == d);
            } else {
                if k < n {
                    assert(rest[k] == d);
                } else {
                    assert(rest[k - 1] == d);
                }
                assert(rest.contains(d));
                assert(drawn(rest, later).contains(d));
                let m = choose|m: int|
                    0 <= m < drawn(rest, later).len() && drawn(rest, later)[m] == d;
                assert(out[m + 1] == d);
            }
        }
    }
}

/// Drawing from the four directions gives an order that holds them all.
pub proof fn lemma_drawn_all(picks: Seq<usize>)
    ensures
        drawn(all_directions(), picks).len() == 4,
        covers_all(drawn(all_directions(), picks)),
{
    lemma_drawn_covers(all_directions(), picks);
    assert(all_directions()[0] == Direction::Left);
    assert(all_directions()[1] == Direction::Right);
    assert(all_directions()[2] == Direction::Up);
    assert(all_directions()[3] == Direction::Down);
}

/// The first pixel, going through the directions in the given order, into
/// which the fill spreads from `p`.
pub open spec fn first_open(image: Seq<u8>, rule: FillRule, p: Pos, order: Seq<Direction>) -> Option<
    Pos,
>
    decreases order.len(),
{
    if order.len() == 0 {
        None
    } else {
        match moved(p, order[0]) {
            Some(q) if open_at(image, rule, q) => Some(q),
            _ => first_open(image, rule, p, order.drop_first()),
        }
    }
}

/// A pixel found by `first_open` is beside `p` and the fill spreads into it;
/// where none is found the fill spreads into no pixel in any direction of the
/// order.
pub proof fn lemma_first_open(image: Seq<u8>, rule: FillRule, p: Pos, order: Seq<Direction>)
    ensures
        match first_open(image, rule, p, order) {
            Some(q) => beside(p, q) && open_at(image, rule, q),
            None => forall|k: int|
                0 <= k < order.len() ==> match moved(p, #[trigger] order[k]) {
                    Some(q) => !open_at(image, rule, q),
                    None => true,
                },
        },
    decreases order.len(),
{
    if order.len() > 0 {
        let rest = order.drop_first();
        lemma_first_open(image, rule, p, rest);
        if first_open(image, rule, p, order).is_none() {
            assert forall|k: int| 0 <= k < order.len() implies match moved(p, #[trigger] order[k]) {
                Some(q) => !open_at(image, rule, q),
                None => true,
            } by {
                if k > 0 {
                    assert(order[k] == rest[k - 1]);
                }
            }
        }
    }
}

/// Where no pixel is found in an order that holds every direction, the fill
/// has nowhere left to go from `p`.
pub proof fn lemma_none_open(image: Seq<u8>, rule: FillRule, p: Pos, order: Seq<Direction>)
    requires
        covers_all(order),
        first_open(image, rule, p, order).is_none(),
    ensures
        enclosed(image, rule, p),
{
    lemma_first_open(image, rule, p, order);
    assert forall|q: Pos| beside(p, q) implies !#[trigger] open_at(image, rule, q) by {
        let d = if q.0 - p.0 == 1 {
            Direction::Right
        } else if p.0 - q.0 == 1 {
            Direction::Left
        } else if q.1 - p.1 == 1 {
            Direction::Down
        } else {
            Direction::Up
        };
        assert(moved(p, d) == Some(q));
        let k = choose|k: int| 0 <= k < order.len() && order[k] == d;
        assert(order[k] == d);
    }
}

/// The pixel next to `p` in direction `d`, if its coordinates exist.
pub fn step(p: Pos, d: Direction) -> (q: Option<Pos>)
    ensures
        q == moved(p, d),
{
    match d {
        Direction::Left => if p.0 > i32::MIN {
            Some((p.0 - 1, p.1))
        } else {
            None
        },
        Direction::Right => if p.0 < i32::MAX {
            Some((p.0 + 1, p.1))
        } else {
            None
        },
        Direction::Up => if p.1 > i32::MIN {
            Some((p.0, p.1 - 1))
        } else {
            None
        },
        Direction::Down => if p.1 < i32::MAX {
            Some((p.0, p.1 + 1))
        } else {
            None
        },
    }
}

/// The order in which the four directions are drawn by `picks`.
pub fn draw_order(picks: &Vec<usize>) -> (order: Vec<Direction>)
    ensures
        order@ == drawn(all_directions(), picks@),
        order@.len() == 4,
        covers_all(order@),
{
    let mut pool: Vec<Direction> = Vec::new();
    pool.push(Direction::Left);
    pool.push(Direction::Right);
    pool.push(Direction::Up);
    pool.push(Direction::Down);
    assert(pool@ =~= all_directions());
    let mut order: Vec<Direction> = Vec::new();
    let mut used: usize = 0;
    assert(picks@.skip(0) =~= picks@);
    assert(order@ + drawn(pool@, picks@) =~= drawn(pool@, picks@));
    while pool.len() > 0
        invariant
            used <= picks@.len(),
            order@ + drawn(pool@, picks@.skip(used as int)) == drawn(all_directions(), picks@),
        decreases pool.len(),
    {
        let ghost later = picks@.skip(used as int);
        let n: usize = if used < picks.len() && picks[used] < pool.len() {
            picks[used]
        } else {
            0
        };
        proof {
            if used < picks@.len() {
                assert(later[0] == picks@[used as int]);
                assert(later.drop_first() =~= picks@.skip(used + 1));
            }
            assert(later.len() > 0 <==> used < picks@.len());
        }
        let ghost before = pool@;
        let d = pool.remove(n);
        assert(pool@ == before.remove(n as int));
        let ghost grown = order@;
        order.push(d);
        if used < picks.len() {
            used += 1;
        }
        assert(order@ + drawn(pool@, picks@.skip(used as int)) =~= grown + drawn(before, later));
    }
    proof {
        lemma_drawn_all(picks@);
        assert(order@ =~= order@ + drawn(pool@, picks@.skip(used as int)));
    }
    order
}

/// The four directions in an order drawn at random.
pub fn shuffled_directions(rng: &mut StdRng) -> (order: Vec<Direction>)
    ensures
        order@.len() == 4,
        covers_all(order@),
{
    let mut picks: Vec<usize> = Vec::new();
    picks.push(pick_below(rng, 4));
    picks.push(pick_below(rng, 3));
    picks.push(pick_below(rng, 2));
    draw_order(&picks)
}

/// The first pixel, going through the directions in the given order, into
/// which the fill of `bucket` spreads from `p`.
pub fn expand(bucket: &BucketState, image: &Image, p: Pos, order: &Vec<Direction>) -> (found:
    Option<Pos>)
    requires
        image.wf(),
    ensures
        found == first_open(image.data@, bucket.rule(image), p, order@),
{
    let ghost rule = bucket.rule(image);
    let mut k: usize = 0;
    assert(order@.skip(0) =~= order@);
    while k < order.len()
        invariant
            k <= order.len(),
            image.wf(),
            rule == bucket.rule(image),
            first_open(image.data@, rule, p, order@) == first_open(
                image.data@,
                rule,
                p,
                order@.skip(k as int),
            ),
        decreases order.len() - k,
    {
        let ghost rest = order@.skip(k as int);
        assert(rest[0] == order@[k as int]);
        assert(rest.drop_first() =~= order@.skip(k + 1));
        if let Some(q) = step(p, order[k]) {
            if in_img_bounds(q, image.width, image.height) {
                let color = image.color_at_pos(q);
                if compare_color(color, bucket.target_color) && !compare_color(
                    color,
                    bucket.fill_color,
                ) {
                    return Some(q);
                }
            }
        }
        k += 1;
    }
    assert(order@.skip(k as int).len() == 0);
    None
}

/// The image and the frontier of a fill at one moment.
pub ghost struct Stage {
    pub image: Seq<u8>,
    pub alive: Set<Pos>,
}

/// `after` is one step of growth after `before`, whatever was drawn at
/// random:
/// - exactly the pixels of the frontier take the fill colour;
/// - a pixel that is new to the frontier is one that the fill spreads into,
///   beside a pixel of the old frontier;
/// - a pixel of the old frontier that stays has found a pixel beside it that
///   the fill spreads into, which is in the frontier now unless it was in it
///   before;
/// - a pixel of the old frontier that leaves has nowhere left to go.
pub open spec fn stepped(before: Stage, after: Stage, rule: FillRule) -> bool {
    &&& after.image.len() == before.image.len()
    &&& forall|p: Pos|
        in_bounds(p, rule.width, rule.height) ==> #[trigger] pixel(after.image, rule.width, p) == (
        if before.alive.contains(p) {
            rule.fill
        } else {
            pixel(before.image, rule.width, p)
        })
    &&& forall|q: Pos| #[trigger]
        after.alive.contains(q) && !before.alive.contains(q) ==> open_at(before.image, rule, q)
            && exists|p: Pos| before.alive.contains(p) && #[trigger] beside(p, q)
    &&& forall|p: Pos| #[trigger]
        before.alive.contains(p) ==> (if after.alive.contains(p) {
            found_way(before, after, rule, p)
        } else {
            enclosed(after.image, rule, p)
        })
}

/// Beside `p` lies a pixel that the fill spread into at this step: it is in
/// the frontier now, or was in it before.
pub open spec fn found_way(before: Stage, after: Stage, rule: FillRule, p: Pos) -> bool {
    exists|q: Pos| #[trigger]
        beside(p, q) && open_at(before.image, rule, q) && (after.alive.contains(q)
            || before.alive.contains(q))
}

/// `after` is `n` steps of growth after `before`.
pub open spec fn stepped_times(before: Stage, after: Stage, rule: FillRule, n: nat) -> bool
    decreases n,
{
    if n == 0 {
        after.image == before.image && after.alive == before.alive
    } else {
        exists|middle: Stage|
            stepped_times(before, middle, rule, (n - 1) as nat) && #[trigger] stepped(
                middle,
                after,
                rule,
            )
    }
}

/// One step of growth: every pixel of the frontier is coloured and spreads
/// into the first pixel, in an order of the directions drawn at random, into
/// which the fill spreads. A pixel that finds none leaves the frontier.
///
/// Whatever is drawn, the fill stays under way and no pixel comes back to be
/// coloured. A step from a frontier that is not empty either empties the
/// frontier or lowers what is left to do.
pub fn grow(bucket: &mut BucketState, image: &mut Image, rng: &mut StdRng)
    requires
        old(bucket).under_way(old(image)),
    ensures
        final(bucket).under_way(final(image)),
        final(bucket).same_fill(old(bucket)),
        final(image).width == old(image).width,
        final(image).height == old(image).height,
        open_total(final(image).data@, old(bucket).rule(old(image))) <= open_total(
            old(image).data@,
            old(bucket).rule(old(image)),
        ),
        old(bucket).alive_pixels@ == Set::<Pos>::empty() ==> final(image).data@ == old(image).data@,
        final(bucket).alive_pixels@ == Set::<Pos>::empty() || fill_measure(
            final(image).data@,
            old(bucket).rule(old(image)),
            final(bucket).alive_pixels@,
        ) < fill_measure(
            old(image).data@,
            old(bucket).rule(old(image)),
            old(bucket).alive_pixels@,
        ),
        stepped(
            Stage { image: old(image).data@, alive: old(bucket).alive_pixels@ },
            Stage { image: final(image).data@, alive: final(bucket).alive_pixels@ },
            old(bucket).rule(old(image)),
        ),
{
    let pixels = bucket.alive_pixels.pixels();
    let ghost before = bucket.data.unwrap()@;
    let ghost rule = bucket.rule(image);
    let ghost seed = bucket.seed;
    let ghost start = image.data@;
    let ghost alive0 = bucket.alive_pixels@;
    let ghost mut seen_open = false;
    let ghost mut grew: Option<Pos> = None;
    let mut k: usize = 0;
    while k < pixels.len()
        invariant
            k <= pixels.len(),
            pixels@.no_duplicates(),
            forall|p: Pos| pixels@.contains(p) <==> alive0.contains(p),
            image.wf(),
            image.width == old(image).width,
            image.height == old(image).height,
            rule == bucket.rule(image),
            rule == old(bucket).rule(old(image)),
            seed == bucket.seed,
            bucket.data.is_some(),
            bucket.data.unwrap()@ == before,
            bucket.same_fill(old(bucket)),
            growing(before, start, alive0, rule, seed),
            growing(before, image.data@, bucket.alive_pixels@, rule, seed),
            forall|m: int|
                k <= m < pixels.len() ==> bucket.alive_pixels@.contains(#[trigger] pixels@[m]),
            forall|p: Pos|
                in_bounds(p, rule.width, rule.height) ==> #[trigger] pixel(image.data@, rule.width, p)
                    == pixel(start, rule.width, p) || pixel(image.data@, rule.width, p) == rule.fill,
            forall|m: int|
                k <= m < pixels.len() ==> pixel(image.data@, rule.width, #[trigger] pixels@[m])
                    == pixel(start, rule.width, pixels@[m]),
            open_total(image.data@, rule) <= open_total(start, rule),
            seen_open ==> open_total(image.data@, rule) < open_total(start, rule),
            !seen_open ==> forall|m: int| 0 <= m < k ==> !open_at(start, rule, #[trigger] pixels@[m]),
            k == 0 ==> image.data@ == start,
            forall|m: int|
                0 <= m < k ==> pixel(image.data@, rule.width, #[trigger] pixels@[m]) == rule.fill,
            forall|p: Pos|
                in_bounds(p, rule.width, rule.height) && !pixels@.contains(p) ==> #[trigger] pixel(
                    image.data@,
                    rule.width,
                    p,
                ) == pixel(start, rule.width, p),
            forall|q: Pos| #[trigger]
                bucket.alive_pixels@.contains(q) && !alive0.contains(q) ==> open_at(start, rule, q)
                    && exists|p: Pos| alive0.contains(p) && #[trigger] beside(p, q),
            forall|m: int|
                0 <= m < k && bucket.alive_pixels@.contains(#[trigger] pixels@[m]) ==> found_way(
                    Stage { image: start, alive: alive0 },
                    Stage { image: image.data@, alive: bucket.alive_pixels@ },
                    rule,
                    pixels@[m],
                ),
            match grew {
                Some(n) => !has_open(start, rule, alive0) ==> bucket.alive_pixels@.contains(n)
                    && open_at(image.data@, rule, n) && !pixels@.contains(n),
                None => forall|p: Pos| #[trigger]
                    bucket.alive_pixels@.contains(p) ==> exists|m: int|
                        k <= m < pixels.len() && pixels@[m] == p,
            },
        decreases pixels.len() - k,
    {
        let p = pixels[k];
        let ghost prev = image.data@;
        let ghost alive = bucket.alive_pixels@;
        proof {
            assert(pixels@.contains(p));
            assert(alive0.contains(p));
            lemma_grow_paint(before, prev, alive, rule, seed, p);
            lemma_with_pixel(prev, rule.width, rule.height, p, rule.fill);
            lemma_total_after_fill(prev, rule, p);
            if open_at(start, rule, p) {
                assert(pixel(prev, rule.width, p) == pixel(start, rule.width, p));
                seen_open = true;
            }
        }
        image.paint(p, bucket.fill_color);
        let ghost now = image.data@;
        let order = shuffled_directions(rng);
        let found = expand(bucket, image, p, &order);
        proof {
            lemma_first_open(now, rule, p, order@);
            assert forall|m: int| k < m < pixels.len() implies pixel(
                now,
                rule.width,
                #[trigger] pixels@[m],
            ) == pixel(start, rule.width, pixels@[m]) by {
                assert(pixels@[m] != p);
                assert(alive0.contains(pixels@[m]));
            }
            match grew {
                Some(n) => {
                    if !has_open(start, rule, alive0) {
                        assert(n != p);
                    }
                },
                None => {},
            }
        }
        proof {
            assert forall|m: int| 0 <= m < k implies pixel(now, rule.width, #[trigger] pixels@[m])
                == rule.fill by {
                assert(pixels@[m] != p);
                assert(alive0.contains(pixels@[m]));
            }
        }
        let ghost was = Stage { image: start, alive: alive0 };
        match found {
            Some(q) => {
                proof {
                    lemma_grow_admit(before, now, alive, rule, seed, p, q);
                    assert(pixel(now, rule.width, q) == pixel(start, rule.width, q));
                    assert(open_at(start, rule, q));
                    assert(beside(p, q));
                    let more = alive.insert(q);
                    assert forall|m: int|
                        0 <= m < k + 1 && more.contains(#[trigger] pixels@[m]) implies found_way(
                        was,
                        Stage { image: now, alive: more },
                        rule,
                        pixels@[m],
                    ) by {
                        if m < k {
                            let r = pixels@[m];
                            assert(alive.contains(r));
                            assert(found_way(was, Stage { image: prev, alive: alive }, rule, r));
                            let t = choose|t: Pos| #[trigger]
                                beside(r, t) && open_at(start, rule, t) && (alive.contains(t)
                                    || alive0.contains(t));
                            assert(beside(r, t) && (more.contains(t) || alive0.contains(t)));
                        } else {
                            assert(beside(p, q) && more.contains(q));
                        }
                    }
                    if !has_open(start, rule, alive0) {
                        assert(pixel(now, rule.width, q) == pixel(start, rule.width, q));
                        assert(open_at(start, rule, q));
                        assert(!alive0.contains(q));
                    }
                    grew = Some(q);
                }
                bucket.alive_pixels.insert(q);
            },
            None => {
                proof {
                    lemma_none_open(now, rule, p, order@);
                    lemma_grow_retire(before, now, alive, rule, seed, p);
                    let fewer = alive.remove(p);
                    assert forall|m: int|
                        0 <= m < k + 1 && fewer.contains(#[trigger] pixels@[m]) implies found_way(
                        was,
                        Stage { image: now, alive: fewer },
                        rule,
                        pixels@[m],
                    ) by {
                        let r = pixels@[m];
                        assert(m < k);
                        assert(alive.contains(r));
                        assert(found_way(was, Stage { image: prev, alive: alive }, rule, r));
                        let t = choose|t: Pos| #[trigger]
                            beside(r, t) && open_at(start, rule, t) && (alive.contains(t)
                                || alive0.contains(t));
                        if t == p {
                            assert(alive0.contains(t));
                        }
                        assert(beside(r, t) && (fewer.contains(t) || alive0.contains(t)));
                    }
                }
                bucket.alive_pixels.remove(p);
                proof {
                    if grew.is_none() {
                        assert forall|r: Pos| #[trigger]
                            bucket.alive_pixels@.contains(r) implies exists|m: int|
                            k + 1 <= m < pixels.len() && pixels@[m] == r by {
                            assert(alive.contains(r));
                            let m = choose|m: int| k <= m < pixels.len() && pixels@[m] == r;
                            assert(m != k);
                        }
                    }
                }
            },
        }
        k += 1;
    }
    proof {
        if has_open(start, rule, alive0) {
            let p = choose|p: Pos| alive0.contains(p) && #[trigger] open_at(start, rule, p);
            assert(pixels@.contains(p));
            let m = choose|m: int| 0 <= m < pixels@.len() && pixels@[m] == p;
            assert(pixels@[m] == p);
            assert(seen_open);
        } else {
            match grew {
                Some(n) => {
                    assert(has_open(image.data@, rule, bucket.alive_pixels@));
                },
                None => {
                    assert(bucket.alive_pixels@ =~= Set::<Pos>::empty());
                },
            }
        }
        if alive0 == Set::<Pos>::empty() {
            if pixels.len() > 0 {
                assert(pixels@.contains(pixels@[0]));
            }
        }
        let was = Stage { image: start, alive: alive0 };
        let end = Stage { image: image.data@, alive: bucket.alive_pixels@ };
        assert forall|p: Pos| in_bounds(p, rule.width, rule.height) implies #[trigger] pixel(
            end.image,
            rule.width,
            p,
        ) == (if alive0.contains(p) {
            rule.fill
        } else {
            pixel(start, rule.width, p)
        }) by {
            if alive0.contains(p) {
                assert(pixels@.contains(p));
                let m = choose|m: int| 0 <= m < pixels@.len() && pixels@[m] == p;
                assert(pixels@[m] == p);
            } else {
                assert(!pixels@.contains(p));
            }
        }
        assert forall|p: Pos| #[trigger] alive0.contains(p) implies (if end.alive.contains(p) {
            found_way(was, end, rule, p)
        } else {
            enclosed(end.image, rule, p)
        }) by {
            assert(pixels@.contains(p));
            let m = choose|m: int| 0 <= m < pixels@.len() && pixels@[m] == p;
            assert(pixels@[m] == p);
            if !end.alive.contains(p) {
                assert(pixel(end.image, rule.width, p) == rule.fill);
            }
        }
    }
}

/// How much faster a fill grows for every second that it has been growing.
pub const RAMP: u32 = 50;

/// Number of growth steps for a tick of `delta_ms` milliseconds: the frame
/// time in milliseconds, times the speed, times a ramp that starts at one and
/// grows by `RAMP` for every second that the fill has been under way, rounded
/// down. The speed is in thousandths, the elapsed time in milliseconds.
pub open spec fn budget(delta_ms: u32, speed: u32, elapsed: u32) -> int {
    (delta_ms * speed * (1000 + RAMP * elapsed)) / 1_000_000
}

/// Number of growth steps for a tick of `delta_ms` milliseconds.
pub fn fill_budget(delta_ms: u32, speed: u32, elapsed: u32) -> (times: u128)
    ensures
        times == budget(delta_ms, speed, elapsed),
{
    assert(RAMP * elapsed <= 50 * 0xffff_ffff) by (nonlinear_arith)
        requires
            RAMP == 50,
            elapsed <= 0xffff_ffff,
    ;
    let ramp: u128 = 1000 + RAMP as u128 * elapsed as u128;
    assert(delta_ms * speed * ramp <= 0xffff_ffff * 0xffff_ffff * ramp) by (nonlinear_arith)
        requires
            delta_ms <= 0xffff_ffff,
            speed <= 0xffff_ffff,
            0 <= ramp,
    ;
    assert(0 <= delta_ms * speed <= 0xffff_ffff * 0xffff_ffff) by (nonlinear_arith)
        requires
            delta_ms <= 0xffff_ffff,
            speed <= 0xffff_ffff,
    ;
    assert(0xffff_ffff * 0xffff_ffff * ramp <= 0xffff_ffff * 0xffff_ffff * 0x40_0000_0000)
        by (nonlinear_arith)
        requires
            ramp <= 0x40_0000_0000,
    ;
    let product: u128 = delta_ms as u128 * speed as u128 * ramp;
    product / 1_000_000
}

/// The elapsed time after a tick: it stops at the largest value that fits.
pub open spec fn later(elapsed: u32, delta_ms: u32) -> u32 {
    if elapsed + delta_ms > u32::MAX {
        u32::MAX
    } else {
        (elapsed + delta_ms) as u32
    }
}

/// One tick of a fill under way: as many growth steps as the tick's budget
/// allows, fewer if the frontier runs empty first, in which case the tool goes
/// idle. The elapsed time grows by the tick's length after the budget is
/// taken.
///
/// Whatever is drawn at random, the tick is as many steps of growth as the
/// budget says, or fewer that end with an empty frontier; a pixel changes to
/// the fill colour or not at all; and the fill stays under way. Once the
/// frontier is empty, exactly the pixels that the fill reaches from the seed
/// hold the fill colour and every other pixel is as it was when the fill
/// began. A budget above what is left to do ends the fill within the tick.
pub fn canvas_fill(
    bucket: &mut BucketState,
    image: &mut Image,
    rng: &mut StdRng,
    delta_ms: u32,
) -> (next: ToolState)
    requires
        old(bucket).under_way(old(image)),
    ensures
        final(bucket).under_way(final(image)),
        final(bucket).snapshot() == old(bucket).snapshot(),
        final(bucket).fill_color == old(bucket).fill_color,
        final(bucket).target_color == old(bucket).target_color,
        final(bucket).seed == old(bucket).seed,
        final(bucket).speed == old(bucket).speed,
        final(bucket).elapsed == later(old(bucket).elapsed, delta_ms),
        final(image).width == old(image).width,
        final(image).height == old(image).height,
        open_total(final(image).data@, old(bucket).rule(old(image))) <= open_total(
            old(image).data@,
            old(bucket).rule(old(image)),
        ),
        next == (if budget(delta_ms, old(bucket).speed, old(bucket).elapsed) > 0
            && final(bucket).alive_pixels@ == Set::<Pos>::empty() {
            ToolState::Idle
        } else {
            ToolState::Filling
        }),
        final(bucket).alive_pixels@ == Set::<Pos>::empty() ==> flooded(
            old(bucket).data.unwrap()@,
            final(image).data@,
            old(bucket).rule(old(image)),
            old(bucket).seed,
        ),
        budget(delta_ms, old(bucket).speed, old(bucket).elapsed) == 0 ==> final(image).data@
            == old(image).data@ && final(bucket).alive_pixels@ == old(bucket).alive_pixels@,
        budget(delta_ms, old(bucket).speed, old(bucket).elapsed) > fill_measure(
            old(image).data@,
            old(bucket).rule(old(image)),
            old(bucket).alive_pixels@,
        ) ==> next == ToolState::Idle,
        next == ToolState::Filling ==> fill_measure(
            final(image).data@,
            old(bucket).rule(old(image)),
            final(bucket).alive_pixels@,
        ) + budget(delta_ms, old(bucket).speed, old(bucket).elapsed) <= fill_measure(
            old(image).data@,
            old(bucket).rule(old(image)),
            old(bucket).alive_pixels@,
        ),
        exists|steps: nat|
            steps <= budget(delta_ms, old(bucket).speed, old(bucket).elapsed) && (steps == budget(
                delta_ms,
                old(bucket).speed,
                old(bucket).elapsed,
            ) || final(bucket).alive_pixels@ == Set::<Pos>::empty()) && #[trigger] stepped_times(
                Stage { image: old(image).data@, alive: old(bucket).alive_pixels@ },
                Stage { image: final(image).data@, alive: final(bucket).alive_pixels@ },
                old(bucket).rule(old(image)),
                steps,
            ),
        forall|p: Pos|
            in_bounds(p, old(image).width, old(image).height) ==> #[trigger] pixel(
                final(image).data@,
                old(image).width,
                p,
            ) == pixel(old(image).data@, old(image).width, p) || pixel(
                final(image).data@,
                old(image).width,
                p,
            ) == old(bucket).fill_color,
{
    let times = fill_budget(delta_ms, bucket.speed, bucket.elapsed);
    bucket.elapsed = if bucket.elapsed > u32::MAX - delta_ms {
        u32::MAX
    } else {
        bucket.elapsed + delta_ms
    };
    let ghost rule = bucket.rule(image);
    let ghost before = bucket.data.unwrap()@;
    let ghost start = fill_measure(image.data@, rule, bucket.alive_pixels@);
    let ghost first = Stage { image: image.data@, alive: bucket.alive_pixels@ };
    let mut done: u128 = 0;
    let mut next = ToolState::Filling;
    while done < times
        invariant_except_break
            fill_measure(image.data@, rule, bucket.alive_pixels@) + done <= start,
            next == ToolState::Filling,
            done > 0 ==> bucket.alive_pixels@ != Set::<Pos>::empty(),
            done == 0 ==> image.data@ == old(image).data@,
            done == 0 ==> bucket.alive_pixels@ == old(bucket).alive_pixels@,
        invariant
            done <= times,
            first == (Stage { image: old(image).data@, alive: old(bucket).alive_pixels@ }),
            stepped_times(
                first,
                Stage { image: image.data@, alive: bucket.alive_pixels@ },
                rule,
                done as nat,
            ),
            forall|p: Pos|
                in_bounds(p, rule.width, rule.height) ==> #[trigger] pixel(
                    image.data@,
                    rule.width,
                    p,
                ) == pixel(first.image, rule.width, p) || pixel(image.data@, rule.width, p)
                    == rule.fill,
            bucket.under_way(image),
            rule == bucket.rule(image),
            rule == old(bucket).rule(old(image)),
            bucket.snapshot() == old(bucket).snapshot(),
            bucket.data.unwrap()@ == before,
            bucket.fill_color == old(bucket).fill_color,
            bucket.target_color == old(bucket).target_color,
            bucket.seed == old(bucket).seed,
            bucket.speed == old(bucket).speed,
            bucket.elapsed == later(old(bucket).elapsed, delta_ms),
            image.width == old(image).width,
            image.height == old(image).height,
            open_total(image.data@, rule) <= open_total(old(image).data@, rule),
        ensures
            stepped_times(
                first,
                Stage { image: image.data@, alive: bucket.alive_pixels@ },
                rule,
                done as nat,
            ),
            done <= times,
            done == times || bucket.alive_pixels@ == Set::<Pos>::empty(),
            forall|p: Pos|
                in_bounds(p, rule.width, rule.height) ==> #[trigger] pixel(
                    image.data@,
                    rule.width,
                    p,
                ) == pixel(first.image, rule.width, p) || pixel(image.data@, rule.width, p)
                    == rule.fill,
            bucket.under_way(image),
            bucket.snapshot() == old(bucket).snapshot(),
            bucket.data.unwrap()@ == before,
            bucket.fill_color == old(bucket).fill_color,
            bucket.target_color == old(bucket).target_color,
            bucket.seed == old(bucket).seed,
            bucket.speed == old(bucket).speed,
            bucket.elapsed == later(old(bucket).elapsed, delta_ms),
            image.width == old(image).width,
            image.height == old(image).height,
            rule == bucket.rule(image),
            open_total(image.data@, rule) <= open_total(old(image).data@, rule),
            next == ToolState::Idle ==> times > 0 && bucket.alive_pixels@ == Set::<Pos>::empty(),
            next == ToolState::Idle || next == ToolState::Filling,
            next == ToolState::Filling ==> fill_measure(image.data@, rule, bucket.alive_pixels@)
                + times <= start && (times > 0 ==> bucket.alive_pixels@ != Set::<Pos>::empty()),
            times == 0 ==> image.data@ == old(image).data@,
            times == 0 ==> bucket.alive_pixels@ == old(bucket).alive_pixels@,
        decreases times - done,
    {
        let ghost middle = Stage { image: image.data@, alive: bucket.alive_pixels@ };
        grow(bucket, image, rng);
        done += 1;
        proof {
            let now = Stage { image: image.data@, alive: bucket.alive_pixels@ };
            assert(stepped(middle, now, rule));
            assert(stepped_times(first, middle, rule, (done - 1) as nat));
        }
        if bucket.alive_pixels.is_empty() {
            next = ToolState::Idle;
            break;
        }
    }
    proof {
        if bucket.alive_pixels@ == Set::<Pos>::empty() {
            lemma_grow_done(before, image.data@, rule, bucket.seed);
        }
    }
    next
}

/// Why a fill cannot be made.
#[derive(Clone, Copy, Debug, PartialEq, Eq, Structural)]
pub enum FillError {
    /// The speed is zero: the fill would never grow.
    SpeedNotPositive,
}

/// The operation that begins a fill in a colour.
pub struct Fill {
    /// The image bytes from before the fill, or the bytes that an undo put
    /// aside. They count only once the fill has begun.
    pub buffer: Vec<u8>,
    pub color: Rgba,
    /// Growth steps per millisecond of frame time, in thousandths, before the
    /// ramp.
    pub speed: u32,
    /// Whether the fill has begun, and so holds image bytes.
    pub began: bool,
}

impl Fill {
    /// The image bytes that the fill holds: none before it has begun.
    pub open spec fn held(&self) -> Option<Seq<u8>> {
        if self.began {
            Some(self.buffer@)
        } else {
            None
        }
    }

    /// A fill in `color` at `speed`, which must not be zero. It has not
    /// begun.
    pub fn new(color: Rgba, speed: u32) -> (made: Result<Fill, FillError>)
        ensures
            match made {
                Ok(fill) => speed > 0 && fill.color == color && fill.speed == speed
                    && fill.buffer@.len() == 0 && !fill.began,
                Err(error) => speed == 0 && error == FillError::SpeedNotPositive,
            },
    {
        if speed == 0 {
            return Err(FillError::SpeedNotPositive);
        }
        Ok(Fill { buffer: Vec::new(), color, speed, began: false })
    }

    pub fn name(&self) -> (name: &'static str)
        ensures
            name@ == "Fill"@,
    {
        "Fill"
    }

    /// Begins the fill at the pixel under the cursor: the image as it is
    /// becomes the snapshot, the pixel is the seed and alone in the frontier,
    /// and the tool fills. With the cursor outside the canvas nothing
    /// happens: the fill has not begun, and holds what it held.
    pub fn process(&mut self, world: &mut World)
        requires
            old(world).wf(),
        ensures
            final(world).wf(),
            final(world).same_frame(old(world)),
            final(self).color == old(self).color,
            final(self).speed == old(self).speed,
            match old(world).canvas.cursor_position {
                Ok(_) => final(self).began && final(self).buffer@ == old(world).image.data@,
                Err(_) => final(self).began == old(self).began && final(self).buffer@ == old(self).buffer@,
            },
            final(world).scene() == filling_begun(
                old(world).scene(),
                old(world).canvas,
                old(self).color,
                old(self).speed,
            ),
            old(world).canvas.cursor_position.is_ok() ==> final(world).bucket.under_way(
                &final(world).image,
            ),
    {
        if let Ok(pos) = world.canvas.cursor_position {
            self.buffer = copy_bytes(&world.image.data);
            self.began = true;
            world.state = ToolState::Filling;
            world.bucket.alive_pixels = Frontier::from_seed(pos);
            world.bucket.target_color = world.image.color_at_pos(pos);
            world.bucket.fill_color = self.color;
            world.bucket.speed = self.speed;
            world.bucket.elapsed = 0;
            world.bucket.seed = pos;
            world.bucket.data = Some(copy_bytes(&world.image.data));
            proof {
                crate::region::lemma_grow_start(
                    world.image.data@,
                    world.bucket.rule(&world.image),
                    pos,
                );
            }
        }
    }

    /// Undoes the fill by exchanging the held bytes with the image's. A fill
    /// that never began exchanges nothing.
    pub fn undo(&mut self, world: &mut World)
        requires
            old(self).began ==> old(self).buffer@.len() == old(world).image.data@.len(),
        ensures
            final(self).color == old(self).color,
            final(self).speed == old(self).speed,
            final(self).began == old(self).began,
            final(self).buffer@ == (if old(self).began {
                old(world).image.data@
            } else {
                old(self).buffer@
            }),
            final(world).image.data@ == (if old(self).began {
                old(self).buffer@
            } else {
                old(world).image.data@
            }),
            final(world).image.width == old(world).image.width,
            final(world).image.height == old(world).image.height,
            final(world).same_frame(old(world)),
            final(world).scene() == (Scene {
                live: final(world).image.data@,
                ..old(world).scene()
            }),
            old(world).wf() ==> final(world).wf(),
    {
        if self.began {
            std::mem::swap(&mut self.buffer, &mut world.image.data);
        }
    }

    /// Cancels the fill: the image gets back the held bytes, if the fill has
    /// begun, the frontier is emptied and the tool goes idle.
    pub fn cancel(&mut self, world: &mut World)
        requires
            old(self).began ==> old(self).buffer@.len() == old(world).image.data@.len(),
        ensures
            final(self).color == old(self).color,
            final(self).speed == old(self).speed,
            final(self).began == old(self).began,
            final(self).buffer@ == (if old(self).began {
                old(world).image.data@
            } else {
                old(self).buffer@
            }),
            final(world).image.data@ == (if old(self).began {
                old(self).buffer@
            } else {
                old(world).image.data@
            }),
            final(world).same_frame(old(world)),
            final(world).image.width == old(world).image.width,
            final(world).image.height == old(world).image.height,
            old(world).wf() ==> final(world).wf(),
            final(world).scene() == (Scene {
                live: final(world).image.data@,
                state: ToolState::Idle,
                bucket: crate::tools::bucket::BucketView {
                    alive: Set::<Pos>::empty(),
                    ..old(world).scene().bucket
                },
                ..old(world).scene()
            }),
    {
        if self.began {
            std::mem::swap(&mut self.buffer, &mut world.image.data);
        }
        world.bucket.alive_pixels = Frontier::new();
        world.state = ToolState::Idle;
    }

    /// Redoes the fill by exchanging the held bytes with the image's. A fill
    /// that never began exchanges nothing.
    pub fn redo(&mut self, world: &mut World)
        requires
            old(self).began ==> old(self).buffer@.len() == old(world).image.data@.len(),
        ensures
            final(self).color == old(self).color,
            final(self).speed == old(self).speed,
            final(self).began == old(self).began,
            final(self).buffer@ == (if old(self).began {
                old(world).image.data@
            } else {
                old(self).buffer@
            }),
            final(world).image.data@ == (if old(self).began {
                old(self).buffer@
            } else {
                old(world).image.data@
            }),
            final(world).image.width == old(world).image.width,
            final(world).image.height == old(world).image.height,
            final(world).same_frame(old(world)),
            final(world).scene() == (Scene {
                live: final(world).image.data@,
                ..old(world).scene()
            }),
            old(world).wf() ==> final(world).wf(),
    {
        self.undo(world)
    }
}

} // verus!
