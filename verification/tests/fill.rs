use rand::rngs::StdRng;
use rand::SeedableRng;
use sprinkle::canvas::Canvas;
use sprinkle::commands::fill::Direction::{Down, Left, Right, Up};
use sprinkle::commands::fill::{
    canvas_fill, draw_order, expand, fill_budget, grow, shuffled_directions, step, Direction, Fill,
    FillError, RAMP,
};
use sprinkle::commands::World;
use sprinkle::buffer::setup_buffer;
use sprinkle::frontier::Frontier;
use sprinkle::history::History;
use sprinkle::pixels::{image, Image, Rgba};
use sprinkle::tools::bucket::{push_around, start_filling, stop_filling, BucketState};
use sprinkle::tools::{BrushState, ToolState};

const GREY: Rgba = Rgba { r: 10, g: 10, b: 10, a: 255 };
const RED: Rgba = Rgba { r: 200, g: 0, b: 0, a: 255 };
const WALL: Rgba = Rgba { r: 0, g: 0, b: 90, a: 255 };

fn world(width: u32, height: u32, color: Rgba, cursor: Result<(i32, i32), (i32, i32)>) -> World {
    let mut canvas = Canvas::new(width, height);
    canvas.cursor_position = cursor;
    let mut buffer = setup_buffer();
    buffer.clear(width, height);
    World {
        canvas,
        image: image(width, height, color),
        brush: BrushState::default(),
        bucket: BucketState::default(),
        buffer,
        state: ToolState::Idle,
    }
}

/// A 5 by 4 image: a wall in column 2 with a gap at the bottom row, and a
/// pixel that is walled in at the top right corner.
fn walled() -> Image {
    let mut img = image(5, 4, GREY);
    for y in 0..3 {
        img.paint((2, y), WALL);
    }
    img.paint((3, 1), WALL);
    img.paint((4, 1), WALL);
    img.paint((3, 0), WALL);
    img
}

#[test]
fn fill_completes_within_one_tick() {
    let mut w = world(4, 4, GREY, Ok((0, 0)));
    let mut fill = Fill::new(RED, 1000).unwrap();
    fill.process(&mut w);
    assert_eq!(w.state, ToolState::Filling);
    assert_eq!(w.bucket.target_color, GREY);
    assert_eq!(w.bucket.fill_color, RED);
    assert_eq!(w.bucket.alive_pixels.pixels(), vec![(0, 0)]);
    assert_eq!(fill.buffer, image(4, 4, GREY).data);
    let mut rng = StdRng::seed_from_u64(1);
    w.state = canvas_fill(&mut w.bucket, &mut w.image, &mut rng, 100);
    assert_eq!(w.state, ToolState::Idle);
    assert!(w.bucket.alive_pixels.is_empty());
    assert_eq!(w.image.data, image(4, 4, RED).data);
    assert_eq!(w.bucket.elapsed, 100);
}

#[test]
fn fill_ends_the_same_whatever_is_drawn() {
    for seed in 0..20u64 {
        let mut bucket = BucketState::default();
        let mut img = walled();
        bucket.data = Some(img.data.clone());
        bucket.target_color = GREY;
        bucket.fill_color = RED;
        bucket.seed = (0, 0);
        bucket.alive_pixels = Frontier::from_seed((0, 0));
        bucket.speed = 1000;
        let mut rng = StdRng::seed_from_u64(seed);
        let mut ticks = 0;
        while canvas_fill(&mut bucket, &mut img, &mut rng, 1) != ToolState::Idle {
            ticks += 1;
            assert!(ticks < 1000);
        }
        let before = walled();
        for y in 0..4 {
            for x in 0..5 {
                let was = before.color_at_pos((x, y));
                let expected = if was == WALL {
                    WALL
                } else if (x, y) == (4, 0) {
                    GREY
                } else {
                    RED
                };
                assert_eq!(img.color_at_pos((x, y)), expected, "pixel {:?}", (x, y));
            }
        }
    }
}

#[test]
fn fill_spans_several_ticks() {
    let mut w = world(16, 16, GREY, Ok((8, 8)));
    let mut fill = Fill::new(RED, 10).unwrap();
    fill.process(&mut w);
    let mut rng = StdRng::seed_from_u64(3);
    // 100 ms at a hundredth of a step per millisecond: one step.
    assert_eq!(canvas_fill(&mut w.bucket, &mut w.image, &mut rng, 100), ToolState::Filling);
    assert_eq!(w.image.color_at_pos((8, 8)), RED);
    assert_eq!(w.bucket.alive_pixels.len(), 2);
    assert_eq!(w.bucket.elapsed, 100);
    let mut ticks = 0;
    while canvas_fill(&mut w.bucket, &mut w.image, &mut rng, 100) != ToolState::Idle {
        ticks += 1;
        assert!(ticks < 10_000);
    }
    assert_eq!(w.image.data, image(16, 16, RED).data);
    assert_eq!(w.bucket.alive_pixels.len(), 0);
}

#[test]
fn tick_without_budget_changes_nothing() {
    let mut w = world(4, 4, GREY, Ok((1, 1)));
    let mut fill = Fill::new(RED, 1).unwrap();
    fill.process(&mut w);
    let mut rng = StdRng::seed_from_u64(3);
    assert_eq!(fill_budget(100, 1, 0), 0);
    assert_eq!(canvas_fill(&mut w.bucket, &mut w.image, &mut rng, 100), ToolState::Filling);
    assert_eq!(w.image.data, image(4, 4, GREY).data);
    assert_eq!(w.bucket.alive_pixels.pixels(), vec![(1, 1)]);
    assert_eq!(w.bucket.elapsed, 100);
}

#[test]
fn elapsed_time_saturates() {
    let mut w = world(2, 2, GREY, Ok((1, 1)));
    let mut fill = Fill::new(RED, 1).unwrap();
    fill.process(&mut w);
    w.bucket.elapsed = u32::MAX - 5;
    let mut rng = StdRng::seed_from_u64(3);
    canvas_fill(&mut w.bucket, &mut w.image, &mut rng, 100);
    assert_eq!(w.bucket.elapsed, u32::MAX);
}

#[test]
fn budget_ramps_up_with_elapsed_time() {
    assert_eq!(RAMP, 50);
    assert_eq!(fill_budget(100, 500, 0), 50);
    assert_eq!(fill_budget(100, 500, 1000), 2550);
    assert_eq!(fill_budget(16, 500, 0), 8);
    assert_eq!(fill_budget(16, 500, 30), 20);
    assert_eq!(fill_budget(3, 333, 0), 0);
    assert_eq!(fill_budget(0, 500, 1000), 0);
    assert_eq!(
        fill_budget(u32::MAX, u32::MAX, u32::MAX),
        (u32::MAX as u128) * (u32::MAX as u128) * (1000 + 50 * (u32::MAX as u128)) / 1_000_000
    );
}

#[test]
fn speed_must_be_positive() {
    assert!(matches!(Fill::new(RED, 0), Err(FillError::SpeedNotPositive)));
    let fill = Fill::new(RED, 1).unwrap();
    assert_eq!(fill.speed, 1);
    assert_eq!(fill.color, RED);
    assert!(fill.buffer.is_empty());
    assert!(!fill.began);
    assert_eq!(fill.name(), "Fill");
}

#[test]
fn fill_with_cursor_outside_does_not_start() {
    let mut w = world(4, 4, GREY, Err((9, 9)));
    let mut fill = Fill::new(RED, 1000).unwrap();
    fill.buffer = vec![7, 7, 7];
    fill.process(&mut w);
    assert_eq!(w.state, ToolState::Idle);
    assert!(w.bucket.alive_pixels.is_empty());
    assert!(w.bucket.data.is_none());
    assert_eq!(w.bucket.elapsed, 0);
    assert_eq!(w.bucket.speed, 0);
    assert_eq!(w.image.data, image(4, 4, GREY).data);
    assert_eq!(fill.buffer, vec![7, 7, 7]);
    assert!(!fill.began);
    // Undoing, redoing or cancelling a fill that never began exchanges
    // nothing.
    fill.undo(&mut w);
    assert_eq!(w.image.data, image(4, 4, GREY).data);
    assert_eq!(fill.buffer, vec![7, 7, 7]);
    fill.redo(&mut w);
    assert_eq!(w.image.data, image(4, 4, GREY).data);
    fill.cancel(&mut w);
    assert_eq!(w.image.data, image(4, 4, GREY).data);
    assert_eq!(fill.buffer, vec![7, 7, 7]);
}

#[test]
fn a_budget_of_one_step_paints_the_seed_only() {
    for seed in 0..10u64 {
        let mut w = world(4, 4, GREY, Ok((0, 0)));
        let mut fill = Fill::new(RED, 500).unwrap();
        fill.process(&mut w);
        assert!(fill.began);
        assert_eq!(fill_budget(2, 500, 0), 1);
        let mut rng = StdRng::seed_from_u64(seed);
        assert_eq!(canvas_fill(&mut w.bucket, &mut w.image, &mut rng, 2), ToolState::Filling);
        let mut expected = image(4, 4, GREY);
        expected.paint((0, 0), RED);
        assert_eq!(w.image.data, expected.data);
        let mut alive = w.bucket.alive_pixels.pixels();
        alive.sort();
        assert!(alive == vec![(0, 0), (0, 1)] || alive == vec![(0, 0), (1, 0)]);
        assert_eq!(w.bucket.elapsed, 2);
    }
}

#[test]
fn filled_pixels_stay_filled_and_others_change_to_the_fill_only() {
    let mut w = world(6, 6, GREY, Ok((3, 3)));
    let mut fill = Fill::new(RED, 100).unwrap();
    fill.process(&mut w);
    let mut rng = StdRng::seed_from_u64(8);
    let mut before = w.image.data.clone();
    let mut ticks = 0;
    loop {
        let state = canvas_fill(&mut w.bucket, &mut w.image, &mut rng, 20);
        for (old, new) in before.chunks(4).zip(w.image.data.chunks(4)) {
            assert!(old == new || new == [200, 0, 0, 255]);
            assert!(old != [200, 0, 0, 255] || new == [200, 0, 0, 255]);
        }
        for pos in w.bucket.alive_pixels.pixels() {
            assert!(w.canvas.in_bounds(pos));
        }
        before = w.image.data.clone();
        ticks += 1;
        assert!(ticks < 1000);
        if state == ToolState::Idle {
            break;
        }
    }
    assert_eq!(w.image.data, image(6, 6, RED).data);
}

#[test]
fn fill_undo_and_redo_swap_whole_buffers() {
    let mut w = world(4, 4, GREY, Ok((0, 0)));
    let mut fill = Fill::new(RED, 1000).unwrap();
    fill.process(&mut w);
    let mut rng = StdRng::seed_from_u64(9);
    canvas_fill(&mut w.bucket, &mut w.image, &mut rng, 100);
    fill.undo(&mut w);
    assert_eq!(w.image.data, image(4, 4, GREY).data);
    fill.redo(&mut w);
    assert_eq!(w.image.data, image(4, 4, RED).data);
}

#[test]
fn directions_are_drawn_without_replacement() {
    assert_eq!(draw_order(&vec![0, 0, 0]), vec![Left, Right, Up, Down]);
    assert_eq!(draw_order(&vec![3, 0, 1]), vec![Down, Left, Up, Right]);
    assert_eq!(draw_order(&vec![1, 2, 0]), vec![Right, Down, Left, Up]);
    assert_eq!(draw_order(&vec![3, 2, 1]), vec![Down, Up, Right, Left]);
    assert_eq!(draw_order(&vec![]), vec![Left, Right, Up, Down]);
    assert_eq!(draw_order(&vec![9, 9, 9, 9]), vec![Left, Right, Up, Down]);
    assert_eq!(draw_order(&vec![2]), vec![Up, Left, Right, Down]);
}

#[test]
fn shuffles_hold_every_direction_and_vary() {
    let mut rng = StdRng::seed_from_u64(42);
    let mut seen = Vec::new();
    for _ in 0..200 {
        let order = shuffled_directions(&mut rng);
        assert_eq!(order.len(), 4);
        for d in [Direction::Left, Direction::Right, Direction::Up, Direction::Down] {
            assert!(order.contains(&d));
        }
        if !seen.contains(&order) {
            seen.push(order);
        }
    }
    assert!(seen.len() > 12);
}

#[test]
fn steps_move_by_one_pixel() {
    assert_eq!(step((3, 4), Direction::Left), Some((2, 4)));
    assert_eq!(step((3, 4), Direction::Right), Some((4, 4)));
    assert_eq!(step((3, 4), Direction::Up), Some((3, 3)));
    assert_eq!(step((3, 4), Direction::Down), Some((3, 5)));
    assert_eq!(step((i32::MAX, 0), Direction::Right), None);
    assert_eq!(step((i32::MIN, 0), Direction::Left), None);
    assert_eq!(step((0, i32::MAX), Direction::Down), None);
    assert_eq!(step((0, i32::MIN), Direction::Up), None);
}

#[test]
fn expansion_takes_the_first_open_direction() {
    let mut bucket = BucketState::default();
    bucket.target_color = GREY;
    bucket.fill_color = RED;
    let mut img = image(3, 3, GREY);
    img.paint((0, 1), WALL);
    img.paint((1, 0), RED);
    assert_eq!(expand(&bucket, &img, (1, 1), &vec![Left, Up, Right, Down]), Some((2, 1)));
    assert_eq!(expand(&bucket, &img, (1, 1), &vec![Up, Down, Left, Right]), Some((1, 2)));
    assert_eq!(expand(&bucket, &img, (0, 0), &vec![Left, Up, Right, Down]), None);
    assert_eq!(expand(&bucket, &img, (2, 2), &vec![Right, Down, Up, Left]), Some((2, 1)));
    assert_eq!(expand(&bucket, &img, (1, 1), &vec![]), None);
}

#[test]
fn near_target_colors_are_filled_and_near_fill_colors_are_not() {
    let mut bucket = BucketState::default();
    bucket.target_color = GREY;
    bucket.fill_color = RED;
    let mut img = image(3, 1, GREY);
    img.paint((1, 0), Rgba { r: 11, g: 9, b: 10, a: 255 });
    img.paint((2, 0), Rgba { r: 12, g: 9, b: 10, a: 255 });
    assert!(bucket.span_fill_step((1, 0), &mut img));
    assert_eq!(img.color_at_pos((1, 0)), RED);
    assert!(!bucket.span_fill_step((2, 0), &mut img));
    assert!(!bucket.span_fill_step((1, 0), &mut img));
    assert!(!bucket.span_fill_step((3, 0), &mut img));
    assert!(!bucket.span_fill_step((0, -1), &mut img));
    assert_eq!(img.color_at_pos((2, 0)), Rgba { r: 12, g: 9, b: 10, a: 255 });
}

#[test]
fn one_growth_step_paints_the_frontier() {
    let mut bucket = BucketState::default();
    let mut img = image(3, 3, GREY);
    bucket.data = Some(img.data.clone());
    bucket.target_color = GREY;
    bucket.fill_color = RED;
    bucket.seed = (1, 1);
    bucket.alive_pixels = Frontier::from_seed((1, 1));
    let mut rng = StdRng::seed_from_u64(5);
    grow(&mut bucket, &mut img, &mut rng);
    assert_eq!(img.color_at_pos((1, 1)), RED);
    let alive = bucket.alive_pixels.pixels();
    assert_eq!(alive.len(), 2);
    assert!(alive.contains(&(1, 1)));
    let other = alive.iter().find(|p| **p != (1, 1)).unwrap();
    assert_eq!((other.0 - 1).abs() + (other.1 - 1).abs(), 1);
    assert_eq!(img.color_at_pos(*other), GREY);
}

#[test]
fn stack_fill_covers_the_region_and_spares_the_rest() {
    let mut canvas = Canvas::new(5, 4);
    canvas.cursor_position = Ok((0, 0));
    let mut img = walled();
    let mut bucket = BucketState::default();
    bucket.fill_color = RED;
    assert_eq!(start_filling(&mut bucket, &canvas, &mut img), ToolState::Idle);
    assert_eq!(bucket.target_color, GREY);
    assert_eq!(bucket.data, Some(walled().data));
    let before = walled();
    for y in 0..4 {
        for x in 0..5 {
            let was = before.color_at_pos((x, y));
            let expected = if was == WALL {
                WALL
            } else if (x, y) == (4, 0) {
                GREY
            } else {
                RED
            };
            assert_eq!(img.color_at_pos((x, y)), expected, "pixel {:?}", (x, y));
        }
    }
    let mut history = History::default();
    stop_filling(&mut bucket, &mut history);
    assert_eq!(history.past.len(), 1);
    assert!(bucket.data.is_none());
}

#[test]
fn stack_fill_of_whole_canvas() {
    let mut canvas = Canvas::new(4, 4);
    canvas.cursor_position = Ok((0, 0));
    let mut img = image(4, 4, GREY);
    let mut bucket = BucketState::default();
    bucket.fill_color = RED;
    start_filling(&mut bucket, &canvas, &mut img);
    assert_eq!(img.data, image(4, 4, RED).data);
}

/// Runs the animated fill from `seed` until the tool goes idle.
fn animate(img: &mut Image, seed: (i32, i32), fill: Rgba, rng_seed: u64) {
    let mut bucket = BucketState::default();
    bucket.data = Some(img.data.clone());
    bucket.target_color = img.color_at_pos(seed);
    bucket.fill_color = fill;
    bucket.seed = seed;
    bucket.alive_pixels = Frontier::from_seed(seed);
    bucket.speed = 1000;
    let mut rng = StdRng::seed_from_u64(rng_seed);
    let mut ticks = 0;
    while canvas_fill(&mut bucket, img, &mut rng, 10) != ToolState::Idle {
        ticks += 1;
        assert!(ticks < 1000);
    }
}

#[test]
fn stack_fill_paints_a_seed_that_is_close_to_the_fill_colour() {
    let near = Rgba { r: 11, g: 10, b: 10, a: 255 };
    let mut canvas = Canvas::new(1, 1);
    canvas.cursor_position = Ok((0, 0));
    let mut img = image(1, 1, GREY);
    let mut bucket = BucketState::default();
    bucket.fill_color = near;
    assert_eq!(start_filling(&mut bucket, &canvas, &mut img), ToolState::Idle);
    assert_eq!(img.data, vec![11, 10, 10, 255]);
    assert_eq!(bucket.data, Some(vec![10, 10, 10, 255]));

    // On a larger canvas the seed alone is painted: its neighbours are
    // close to the fill colour already.
    let mut canvas = Canvas::new(4, 4);
    canvas.cursor_position = Ok((2, 2));
    let mut img = image(4, 4, GREY);
    start_filling(&mut bucket, &canvas, &mut img);
    let mut expected = image(4, 4, GREY);
    expected.paint((2, 2), near);
    assert_eq!(img.data, expected.data);
    let mut animated = image(4, 4, GREY);
    animate(&mut animated, (2, 2), near, 4);
    assert_eq!(animated.data, expected.data);
}

#[test]
fn stack_fill_and_animated_fill_end_the_same() {
    // The seed is close to the fill colour; its neighbours match the target
    // and are far from the fill colour.
    let fill = Rgba { r: 12, g: 10, b: 10, a: 255 };
    let low = Rgba { r: 8, g: 10, b: 10, a: 255 };
    let mut start = image(3, 3, low);
    start.paint((1, 1), GREY);
    start.paint((2, 2), WALL);
    let mut canvas = Canvas::new(3, 3);
    canvas.cursor_position = Ok((1, 1));
    let mut swept = Image { data: start.data.clone(), width: 3, height: 3 };
    let mut bucket = BucketState::default();
    bucket.fill_color = fill;
    start_filling(&mut bucket, &canvas, &mut swept);
    let mut expected = image(3, 3, fill);
    expected.paint((2, 2), WALL);
    assert_eq!(swept.data, expected.data);
    for rng_seed in 0..10 {
        let mut animated = Image { data: start.data.clone(), width: 3, height: 3 };
        animate(&mut animated, (1, 1), fill, rng_seed);
        assert_eq!(animated.data, swept.data);
    }
    // The same on the walled image, where the fill is far from the target.
    let mut canvas = Canvas::new(5, 4);
    canvas.cursor_position = Ok((0, 0));
    let mut swept = walled();
    bucket.fill_color = RED;
    start_filling(&mut bucket, &canvas, &mut swept);
    for rng_seed in 0..10 {
        let mut animated = walled();
        animate(&mut animated, (0, 0), RED, rng_seed);
        assert_eq!(animated.data, swept.data);
    }
}

#[test]
fn stack_fill_with_the_cursor_outside_changes_nothing() {
    let mut canvas = Canvas::new(4, 4);
    let mut img = image(4, 4, GREY);
    let mut bucket = BucketState::default();
    canvas.cursor_position = Err((7, 7));
    bucket.fill_color = RED;
    bucket.data = None;
    start_filling(&mut bucket, &canvas, &mut img);
    assert_eq!(img.data, image(4, 4, GREY).data);
    assert!(bucket.data.is_none());
}

#[test]
fn neighbours_go_on_the_stack_right_left_down_up() {
    let mut stack = vec![(9, 9)];
    push_around(&mut stack, (1, 1));
    assert_eq!(stack, vec![(9, 9), (2, 1), (0, 1), (1, 2), (1, 0)]);
    let mut stack = Vec::new();
    push_around(&mut stack, (i32::MAX, i32::MIN));
    assert_eq!(stack, vec![(i32::MAX - 1, i32::MIN), (i32::MAX, i32::MIN + 1)]);
}

#[test]
fn frontier_is_a_set() {
    let mut frontier = Frontier::new();
    assert!(frontier.is_empty());
    assert_eq!(frontier.len(), 0);
    assert!(frontier.insert((1, 2)));
    assert!(!frontier.insert((1, 2)));
    assert!(frontier.insert((2, 1)));
    assert_eq!(frontier.len(), 2);
    assert!(frontier.contains((1, 2)));
    assert!(!frontier.contains((3, 3)));
    let mut pixels = frontier.pixels();
    pixels.sort();
    assert_eq!(pixels, vec![(1, 2), (2, 1)]);
    assert!(frontier.remove((1, 2)));
    assert!(!frontier.remove((1, 2)));
    assert!(!frontier.is_empty());
    assert_eq!(frontier.pixels(), vec![(2, 1)]);
    assert!(frontier.remove((2, 1)));
    assert!(frontier.is_empty());
    assert!(Frontier::default().is_empty());
    assert_eq!(Frontier::from_seed((4, 5)).pixels(), vec![(4, 5)]);
}
