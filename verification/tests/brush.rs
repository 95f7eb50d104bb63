use sprinkle::history::History;
use sprinkle::canvas::Canvas;
use sprinkle::pixels::{image, Image, Rgba};
use sprinkle::tools::brush::{
    brush_preview, painting, start_painting, stop_painting, BlendMode, BrushMode, BrushState,
};
use sprinkle::tools::{
    blank_bytes, blend_channel, composite_buffers, composite_color, copy_bytes, Tool, ToolBuffer,
    ToolState,
};

fn rgba(r: u8, g: u8, b: u8, a: u8) -> Rgba {
    Rgba { r, g, b, a }
}

fn marked(buffer: &[u8], width: i32, height: i32) -> Vec<(i32, i32)> {
    let mut out = Vec::new();
    for y in 0..height {
        for x in 0..width {
            let i = ((y * width + x) * 4) as usize;
            if buffer[i + 3] != 0 {
                out.push((x, y));
            }
        }
    }
    out
}

fn brush_with(color: Rgba, width: u32, height: u32) -> BrushState {
    let mut brush = BrushState::default();
    brush.color = color;
    brush.clear_buffer(width, height);
    brush
}

#[test]
fn defaults() {
    let brush = BrushState::default();
    assert!(brush.buffer.is_empty());
    assert!(brush.data.is_none());
    assert_eq!(brush.color, rgba(255, 255, 255, 255));
    assert!(brush.is_pixel_mode());
    assert!(!brush.is_line_mode());
    assert!(!brush.is_eraser());
    assert!(!brush.is_cleared);
    assert_eq!(BrushMode::default(), BrushMode::Pixel);
    assert_eq!(BlendMode::default(), BlendMode::Replace);
    assert_eq!(Tool::default(), Tool::Brush);
    assert_eq!(ToolState::default(), ToolState::Idle);
}

#[test]
fn eraser_is_a_transparent_color() {
    let mut brush = BrushState::default();
    brush.color = rgba(9, 9, 9, 0);
    assert!(brush.is_eraser());
    assert_eq!(brush.mark(), rgba(255, 255, 255, 255));
    brush.color = rgba(9, 9, 9, 1);
    assert!(!brush.is_eraser());
    assert_eq!(brush.mark(), rgba(9, 9, 9, 1));
}

#[test]
fn clear_buffer_blanks_to_canvas_size() {
    let mut brush = BrushState::default();
    brush.buffer = vec![7; 5];
    brush.clear_buffer(3, 2);
    assert_eq!(brush.buffer, vec![0u8; 24]);
    assert!(brush.is_cleared);
    assert_eq!(blank_bytes(3), vec![0, 0, 0]);
}

#[test]
fn draw_point_marks_one_pixel() {
    let mut brush = brush_with(rgba(1, 2, 3, 200), 3, 2);
    brush.draw_point((2, 1), 3, 2);
    assert!(!brush.is_cleared);
    assert_eq!(marked(&brush.buffer, 3, 2), vec![(2, 1)]);
    assert_eq!(&brush.buffer[20..24], &[1, 2, 3, 200]);
}

#[test]
fn points_outside_the_canvas_are_ignored() {
    let mut brush = brush_with(rgba(1, 2, 3, 200), 3, 2);
    for pos in [(3, 0), (0, 2), (-1, 0), (0, -1), (i32::MAX, i32::MAX), (i32::MIN, 0)] {
        brush.draw_point(pos, 3, 2);
        assert_eq!(brush.buffer, vec![0u8; 24]);
        assert!(brush.is_cleared);
    }
    // A pixel of the canvas that the buffer is too short for.
    brush.buffer.truncate(20);
    brush.draw_point((2, 1), 3, 2);
    assert_eq!(brush.buffer, vec![0u8; 20]);
    assert!(brush.is_cleared);
    brush.draw_point((1, 1), 3, 2);
    assert_eq!(&brush.buffer[16..20], &[1, 2, 3, 200]);
    assert!(!brush.is_cleared);

    let mut tool = ToolBuffer::default();
    tool.set_size(2, 1);
    tool.clear_buffer();
    tool.draw_point((2, 0));
    tool.draw_point((0, 1));
    tool.draw_point((-1, 0));
    assert_eq!(tool.buffer, vec![0u8; 8]);
    assert!(tool.is_cleared);
}

#[test]
fn eraser_point_is_a_full_mark() {
    let mut brush = brush_with(rgba(1, 2, 3, 0), 2, 1);
    brush.draw_point((0, 0), 2, 1);
    assert_eq!(brush.buffer, vec![255, 255, 255, 255, 0, 0, 0, 0]);
}

#[test]
fn horizontal_line_has_no_gaps() {
    let mut brush = brush_with(rgba(0, 0, 0, 255), 8, 1);
    brush.mode = BrushMode::Line;
    brush.draw_line(8, 1, (0, 0), (7, 0));
    assert_eq!(
        marked(&brush.buffer, 8, 1),
        vec![(0, 0), (1, 0), (2, 0), (3, 0), (4, 0), (5, 0), (6, 0), (7, 0)]
    );
}

#[test]
fn line_mode_stroke_from_anchor_marks_whole_row() {
    let mut canvas = Canvas::new(8, 1);
    canvas.cursor_position = Ok((0, 0));
    let mut img = image(8, 1, rgba(10, 10, 10, 255));
    let mut brush = BrushState::default();
    brush.color = rgba(0, 0, 255, 255);
    start_painting(&mut brush, &canvas, &mut img, true);
    assert!(brush.is_line_mode());
    assert_eq!(marked(&brush.buffer, 8, 1), vec![(0, 0)]);
    canvas.cursor_position = Ok((7, 0));
    let (mut to_pixel, mut to_line) = (false, false);
    painting(&mut brush, &canvas, &mut img, false, false, &mut to_pixel, &mut to_line);
    assert_eq!(
        marked(&brush.buffer, 8, 1),
        vec![(0, 0), (1, 0), (2, 0), (3, 0), (4, 0), (5, 0), (6, 0), (7, 0)]
    );
    for x in 0..8 {
        assert_eq!(img.color_at_pos((x, 0)), rgba(0, 0, 255, 255));
    }
}

#[test]
fn vertical_and_diagonal_lines() {
    let mut brush = brush_with(rgba(0, 0, 0, 255), 4, 4);
    brush.draw_line(4, 4, (1, 0), (1, 3));
    assert_eq!(marked(&brush.buffer, 4, 4), vec![(1, 0), (1, 1), (1, 2), (1, 3)]);
    let mut brush = brush_with(rgba(0, 0, 0, 255), 4, 4);
    brush.draw_line(4, 4, (3, 0), (0, 3));
    assert_eq!(marked(&brush.buffer, 4, 4), vec![(3, 0), (2, 1), (1, 2), (0, 3)]);
    let mut brush = brush_with(rgba(0, 0, 0, 255), 4, 4);
    brush.draw_line(4, 4, (2, 2), (2, 2));
    assert_eq!(marked(&brush.buffer, 4, 4), vec![(2, 2)]);
}

#[test]
fn shallow_line_rounds_ties_towards_the_smaller_endpoint() {
    let mut brush = brush_with(rgba(0, 0, 0, 255), 3, 2);
    brush.draw_line(3, 2, (0, 0), (2, 1));
    assert_eq!(marked(&brush.buffer, 3, 2), vec![(0, 0), (1, 0), (2, 1)]);
}

#[test]
fn line_does_not_depend_on_endpoint_order() {
    let ends = [((0, 0), (2, 1)), ((0, 5), (6, 0)), ((1, 1), (2, 6)), ((6, 6), (0, 2)), ((3, 0), (3, 6))];
    for (p, q) in ends {
        let mut forward = brush_with(rgba(0, 0, 0, 255), 7, 7);
        forward.draw_line(7, 7, p, q);
        let mut backward = brush_with(rgba(0, 0, 0, 255), 7, 7);
        backward.draw_line(7, 7, q, p);
        assert_eq!(forward.buffer, backward.buffer);
        let pixels = marked(&forward.buffer, 7, 7);
        assert!(pixels.contains(&p));
        assert!(pixels.contains(&q));
    }
}

#[test]
fn line_pixels_touch_each_other() {
    for &(p, q) in &[((0, 0), (6, 2)), ((5, 0), (1, 6)), ((0, 6), (6, 5)), ((2, 0), (3, 6))] {
        let mut brush = brush_with(rgba(0, 0, 0, 255), 7, 7);
        brush.draw_line(7, 7, p, q);
        let pixels = marked(&brush.buffer, 7, 7);
        let long = std::cmp::max((p.0 - q.0).abs(), (p.1 - q.1).abs()) as usize;
        assert_eq!(pixels.len(), long + 1);
        let mut reached = vec![p];
        let mut grown = true;
        while grown {
            grown = false;
            for c in &pixels {
                if !reached.contains(c)
                    && reached.iter().any(|r| (r.0 - c.0).abs() <= 1 && (r.1 - c.1).abs() <= 1)
                {
                    reached.push(*c);
                    grown = true;
                }
            }
        }
        assert_eq!(reached.len(), pixels.len());
    }
}

#[test]
fn blend_moves_towards_the_stroke_by_its_coverage() {
    assert_eq!(blend_channel(100, 200, 128), 150);
    assert_eq!(blend_channel(100, 200, 0), 100);
    assert_eq!(blend_channel(100, 200, 255), 200);
    assert_eq!(blend_channel(200, 100, 128), 149);
    assert_eq!(blend_channel(0, 255, 1), 1);
    assert_eq!(blend_channel(255, 0, 254), 1);
}

#[test]
fn opaque_stroke_replaces_any_pixel() {
    let over = rgba(0, 255, 0, 255);
    for below in [rgba(0, 0, 0, 0), rgba(255, 255, 255, 255), rgba(50, 60, 70, 80)] {
        assert_eq!(composite_color(below, over, false), over);
    }
}

#[test]
fn alpha_adds_up_and_saturates() {
    assert_eq!(composite_color(rgba(0, 0, 0, 100), rgba(0, 0, 0, 100), false).a, 200);
    assert_eq!(composite_color(rgba(0, 0, 0, 200), rgba(0, 0, 0, 100), false).a, 255);
    assert_eq!(composite_color(rgba(9, 8, 7, 6), rgba(1, 2, 3, 0), false), rgba(9, 8, 7, 6));
}

#[test]
fn eraser_resets_fully_covered_pixels_only() {
    let below = rgba(50, 60, 70, 255);
    assert_eq!(composite_color(below, rgba(255, 255, 255, 255), true), rgba(0, 0, 0, 0));
    assert_eq!(composite_color(below, rgba(255, 255, 255, 128), true), below);
    assert_eq!(composite_color(below, rgba(0, 0, 0, 0), true), below);
}

#[test]
fn eraser_stroke_over_image() {
    let mut brush = brush_with(rgba(0, 0, 0, 0), 2, 1);
    brush.data = Some(vec![50, 60, 70, 255, 50, 60, 70, 255]);
    brush.draw_point((0, 0), 2, 1);
    brush.buffer[7] = 128;
    assert_eq!(brush.get_updated_buffer(), Some(vec![0, 0, 0, 0, 50, 60, 70, 255]));
}

#[test]
fn updated_buffer_needs_a_snapshot() {
    let brush = brush_with(rgba(1, 1, 1, 255), 2, 1);
    assert_eq!(brush.get_updated_buffer(), None);
}

#[test]
fn composite_covers_common_whole_pixels() {
    let below = vec![10, 20, 30, 40, 50, 60, 70, 80, 1, 2];
    let above = vec![100, 100, 100, 255, 0, 0, 0, 0, 9, 9, 9, 9];
    assert_eq!(
        composite_buffers(&below, &above, false),
        vec![100, 100, 100, 255, 50, 60, 70, 80]
    );
    assert_eq!(copy_bytes(&below), below);
}

#[test]
fn stroke_in_pixel_mode_accumulates_segments() {
    let mut canvas = Canvas::new(4, 4);
    canvas.cursor_position = Ok((0, 0));
    let mut img = image(4, 4, rgba(10, 10, 10, 255));
    let before = img.data.clone();
    let mut brush = BrushState::default();
    brush.color = rgba(0, 255, 0, 255);
    start_painting(&mut brush, &canvas, &mut img, false);
    assert!(brush.is_pixel_mode());
    assert_eq!(brush.data, Some(before.clone()));
    assert_eq!(brush.start_position, Some((0, 0)));
    assert_eq!(brush.last_position, Some((0, 0)));
    let (mut to_pixel, mut to_line) = (false, false);
    canvas.cursor_position = Ok((2, 0));
    painting(&mut brush, &canvas, &mut img, false, false, &mut to_pixel, &mut to_line);
    canvas.cursor_position = Ok((2, 2));
    painting(&mut brush, &canvas, &mut img, false, false, &mut to_pixel, &mut to_line);
    assert_eq!(
        marked(&brush.buffer, 4, 4),
        vec![(0, 0), (1, 0), (2, 0), (2, 1), (2, 2)]
    );
    assert_eq!(brush.last_position, Some((2, 2)));
    assert_eq!(img.color_at_pos((2, 1)), rgba(0, 255, 0, 255));
    assert_eq!(img.color_at_pos((3, 3)), rgba(10, 10, 10, 255));
    let mut history = History::default();
    stop_painting(&mut brush, &mut history);
    assert_eq!(history.past.len(), 1);
    assert!(brush.data.is_none());
    assert!(brush.last_position.is_none());
}

#[test]
fn line_mode_redraws_from_the_anchor() {
    let mut canvas = Canvas::new(4, 4);
    canvas.cursor_position = Ok((0, 0));
    let mut img = image(4, 4, rgba(10, 10, 10, 255));
    let mut brush = BrushState::default();
    brush.color = rgba(0, 255, 0, 255);
    start_painting(&mut brush, &canvas, &mut img, true);
    let (mut to_pixel, mut to_line) = (false, false);
    canvas.cursor_position = Ok((3, 0));
    painting(&mut brush, &canvas, &mut img, false, false, &mut to_pixel, &mut to_line);
    canvas.cursor_position = Ok((0, 3));
    painting(&mut brush, &canvas, &mut img, false, false, &mut to_pixel, &mut to_line);
    assert_eq!(marked(&brush.buffer, 4, 4), vec![(0, 0), (0, 1), (0, 2), (0, 3)]);
    assert_eq!(img.color_at_pos((3, 0)), rgba(10, 10, 10, 255));
    assert_eq!(img.color_at_pos((0, 3)), rgba(0, 255, 0, 255));
}

#[test]
fn switching_to_line_mode_leaves_no_stale_pixels() {
    let mut canvas = Canvas::new(4, 4);
    canvas.cursor_position = Ok((0, 0));
    let mut img = image(4, 4, rgba(10, 10, 10, 255));
    let mut brush = BrushState::default();
    brush.color = rgba(0, 255, 0, 255);
    start_painting(&mut brush, &canvas, &mut img, false);
    let (mut to_pixel, mut to_line) = (false, false);
    canvas.cursor_position = Ok((3, 0));
    painting(&mut brush, &canvas, &mut img, false, false, &mut to_pixel, &mut to_line);
    canvas.cursor_position = Ok((3, 3));
    painting(&mut brush, &canvas, &mut img, false, false, &mut to_pixel, &mut to_line);
    // The line key goes down with the cursor at rest: the stroke becomes the
    // line from the anchor to the cursor.
    painting(&mut brush, &canvas, &mut img, true, false, &mut to_pixel, &mut to_line);
    assert!(brush.is_line_mode());
    assert!(!to_line);
    assert_eq!(marked(&brush.buffer, 4, 4), vec![(0, 0), (1, 1), (2, 2), (3, 3)]);
    assert_eq!(img.color_at_pos((3, 0)), rgba(10, 10, 10, 255));
    // The line key goes up: the next segment starts a fresh stroke.
    canvas.cursor_position = Ok((3, 2));
    painting(&mut brush, &canvas, &mut img, false, true, &mut to_pixel, &mut to_line);
    assert!(brush.is_pixel_mode());
    assert!(!to_pixel);
    assert_eq!(marked(&brush.buffer, 4, 4), vec![(3, 2), (3, 3)]);
}

#[test]
fn switching_to_pixel_mode_at_rest_leaves_no_stale_pixels() {
    let mut canvas = Canvas::new(4, 4);
    canvas.cursor_position = Ok((0, 0));
    let mut img = image(4, 4, rgba(10, 10, 10, 255));
    let mut brush = BrushState::default();
    brush.color = rgba(0, 255, 0, 255);
    start_painting(&mut brush, &canvas, &mut img, true);
    let (mut to_pixel, mut to_line) = (false, false);
    canvas.cursor_position = Ok((3, 3));
    painting(&mut brush, &canvas, &mut img, false, false, &mut to_pixel, &mut to_line);
    assert_eq!(marked(&brush.buffer, 4, 4), vec![(0, 0), (1, 1), (2, 2), (3, 3)]);
    // The line key goes up with the cursor at rest: the line goes, and the
    // stroke is the pixel under the cursor.
    painting(&mut brush, &canvas, &mut img, false, true, &mut to_pixel, &mut to_line);
    assert!(brush.is_pixel_mode());
    assert!(!to_pixel);
    assert!(!to_line);
    assert_eq!(marked(&brush.buffer, 4, 4), vec![(3, 3)]);
    assert_eq!(img.color_at_pos((3, 3)), rgba(0, 255, 0, 255));
    for pos in [(0, 0), (1, 1), (2, 2)] {
        assert_eq!(img.color_at_pos(pos), rgba(10, 10, 10, 255));
    }
    // Back to lines at rest: the line from the anchor is there again.
    painting(&mut brush, &canvas, &mut img, true, false, &mut to_pixel, &mut to_line);
    assert_eq!(marked(&brush.buffer, 4, 4), vec![(0, 0), (1, 1), (2, 2), (3, 3)]);
    assert_eq!(img.color_at_pos((1, 1)), rgba(0, 255, 0, 255));
}

#[test]
fn switching_with_the_cursor_outside_blanks_the_stroke() {
    let mut canvas = Canvas::new(4, 4);
    canvas.cursor_position = Ok((0, 0));
    let mut img = image(4, 4, rgba(10, 10, 10, 255));
    let before = img.data.clone();
    let mut brush = BrushState::default();
    brush.color = rgba(0, 255, 0, 255);
    start_painting(&mut brush, &canvas, &mut img, true);
    let (mut to_pixel, mut to_line) = (false, false);
    canvas.cursor_position = Ok((3, 0));
    painting(&mut brush, &canvas, &mut img, false, false, &mut to_pixel, &mut to_line);
    canvas.cursor_position = Err((9, 9));
    painting(&mut brush, &canvas, &mut img, false, true, &mut to_pixel, &mut to_line);
    assert_eq!(brush.buffer, vec![0u8; 64]);
    assert!(brush.is_cleared);
    assert_eq!(img.data, before);
    assert!(to_pixel);
    assert_eq!(brush.last_position, None);
}

#[test]
fn a_tick_without_movement_changes_nothing() {
    let mut canvas = Canvas::new(4, 4);
    canvas.cursor_position = Ok((1, 1));
    let mut img = image(4, 4, rgba(10, 10, 10, 255));
    let mut brush = BrushState::default();
    start_painting(&mut brush, &canvas, &mut img, false);
    let buffer = brush.buffer.clone();
    let data = img.data.clone();
    let (mut to_pixel, mut to_line) = (false, false);
    painting(&mut brush, &canvas, &mut img, false, false, &mut to_pixel, &mut to_line);
    assert_eq!(brush.buffer, buffer);
    assert_eq!(img.data, data);
    canvas.cursor_position = Err((9, 9));
    painting(&mut brush, &canvas, &mut img, false, false, &mut to_pixel, &mut to_line);
    assert_eq!(brush.last_position, None);
    assert_eq!(img.data, data);
}

#[test]
fn stroke_started_outside_the_canvas() {
    let canvas = Canvas::new(2, 2);
    let mut img = image(2, 2, rgba(10, 10, 10, 255));
    let data = img.data.clone();
    let mut brush = BrushState::default();
    start_painting(&mut brush, &canvas, &mut img, false);
    assert_eq!(brush.start_position, None);
    assert_eq!(brush.last_position, None);
    assert!(brush.is_cleared);
    assert_eq!(brush.buffer, vec![0u8; 16]);
    assert_eq!(img.data, data);
}

#[test]
fn preview_follows_the_cursor() {
    let mut canvas = Canvas::new(2, 2);
    let mut img = image(2, 2, rgba(10, 10, 10, 255));
    let data = img.data.clone();
    let mut brush = BrushState::default();
    brush.color = rgba(1, 2, 3, 255);
    canvas.cursor_position = Ok((0, 0));
    brush_preview(&mut brush, &canvas, &mut img);
    assert_eq!(brush.last_position, Some((0, 0)));
    assert_eq!(img.data, data);
    canvas.cursor_position = Ok((1, 1));
    brush_preview(&mut brush, &canvas, &mut img);
    assert_eq!(img.color_at_pos((1, 1)), rgba(1, 2, 3, 255));
    assert_eq!(img.color_at_pos((0, 0)), rgba(10, 10, 10, 255));
    canvas.cursor_position = Ok((1, 0));
    brush_preview(&mut brush, &canvas, &mut img);
    assert_eq!(img.color_at_pos((1, 0)), rgba(1, 2, 3, 255));
    assert_eq!(img.color_at_pos((1, 1)), rgba(10, 10, 10, 255));
    canvas.cursor_position = Err((5, 5));
    brush_preview(&mut brush, &canvas, &mut img);
    assert_eq!(img.data, data);
    assert!(brush.is_cleared);
    assert_eq!(brush.last_position, None);
}

#[test]
fn tool_buffer_draws_and_composites() {
    let mut tool = ToolBuffer::default();
    assert!(!tool.is_transparent());
    tool.set_size(2, 1);
    tool.color = rgba(7, 8, 9, 255);
    tool.clear_buffer();
    assert!(tool.is_cleared);
    assert_eq!(tool.get_final_image(), None);
    tool.draw_point((1, 0));
    assert!(!tool.is_cleared);
    let mut img = Image { data: vec![1, 1, 1, 255, 2, 2, 2, 255], width: 2, height: 1 };
    tool.apply_buffer_to_layer(&mut img);
    assert_eq!(img.data, vec![1, 1, 1, 255, 7, 8, 9, 255]);
    assert_eq!(tool.data, Some(vec![1, 1, 1, 255, 2, 2, 2, 255]));
    tool.clone_data_from_image(&img);
    assert_eq!(tool.get_final_image(), Some(vec![1, 1, 1, 255, 7, 8, 9, 255]));
    tool.color = rgba(0, 0, 0, 0);
    assert!(tool.is_transparent());
    tool.clear_buffer();
    tool.draw_point((0, 0));
    assert_eq!(tool.get_final_image(), Some(vec![0, 0, 0, 0, 7, 8, 9, 255]));
}
