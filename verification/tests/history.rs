use sprinkle::buffer::{setup_buffer, ChangedPixels, ImageBuffer};
use sprinkle::canvas::Canvas;
use sprinkle::commands::paint::{canvas_paint, Paint, StopPaint};
use sprinkle::commands::undo::{Redo, Undo};
use sprinkle::commands::{
    process_commands, CanvasCommand, CanvasCommands, CanvasOperation, CommandType, World,
};
use sprinkle::commands::fill::Fill;
use sprinkle::history::{undo_redo, EditKind, History, HistoryItem};
use sprinkle::pixels::{image, Rgba};
use sprinkle::tools::brush::{painting, start_painting, stop_painting};
use sprinkle::tools::{BrushState, BucketState, ToolState};

const GREY: Rgba = Rgba { r: 10, g: 10, b: 10, a: 255 };
const GREEN: Rgba = Rgba { r: 0, g: 255, b: 0, a: 255 };
const RED: Rgba = Rgba { r: 200, g: 0, b: 0, a: 255 };

fn world(width: u32, height: u32, cursor: Result<(i32, i32), (i32, i32)>) -> World {
    let mut canvas = Canvas::new(width, height);
    canvas.cursor_position = cursor;
    let mut buffer = setup_buffer();
    buffer.clear(width, height);
    World {
        canvas,
        image: image(width, height, GREY),
        brush: BrushState::default(),
        bucket: BucketState::default(),
        buffer,
        state: ToolState::Idle,
    }
}

#[test]
fn undo_on_empty_history_does_nothing() {
    let mut history = History::default();
    let mut img = image(4, 4, GREY);
    assert!(!history.undo(&mut img));
    assert!(!history.redo(&mut img));
    assert_eq!(img.data, image(4, 4, GREY).data);
    assert!(history.past.is_empty());
    assert!(history.future.is_empty());

    let mut commands = CanvasCommands::default();
    let mut w = world(4, 4, Ok((0, 0)));
    assert!(!commands.can_undo());
    assert!(!commands.can_redo());
    assert!(!commands.perform_undo(&mut w));
    assert!(!commands.perform_redo(&mut w));
    commands.undo();
    commands.redo();
    commands.call(&mut w);
    assert_eq!(w.image.data, image(4, 4, GREY).data);
    assert!(commands.call_queue.is_empty());
    assert!(commands.call_history.is_empty());
    assert!(commands.undo_history.is_empty());
}

#[test]
fn painted_pixel_is_undone_and_redone() {
    let mut canvas = Canvas::new(4, 4);
    canvas.cursor_position = Ok((2, 2));
    let mut img = image(4, 4, GREY);
    let mut brush = BrushState::default();
    brush.color = GREEN;
    let mut history = History::default();
    start_painting(&mut brush, &canvas, &mut img, false);
    stop_painting(&mut brush, &mut history);
    assert_eq!(img.color_at_pos((2, 2)), GREEN);
    let after = img.data.clone();
    assert!(history.undo(&mut img));
    assert_eq!(img.color_at_pos((2, 2)), GREY);
    assert_eq!(img.data, image(4, 4, GREY).data);
    assert!(history.redo(&mut img));
    assert_eq!(img.color_at_pos((2, 2)), GREEN);
    assert_eq!(img.data, after);
}

#[test]
fn as_many_undos_as_edits_give_back_the_first_image() {
    let mut canvas = Canvas::new(4, 4);
    let mut img = image(4, 4, GREY);
    let first = img.data.clone();
    let mut brush = BrushState::default();
    let mut history = History::default();
    let mut states = Vec::new();
    for (n, pos) in [(0, 0), (3, 1), (1, 3), (2, 2)].into_iter().enumerate() {
        states.push(img.data.clone());
        brush.color = Rgba { r: n as u8, g: 255, b: 0, a: 255 };
        canvas.cursor_position = Ok(pos);
        start_painting(&mut brush, &canvas, &mut img, false);
        canvas.cursor_position = Ok((pos.1, pos.0));
        let (mut to_pixel, mut to_line) = (false, false);
        painting(&mut brush, &canvas, &mut img, false, false, &mut to_pixel, &mut to_line);
        stop_painting(&mut brush, &mut history);
    }
    let last = img.data.clone();
    for n in (0..4).rev() {
        assert!(history.undo(&mut img));
        assert_eq!(img.data, states[n]);
    }
    assert_eq!(img.data, first);
    assert!(!history.undo(&mut img));
    for _ in 0..4 {
        assert!(history.redo(&mut img));
    }
    assert_eq!(img.data, last);
    assert!(!history.redo(&mut img));
}

#[test]
fn new_edit_after_undo_discards_the_redo() {
    let mut img = image(2, 2, GREY);
    let mut history = History::default();
    history.add(HistoryItem::Painted(image(2, 2, GREEN).data));
    assert!(history.undo(&mut img));
    assert_eq!(img.data, image(2, 2, GREEN).data);
    assert_eq!(history.future.len(), 1);
    history.add(HistoryItem::Filled(image(2, 2, RED).data));
    assert!(history.future.is_empty());
    let before = img.data.clone();
    assert!(!history.redo(&mut img));
    assert_eq!(img.data, before);
    assert_eq!(history.past.len(), 1);
}

#[test]
fn undo_and_redo_keys_in_one_tick() {
    let mut img = image(2, 2, GREY);
    let mut history = History::default();
    history.add(HistoryItem::Painted(image(2, 2, GREEN).data));
    undo_redo(&mut history, &mut img, false, false);
    assert_eq!(img.data, image(2, 2, GREY).data);
    undo_redo(&mut history, &mut img, true, false);
    assert_eq!(img.data, image(2, 2, GREEN).data);
    assert!(matches!(&history.future[0], HistoryItem::Painted(bytes) if *bytes == image(2, 2, GREY).data));
    undo_redo(&mut history, &mut img, false, true);
    assert_eq!(img.data, image(2, 2, GREY).data);
    undo_redo(&mut history, &mut img, true, true);
    assert_eq!(img.data, image(2, 2, GREY).data);
    assert_eq!(history.past.len(), 1);
    assert!(history.future.is_empty());
}

#[test]
fn history_items_keep_their_kind() {
    for kind in [EditKind::Painted, EditKind::Filled, EditKind::Selected] {
        let item = HistoryItem::of(kind, vec![1, 2, 3]);
        let (back, bytes) = item.into_parts();
        assert_eq!(back, kind);
        assert_eq!(bytes, vec![1, 2, 3]);
    }
    assert!(matches!(HistoryItem::of(EditKind::Filled, vec![]), HistoryItem::Filled(_)));
}

#[test]
fn queue_is_drained_in_order() {
    let mut w = world(4, 4, Ok((2, 2)));
    let mut commands = CanvasCommands::default();
    commands.start_painting(GREEN);
    commands.call(&mut w);
    assert_eq!(w.state, ToolState::Painting);
    assert_eq!(w.brush.color, GREEN);
    assert_eq!(commands.call_history.len(), 1);
    assert!(commands.can_undo());
    assert!(canvas_paint(&w.brush, &w.canvas, &mut w.buffer));
    assert!(!canvas_paint(&w.brush, &w.canvas, &mut w.buffer));
    assert_eq!(w.buffer.image.color_at_pos((2, 2)), GREEN);
    assert_eq!(w.image.color_at_pos((2, 2)), GREY);
    commands.stop_painting();
    commands.undo();
    process_commands(&mut w, &mut commands);
    assert_eq!(w.state, ToolState::Idle);
    assert_eq!(w.image.color_at_pos((2, 2)), GREY);
    assert_eq!(w.buffer.image.data, vec![0u8; 64]);
    assert!(w.buffer.changed.entries().is_empty());
    assert!(commands.can_redo());
    assert!(!commands.can_undo());
    commands.redo();
    commands.call(&mut w);
    assert_eq!(w.image.color_at_pos((2, 2)), GREEN);
    assert_eq!(w.image.color_at_pos((0, 0)), GREY);
    commands.undo();
    commands.redo();
    commands.undo();
    commands.call(&mut w);
    assert_eq!(w.image.data, image(4, 4, GREY).data);
}

#[test]
fn new_operation_clears_the_redo_stack_when_queued() {
    let mut w = world(4, 4, Ok((1, 1)));
    let mut commands = CanvasCommands::default();
    commands.start_painting(GREEN);
    commands.stop_painting();
    commands.undo();
    commands.call(&mut w);
    assert_eq!(commands.undo_history.len(), 1);
    commands.fill(RED);
    assert!(commands.undo_history.is_empty());
    commands.redo();
    commands.call(&mut w);
    assert_eq!(w.state, ToolState::Filling);
    assert_eq!(commands.call_history.len(), 1);
    assert!(matches!(&commands.call_history[0], CanvasOperation::Fill(fill) if fill.speed == 500 && fill.color == RED));
    assert_eq!(w.image.data, image(4, 4, GREY).data);
}

#[test]
fn operations_put_aside_are_not_recorded() {
    let mut w = world(4, 4, Ok((1, 1)));
    let mut commands = CanvasCommands::default();
    commands.cancel(CanvasOperation::Paint(Paint::new(RED)));
    assert_eq!(commands.cancel_queue.len(), 1);
    commands.call(&mut w);
    assert!(commands.cancel_queue.is_empty());
    assert!(commands.call_history.is_empty());
    assert_eq!(w.brush.color, RED);
    assert_eq!(w.state, ToolState::Painting);
}

#[test]
fn command_kinds() {
    let paint = CommandType::operation(CanvasOperation::Paint(Paint::default()));
    assert!(paint.is_operation());
    let fill = CanvasOperation::Fill(Fill::new(RED, 2).unwrap());
    assert_eq!(fill.name(), "Fill");
    assert_eq!(CanvasOperation::Paint(Paint::new(RED)).name(), "Paint");
    assert_eq!(Paint::default().color, Rgba { r: 255, g: 255, b: 255, a: 255 });
    for (command, name) in [
        (CanvasCommand::StopPaint(StopPaint), "Stop Paint"),
        (CanvasCommand::Undo(Undo), "Undo"),
        (CanvasCommand::Redo(Redo), "Redo"),
    ] {
        assert_eq!(command.name(), name);
        assert!(!CommandType::command(command).is_operation());
    }
}

#[test]
fn command_processing_of_single_commands() {
    let mut w = world(2, 2, Ok((0, 0)));
    let mut commands = CanvasCommands::default();
    let mut op = CanvasOperation::Paint(Paint::new(GREEN));
    op.process(&mut w);
    w.image.paint((1, 1), GREEN);
    let after = w.image.data.clone();
    op.undo(&mut w);
    assert_eq!(w.image.data, image(2, 2, GREY).data);
    op.redo(&mut w);
    assert_eq!(w.image.data, after);
    let mut stop = CommandType::command(CanvasCommand::StopPaint(StopPaint));
    stop.process(&mut w, &mut commands);
    assert_eq!(w.state, ToolState::Idle);
}

#[test]
fn round_trip_through_the_command_centre() {
    let mut w = world(4, 4, Ok((0, 0)));
    let first = w.image.data.clone();
    let mut commands = CanvasCommands::default();
    let mut rng = <rand::rngs::StdRng as rand::SeedableRng>::seed_from_u64(11);
    // A stroke.
    commands.start_painting(GREEN);
    commands.call(&mut w);
    for pos in [(0, 0), (1, 0), (2, 0), (3, 0)] {
        w.canvas.cursor_position = Ok(pos);
        canvas_paint(&w.brush, &w.canvas, &mut w.buffer);
    }
    commands.stop_painting();
    commands.call(&mut w);
    let striped = w.image.data.clone();
    assert_eq!(w.image.color_at_pos((3, 0)), GREEN);
    // A fill below the stroke.
    w.canvas.cursor_position = Ok((2, 2));
    commands.fill(RED);
    commands.call(&mut w);
    while sprinkle::commands::fill::canvas_fill(&mut w.bucket, &mut w.image, &mut rng, 100)
        != ToolState::Idle
    {}
    assert_eq!(w.image.color_at_pos((0, 3)), RED);
    assert_eq!(w.image.color_at_pos((3, 0)), GREEN);
    let filled = w.image.data.clone();
    commands.undo();
    commands.call(&mut w);
    assert_eq!(w.image.data, striped);
    commands.redo();
    commands.call(&mut w);
    assert_eq!(w.image.data, filled);
    commands.undo();
    commands.undo();
    commands.call(&mut w);
    assert_eq!(w.image.data, first);
}

#[test]
fn paint_buffer_records_changes() {
    let mut buffer: ImageBuffer = setup_buffer();
    assert_eq!((buffer.image.width, buffer.image.height), (128, 128));
    assert_eq!(buffer.image.data.len(), 128 * 128 * 4);
    buffer.clear(3, 2);
    assert_eq!(buffer.image.data, vec![0u8; 24]);
    assert!(buffer.paint((1, 1), GREEN));
    assert!(!buffer.paint((1, 1), GREEN));
    assert!(buffer.paint((1, 1), RED));
    assert!(buffer.paint((0, 0), GREEN));
    assert_eq!(buffer.image.color_at_pos((1, 1)), RED);
    let mut entries = buffer.changed.entries();
    entries.sort_by_key(|e| e.0);
    assert_eq!(entries, vec![((0, 0), GREEN), ((1, 1), RED)]);
    let mut target = image(3, 2, GREY);
    buffer.apply_to_image(&mut target);
    assert_eq!(target.color_at_pos((0, 0)), GREEN);
    assert_eq!(target.color_at_pos((1, 1)), RED);
    assert_eq!(target.color_at_pos((2, 1)), GREY);
    buffer.clear(3, 2);
    assert!(buffer.changed.entries().is_empty());
    assert_eq!(buffer.image.data, vec![0u8; 24]);
}

#[test]
fn changed_pixels_map() {
    let mut changed = ChangedPixels::new();
    assert_eq!(changed.insert((1, 2), GREEN), None);
    assert_eq!(changed.insert((1, 2), RED), Some(GREEN));
    assert_eq!(changed.insert((2, 1), GREY), None);
    assert_eq!(changed.entries().len(), 2);
}

#[test]
fn canvas_paint_outside_does_nothing() {
    let mut w = world(2, 2, Err((5, 5)));
    assert!(!canvas_paint(&w.brush, &w.canvas, &mut w.buffer));
    assert!(w.buffer.changed.entries().is_empty());
}

#[test]
fn cancelled_fill_restores_the_snapshot() {
    let mut w = world(4, 4, Ok((0, 0)));
    let mut fill = Fill::new(RED, 10).unwrap();
    fill.process(&mut w);
    let mut rng = <rand::rngs::StdRng as rand::SeedableRng>::seed_from_u64(2);
    sprinkle::commands::fill::canvas_fill(&mut w.bucket, &mut w.image, &mut rng, 300);
    assert_eq!(w.state, ToolState::Filling);
    assert_ne!(w.image.data, image(4, 4, GREY).data);
    let partly = w.image.data.clone();
    fill.cancel(&mut w);
    assert_eq!(w.image.data, image(4, 4, GREY).data);
    assert_eq!(fill.buffer, partly);
    assert_eq!(w.state, ToolState::Idle);
    assert!(w.bucket.alive_pixels.is_empty());
}

#[test]
fn cancelled_stroke_restores_the_snapshot() {
    let mut w = world(4, 4, Ok((1, 1)));
    let mut op = CanvasOperation::Paint(Paint::new(GREEN));
    op.process(&mut w);
    canvas_paint(&w.brush, &w.canvas, &mut w.buffer);
    w.image.paint((3, 3), GREEN);
    op.cancel(&mut w);
    assert_eq!(w.image.data, image(4, 4, GREY).data);
    assert_eq!(w.state, ToolState::Idle);
    assert!(w.buffer.changed.entries().is_empty());
    assert_eq!(w.buffer.image.data, vec![0u8; 64]);
}

#[test]
fn fill_queued_with_the_cursor_outside_is_undone_without_effect() {
    let mut w = world(4, 4, Err((9, 9)));
    let mut commands = CanvasCommands::default();
    commands.fill(RED);
    commands.call(&mut w);
    assert_eq!(w.state, ToolState::Idle);
    assert_eq!(commands.call_history.len(), 1);
    assert!(matches!(&commands.call_history[0], CanvasOperation::Fill(fill) if !fill.began && fill.buffer.is_empty()));
    w.image.paint((1, 1), GREEN);
    let painted = w.image.data.clone();
    commands.undo();
    commands.call(&mut w);
    assert_eq!(w.image.data, painted);
    assert_eq!(commands.undo_history.len(), 1);
    commands.redo();
    commands.call(&mut w);
    assert_eq!(w.image.data, painted);
    assert_eq!(commands.call_history.len(), 1);
}
