//! The command centre: a queue of commands, drained once per tick, and the
//! history of the operations that can be undone.

pub mod fill;
pub mod paint;
pub mod undo;

use std::collections::VecDeque;
use vstd::prelude::*;
use crate::buffer::{applied, no_changes, Channels, ImageBuffer};
use crate::canvas::Canvas;
use crate::history::{
    entry_sized, exchanged, lemma_sized_kept, redone_once, sized, undone_once, Entry, Stacks,
    Timeline,
};
use crate::pixels::{pixel, Image, Pos, Rgba};
use crate::tools::bucket::BucketView;
use crate::tools::{blank, BrushState, BucketState, ToolState};
use self::fill::Fill;
use self::paint::{Paint, StopPaint};
use self::undo::{Redo, Undo};

verus! {

/// Everything that the commands act on.
pub struct World {
    pub canvas: Canvas,
    /// The image of the active layer.
    pub image: Image,
    pub brush: BrushState,
    pub bucket: BucketState,
    pub buffer: ImageBuffer,
    pub state: ToolState,
}

/// The part of the world that the commands change, as plain values.
pub ghost struct Scene {
    /// The bytes of the image.
    pub live: Seq<u8>,
    /// The bytes of the preview.
    pub preview: Seq<u8>,
    /// The pixels recorded by the paint buffer.
    pub changed: Map<Pos, Channels>,
    pub brush_color: Rgba,
    pub state: ToolState,
    pub bucket: BucketView,
}

impl World {
    /// The image, the preview and the canvas have one size, whose pixels all
    /// have coordinates.
    pub open spec fn wf(&self) -> bool {
        &&& self.canvas.wf()
        &&& self.image.wf()
        &&& self.buffer.wf()
        &&& self.image.width == self.canvas.width
        &&& self.image.height == self.canvas.height
        &&& self.buffer.image.width == self.canvas.width
        &&& self.buffer.image.height == self.canvas.height
        &&& self.canvas.width <= i32::MAX
        &&& self.canvas.height <= i32::MAX
    }

    pub open spec fn scene(&self) -> Scene {
        Scene {
            live: self.image.data@,
            preview: self.buffer.image.data@,
            changed: self.buffer.changed@,
            brush_color: self.brush.color,
            state: self.state,
            bucket: self.bucket@,
        }
    }

    /// What no command changes is as in `other`: the canvas and the stroke
    /// that the brush holds.
    pub open spec fn same_frame(&self, other: &World) -> bool {
        &&& self.canvas == other.canvas
        &&& self.brush.buffer@ == other.brush.buffer@
        &&& self.brush.snapshot() == other.brush.snapshot()
        &&& self.brush.start_position == other.brush.start_position
        &&& self.brush.last_position == other.brush.last_position
        &&& self.brush.mode == other.brush.mode
        &&& self.brush.is_cleared == other.brush.is_cleared
    }
}

/// A command as a plain value.
pub enum CommandView {
    Paint(Rgba),
    Fill(Rgba, u32),
    StopPaint,
    Undo,
    Redo,
}

/// The scene and the history together.
pub ghost struct Center {
    pub scene: Scene,
    pub stacks: Stacks<CommandView>,
}

/// The scene after a paint operation begins: the tool paints in the
/// operation's colour and the preview is blank.
pub open spec fn painting_begun(scene: Scene, canvas: Canvas, color: Rgba) -> Scene {
    Scene {
        preview: blank(canvas.width * canvas.height * 4),
        brush_color: color,
        state: ToolState::Painting,
        ..scene
    }
}

/// The scene after a fill operation begins. With the cursor on the canvas
/// the tool fills: the pixel under the cursor is the seed and alone in the
/// frontier, its colour is the target, and the image as it is is the
/// snapshot. With the cursor outside nothing changes.
pub open spec fn filling_begun(scene: Scene, canvas: Canvas, color: Rgba, speed: u32) -> Scene {
    match canvas.cursor_position {
        Ok(pos) => Scene {
            state: ToolState::Filling,
            bucket: BucketView {
                snapshot: Some(scene.live),
                fill_color: color,
                target_color: pixel(scene.live, canvas.width, pos),
                alive: set![pos],
                seed: pos,
                speed,
                elapsed: 0,
            },
            ..scene
        },
        Err(_) => scene,
    }
}

/// The scene after painting stops: the tool is idle, the recorded pixels are
/// in the image, and the paint buffer is blank.
pub open spec fn painting_stopped(scene: Scene, canvas: Canvas) -> Scene {
    Scene {
        live: applied(scene.live, canvas.width, canvas.height, scene.changed),
        preview: blank(canvas.width * canvas.height * 4),
        changed: no_changes(),
        state: ToolState::Idle,
        ..scene
    }
}

/// What processing one command does to the scene and the history. An
/// operation is not yet recorded by it.
pub open spec fn processed(center: Center, canvas: Canvas, command: CommandView) -> Center {
    match command {
        CommandView::Paint(color) => Center {
            scene: painting_begun(center.scene, canvas, color),
            ..center
        },
        CommandView::Fill(color, speed) => Center {
            scene: filling_begun(center.scene, canvas, color, speed),
            ..center
        },
        CommandView::StopPaint => Center { scene: painting_stopped(center.scene, canvas), ..center },
        CommandView::Undo => {
            let t = undone_once(Timeline { stacks: center.stacks, live: center.scene.live });
            Center { scene: Scene { live: t.live, ..center.scene }, stacks: t.stacks }
        },
        CommandView::Redo => {
            let t = redone_once(Timeline { stacks: center.stacks, live: center.scene.live });
            Center { scene: Scene { live: t.live, ..center.scene }, stacks: t.stacks }
        },
    }
}

/// Whether the command is an operation, which can be undone.
pub open spec fn undoable(command: CommandView) -> bool {
    command is Paint || command is Fill
}

/// A queued command after it is processed with the image bytes `live`: an
/// operation that begins holds those bytes. A fill with the cursor outside
/// the canvas does not begin, and holds what it held.
pub open spec fn begun(canvas: Canvas, queued: Entry<CommandView>, live: Seq<u8>) -> Entry<
    CommandView,
> {
    match queued.tag {
        CommandView::Paint(_) => Entry { tag: queued.tag, bytes: Some(live) },
        CommandView::Fill(_, _) => if canvas.cursor_position.is_ok() {
            Entry { tag: queued.tag, bytes: Some(live) }
        } else {
            queued
        },
        _ => queued,
    }
}

/// Every fill of the queue that has begun already holds exactly `len` bytes.
pub open spec fn waiting_sized(queue: Seq<Entry<CommandView>>, len: nat) -> bool {
    forall|k: int|
        0 <= k < queue.len() && (#[trigger] queue[k]).tag is Fill ==> entry_sized(queue[k], len)
}

/// What one command of the queue does: it is processed, and an operation
/// then joins the operations done.
pub open spec fn called(center: Center, canvas: Canvas, queued: Entry<CommandView>) -> Center {
    let after = processed(center, canvas, queued.tag);
    if undoable(queued.tag) {
        Center {
            stacks: Stacks {
                done: after.stacks.done.push(begun(canvas, queued, center.scene.live)),
                undone: after.stacks.undone,
            },
            ..after
        }
    } else {
        after
    }
}

/// What a queue of commands does, taken in order from the front.
pub open spec fn drained(center: Center, canvas: Canvas, queue: Seq<Entry<CommandView>>) -> Center
    decreases queue.len(),
{
    if queue.len() == 0 {
        center
    } else {
        drained(called(center, canvas, queue[0]), canvas, queue.drop_first())
    }
}

/// What a queue of commands does when none of them is recorded.
pub open spec fn drained_aside(center: Center, canvas: Canvas, queue: Seq<CommandView>) -> Center
    decreases queue.len(),
{
    if queue.len() == 0 {
        center
    } else {
        drained_aside(processed(center, canvas, queue[0]), canvas, queue.drop_first())
    }
}

/// A command that can be undone and redone.
pub enum CanvasOperation {
    Paint(Paint),
    Fill(Fill),
}

/// A command that cannot be undone.
pub enum CanvasCommand {
    StopPaint(StopPaint),
    Undo(Undo),
    Redo(Redo),
}

/// A command of the queue.
pub enum CommandType {
    Command(CanvasCommand),
    Operation(CanvasOperation),
}

impl View for CanvasOperation {
    type V = Entry<CommandView>;

    open spec fn view(&self) -> Entry<CommandView> {
        match self {
            CanvasOperation::Paint(paint) => Entry {
                tag: CommandView::Paint(paint.color),
                bytes: Some(paint.buffer@),
            },
            CanvasOperation::Fill(fill) => Entry {
                tag: CommandView::Fill(fill.color, fill.speed),
                bytes: fill.held(),
            },
        }
    }
}

impl View for CommandType {
    type V = Entry<CommandView>;

    /// The command, with the image bytes that it holds if it is an operation
    /// that has begun.
    open spec fn view(&self) -> Entry<CommandView> {
        match self {
            CommandType::Command(CanvasCommand::StopPaint(_)) => Entry {
                tag: CommandView::StopPaint,
                bytes: None,
            },
            CommandType::Command(CanvasCommand::Undo(_)) => Entry {
                tag: CommandView::Undo,
                bytes: None,
            },
            CommandType::Command(CanvasCommand::Redo(_)) => Entry {
                tag: CommandView::Redo,
                bytes: None,
            },
            CommandType::Operation(operation) => operation@,
        }
    }
}

impl CanvasOperation {
    pub fn name(&self) -> (name: &'static str)
        ensures
            name@ == (match self {
                CanvasOperation::Paint(_) => "Paint"@,
                CanvasOperation::Fill(_) => "Fill"@,
            }),
    {
        match self {
            CanvasOperation::Paint(paint) => paint.name(),
            CanvasOperation::Fill(fill) => fill.name(),
        }
    }

    /// Begins the operation, which takes the image as it is for its
    /// snapshot. A fill with the cursor outside the canvas does not begin.
    pub fn process(&mut self, world: &mut World)
        requires
            old(world).wf(),
        ensures
            final(world).wf(),
            final(world).same_frame(old(world)),
            final(self)@ == begun(old(world).canvas, old(self)@, old(world).image.data@),
            final(world).scene() == processed(
                Center { scene: old(world).scene(), stacks: Stacks { done: seq![], undone: seq![] } },
                old(world).canvas,
                old(self)@.tag,
            ).scene,
    {
        match self {
            CanvasOperation::Paint(paint) => paint.process(world),
            CanvasOperation::Fill(fill) => fill.process(world),
        }
    }

    /// Undoes the operation by exchanging its bytes with the image's. An
    /// operation that never began exchanges nothing.
    pub fn undo(&mut self, world: &mut World)
        requires
            entry_sized(old(self)@, old(world).image.data@.len()),
        ensures
            (final(self)@, final(world).image.data@) == exchanged(
                old(self)@,
                old(world).image.data@,
            ),
            final(world).image.width == old(world).image.width,
            final(world).image.height == old(world).image.height,
            final(world).same_frame(old(world)),
            final(world).scene() == (Scene {
                live: final(world).image.data@,
                ..old(world).scene()
            }),
            old(world).wf() ==> final(world).wf(),
    {
        match self {
            CanvasOperation::Paint(paint) => paint.undo(world),
            CanvasOperation::Fill(fill) => fill.undo(world),
        }
    }

    /// Cancels the operation: the image gets back the bytes that the
    /// operation holds, if it holds any, what the tool has in progress is
    /// dropped, and the tool goes idle.
    pub fn cancel(&mut self, world: &mut World)
        requires
            old(world).wf(),
            entry_sized(old(self)@, old(world).image.data@.len()),
        ensures
            (final(self)@, final(world).image.data@) == exchanged(
                old(self)@,
                old(world).image.data@,
            ),
            final(world).wf(),
            final(world).same_frame(old(world)),
            final(world).state == ToolState::Idle,
            final(world).scene() == (match *old(self) {
                CanvasOperation::Paint(_) => Scene {
                    live: final(world).image.data@,
                    preview: blank(old(world).canvas.width * old(world).canvas.height * 4),
                    changed: no_changes(),
                    state: ToolState::Idle,
                    ..old(world).scene()
                },
                CanvasOperation::Fill(_) => Scene {
                    live: final(world).image.data@,
                    state: ToolState::Idle,
                    bucket: BucketView { alive: Set::<Pos>::empty(), ..old(world).scene().bucket },
                    ..old(world).scene()
                },
            }),
    {
        match self {
            CanvasOperation::Paint(paint) => paint.cancel(world),
            CanvasOperation::Fill(fill) => fill.cancel(world),
        }
    }

    /// Redoes the operation by exchanging its bytes with the image's. An
    /// operation that never began exchanges nothing.
    pub fn redo(&mut self, world: &mut World)
        requires
            entry_sized(old(self)@, old(world).image.data@.len()),
        ensures
            (final(self)@, final(world).image.data@) == exchanged(
                old(self)@,
                old(world).image.data@,
            ),
            final(world).image.width == old(world).image.width,
            final(world).image.height == old(world).image.height,
            final(world).same_frame(old(world)),
            final(world).scene() == (Scene {
                live: final(world).image.data@,
                ..old(world).scene()
            }),
            old(world).wf() ==> final(world).wf(),
    {
        match self {
            CanvasOperation::Paint(paint) => paint.redo(world),
            CanvasOperation::Fill(fill) => fill.redo(world),
        }
    }
}

/// The command centre.
pub struct CanvasCommands {
    /// The commands that wait to be processed, the oldest first.
    pub call_queue: VecDeque<CommandType>,
    /// The operations that wait to be processed without being recorded.
    pub cancel_queue: VecDeque<CanvasOperation>,
    /// The operations done, the most recent last.
    pub call_history: Vec<CanvasOperation>,
    /// The operations undone, the most recent last.
    pub undo_history: Vec<CanvasOperation>,
    pub max_history: Option<usize>,
}

/// The command centre as plain values.
pub ghost struct CommandsView {
    pub queue: Seq<Entry<CommandView>>,
    pub aside: Seq<CommandView>,
    pub stacks: Stacks<CommandView>,
}

impl View for CanvasCommands {
    type V = CommandsView;

    open spec fn view(&self) -> CommandsView {
        CommandsView {
            queue: Seq::new(self.call_queue@.len(), |k: int| self.call_queue@[k]@),
            aside: Seq::new(self.cancel_queue@.len(), |k: int| self.cancel_queue@[k]@.tag),
            stacks: Stacks {
                done: Seq::new(self.call_history@.len(), |k: int| self.call_history@[k]@),
                undone: Seq::new(self.undo_history@.len(), |k: int| self.undo_history@[k]@),
            },
        }
    }
}

impl Default for CanvasCommands {
    fn default() -> (commands: CanvasCommands)
        ensures
            commands@.queue.len() == 0,
            commands@.aside.len() == 0,
            commands@.stacks.done.len() == 0,
            commands@.stacks.undone.len() == 0,
            commands.max_history.is_none(),
    {
        CanvasCommands {
            call_queue: VecDeque::new(),
            cancel_queue: VecDeque::new(),
            call_history: Vec::new(),
            undo_history: Vec::new(),
            max_history: None,
        }
    }
}

impl CanvasCommand {
    pub fn name(&self) -> (name: &'static str)
        ensures
            name@ == (match self {
                CanvasCommand::StopPaint(_) => "Stop Paint"@,
                CanvasCommand::Undo(_) => "Undo"@,
                CanvasCommand::Redo(_) => "Redo"@,
            }),
    {
        match self {
            CanvasCommand::StopPaint(stop) => stop.name(),
            CanvasCommand::Undo(undo) => undo.name(),
            CanvasCommand::Redo(redo) => redo.name(),
        }
    }
}

impl CommandType {
    pub fn command(command: CanvasCommand) -> (made: CommandType)
        ensures
            made == CommandType::Command(command),
    {
        CommandType::Command(command)
    }

    pub fn operation(operation: CanvasOperation) -> (made: CommandType)
        ensures
            made == CommandType::Operation(operation),
    {
        CommandType::Operation(operation)
    }

    pub fn is_operation(&self) -> (yes: bool)
        ensures
            yes == (self is Operation),
            yes == undoable(self@.tag),
    {
        match self {
            CommandType::Operation(_) => true,
            CommandType::Command(_) => false,
        }
    }

    /// Processes the command. An operation that begins takes the image as it
    /// is for its snapshot; it is not recorded here.
    pub fn process(&mut self, world: &mut World, canvas_commands: &mut CanvasCommands)
        requires
            old(world).wf(),
            sized(old(canvas_commands)@.stacks, old(world).image.data@.len()),
        ensures
            final(world).wf(),
            final(world).same_frame(old(world)),
            sized(final(canvas_commands)@.stacks, final(world).image.data@.len()),
            final(world).image.data@.len() == old(world).image.data@.len(),
            (Center { scene: final(world).scene(), stacks: final(canvas_commands)@.stacks })
                == processed(
                Center { scene: old(world).scene(), stacks: old(canvas_commands)@.stacks },
                old(world).canvas,
                old(self)@.tag,
            ),
            final(canvas_commands)@.queue == old(canvas_commands)@.queue,
            final(canvas_commands)@.aside == old(canvas_commands)@.aside,
            final(canvas_commands).max_history == old(canvas_commands).max_history,
            final(self)@ == begun(old(world).canvas, old(self)@, old(world).image.data@),
            (*final(self) is Operation) == (*old(self) is Operation),
    {
        match self {
            CommandType::Command(command) => {
                match command {
                    CanvasCommand::StopPaint(stop) => {
                        stop.process(world);
                    },
                    CanvasCommand::Undo(_) => {
                        canvas_commands.perform_undo(world);
                    },
                    CanvasCommand::Redo(_) => {
                        canvas_commands.perform_redo(world);
                    },
                }
            },
            CommandType::Operation(operation) => {
                operation.process(world);
            },
        }
    }
}

impl CanvasCommands {
    /// Puts a command at the end of the queue. A new operation discards the
    /// operations that could be redone.
    pub fn add(&mut self, command: CommandType)
        ensures
            final(self)@.queue == old(self)@.queue.push(command@),
            final(self)@.aside == old(self)@.aside,
            final(self)@.stacks.done == old(self)@.stacks.done,
            final(self)@.stacks.undone == (if undoable(command@.tag) {
                Seq::<Entry<CommandView>>::empty()
            } else {
                old(self)@.stacks.undone
            }),
            final(self).max_history == old(self).max_history,
    {
        if command.is_operation() {
            self.undo_history.clear();
        }
        self.call_queue.push_back(command);
        assert(self@.queue =~= old(self)@.queue.push(command@));
        assert(self@.aside =~= old(self)@.aside);
        assert(self@.stacks.done =~= old(self)@.stacks.done);
        assert(self@.stacks.undone =~= (if undoable(command@.tag) {
            Seq::<Entry<CommandView>>::empty()
        } else {
            old(self)@.stacks.undone
        }));
    }

    /// Puts an operation aside: it will be processed after the queue, and not
    /// recorded.
    pub fn cancel(&mut self, command: CanvasOperation)
        ensures
            final(self)@.aside == old(self)@.aside.push(command@.tag),
            final(self)@.queue == old(self)@.queue,
            final(self)@.stacks == old(self)@.stacks,
            final(self).max_history == old(self).max_history,
    {
        self.cancel_queue.push_back(command);
        assert(self@.aside =~= old(self)@.aside.push(command@.tag));
        assert(self@.queue =~= old(self)@.queue);
        assert(self@.stacks.done =~= old(self)@.stacks.done);
        assert(self@.stacks.undone =~= old(self)@.stacks.undone);
    }

    /// Queues the operation that begins a stroke in `color`.
    pub fn start_painting(&mut self, color: Rgba)
        ensures
            final(self)@.queue == old(self)@.queue.push(
                Entry { tag: CommandView::Paint(color), bytes: Some(Seq::<u8>::empty()) },
            ),
            final(self)@.aside == old(self)@.aside,
            final(self)@.stacks.done == old(self)@.stacks.done,
            final(self)@.stacks.undone.len() == 0,
            final(self).max_history == old(self).max_history,
    {
        let paint = Paint::new(color);
        assert(paint.buffer@ =~= Seq::<u8>::empty());
        self.add(CommandType::operation(CanvasOperation::Paint(paint)))
    }

    /// Queues the command that ends a stroke.
    pub fn stop_painting(&mut self)
        ensures
            final(self)@.queue == old(self)@.queue.push(
                Entry { tag: CommandView::StopPaint, bytes: None },
            ),
            final(self)@.aside == old(self)@.aside,
            final(self)@.stacks == old(self)@.stacks,
            final(self).max_history == old(self).max_history,
    {
        self.add(CommandType::command(CanvasCommand::StopPaint(StopPaint)))
    }

    /// Queues the operation that begins a fill in `color`, at half a growth
    /// step per millisecond.
    pub fn fill(&mut self, color: Rgba)
        ensures
            final(self)@.queue == old(self)@.queue.push(
                Entry { tag: CommandView::Fill(color, 500), bytes: None },
            ),
            final(self)@.aside == old(self)@.aside,
            final(self)@.stacks.done == old(self)@.stacks.done,
            final(self)@.stacks.undone.len() == 0,
            final(self).max_history == old(self).max_history,
    {
        match Fill::new(color, 500) {
            Ok(fill) => self.add(CommandType::operation(CanvasOperation::Fill(fill))),
            Err(_) => {},
        }
    }

    /// Queues an undo.
    pub fn undo(&mut self)
        ensures
            final(self)@.queue == old(self)@.queue.push(
                Entry { tag: CommandView::Undo, bytes: None },
            ),
            final(self)@.aside == old(self)@.aside,
            final(self)@.stacks == old(self)@.stacks,
            final(self).max_history == old(self).max_history,
    {
        self.add(CommandType::command(CanvasCommand::Undo(Undo)))
    }

    /// Queues a redo.
    pub fn redo(&mut self)
        ensures
            final(self)@.queue == old(self)@.queue.push(
                Entry { tag: CommandView::Redo, bytes: None },
            ),
            final(self)@.aside == old(self)@.aside,
            final(self)@.stacks == old(self)@.stacks,
            final(self).max_history == old(self).max_history,
    {
        self.add(CommandType::command(CanvasCommand::Redo(Redo)))
    }

    /// Whether an operation is done that an undo would take back.
    pub fn can_undo(&self) -> (yes: bool)
        ensures
            yes == (self@.stacks.done.len() > 0),
    {
        self.call_history.len() > 0
    }

    /// Whether an operation is undone that a redo would bring back.
    pub fn can_redo(&self) -> (yes: bool)
        ensures
            yes == (self@.stacks.undone.len() > 0),
    {
        self.undo_history.len() > 0
    }

    /// Undoes the last operation done, if there is one. Says whether there
    /// was one.
    pub fn perform_undo(&mut self, world: &mut World) -> (undone: bool)
        requires
            sized(old(self)@.stacks, old(world).image.data@.len()),
        ensures
            undone == (old(self)@.stacks.done.len() > 0),
            (Timeline { stacks: final(self)@.stacks, live: final(world).image.data@ })
                == undone_once(
                Timeline { stacks: old(self)@.stacks, live: old(world).image.data@ },
            ),
            final(world).scene() == (Scene {
                live: final(world).image.data@,
                ..old(world).scene()
            }),
            sized(final(self)@.stacks, final(world).image.data@.len()),
            final(world).image.data@.len() == old(world).image.data@.len(),
            final(world).same_frame(old(world)),
            old(world).wf() ==> final(world).wf(),
            final(self)@.queue == old(self)@.queue,
            final(self)@.aside == old(self)@.aside,
            final(self).max_history == old(self).max_history,
    {
        proof {
            lemma_sized_kept(Timeline { stacks: self@.stacks, live: world.image.data@ });
        }
        match self.call_history.pop() {
            Some(mut command) => {
                assert(command@ == old(self)@.stacks.done.last());
                command.undo(world);
                self.undo_history.push(command);
                assert(self@.stacks.done =~= old(self)@.stacks.done.drop_last());
                assert(self@.stacks.undone =~= old(self)@.stacks.undone.push(
                    exchanged(old(self)@.stacks.done.last(), old(world).image.data@).0,
                ));
                assert(self@.queue =~= old(self)@.queue);
                assert(self@.aside =~= old(self)@.aside);
                true
            },
            None => {
                assert(self@.stacks.done =~= old(self)@.stacks.done);
                assert(self@.stacks.undone =~= old(self)@.stacks.undone);
                assert(self@.queue =~= old(self)@.queue);
                assert(self@.aside =~= old(self)@.aside);
                false
            },
        }
    }

    /// Redoes the last operation undone, if there is one. Says whether there
    /// was one.
    pub fn perform_redo(&mut self, world: &mut World) -> (redone: bool)
        requires
            sized(old(self)@.stacks, old(world).image.data@.len()),
        ensures
            redone == (old(self)@.stacks.undone.len() > 0),
            (Timeline { stacks: final(self)@.stacks, live: final(world).image.data@ })
                == redone_once(
                Timeline { stacks: old(self)@.stacks, live: old(world).image.data@ },
            ),
            final(world).scene() == (Scene {
                live: final(world).image.data@,
                ..old(world).scene()
            }),
            sized(final(self)@.stacks, final(world).image.data@.len()),
            final(world).image.data@.len() == old(world).image.data@.len(),
            final(world).same_frame(old(world)),
            old(world).wf() ==> final(world).wf(),
            final(self)@.queue == old(self)@.queue,
            final(self)@.aside == old(self)@.aside,
            final(self).max_history == old(self).max_history,
    {
        proof {
            lemma_sized_kept(Timeline { stacks: self@.stacks, live: world.image.data@ });
        }
        match self.undo_history.pop() {
            Some(mut command) => {
                assert(command@ == old(self)@.stacks.undone.last());
                command.redo(world);
                self.call_history.push(command);
                assert(self@.stacks.undone =~= old(self)@.stacks.undone.drop_last());
                assert(self@.stacks.done =~= old(self)@.stacks.done.push(
                    exchanged(old(self)@.stacks.undone.last(), old(world).image.data@).0,
                ));
                assert(self@.queue =~= old(self)@.queue);
                assert(self@.aside =~= old(self)@.aside);
                true
            },
            None => {
                assert(self@.stacks.done =~= old(self)@.stacks.done);
                assert(self@.stacks.undone =~= old(self)@.stacks.undone);
                assert(self@.queue =~= old(self)@.queue);
                assert(self@.aside =~= old(self)@.aside);
                false
            },
        }
    }

    /// Drains the queue: every command is processed, the oldest first, and
    /// every operation among them is recorded as done. The operations put
    /// aside are processed after that, and not recorded.
    pub fn call(&mut self, world: &mut World)
        requires
            old(world).wf(),
            sized(old(self)@.stacks, old(world).image.data@.len()),
            waiting_sized(old(self)@.queue, old(world).image.data@.len()),
        ensures
            final(world).wf(),
            final(world).same_frame(old(world)),
            sized(final(self)@.stacks, final(world).image.data@.len()),
            final(world).image.data@.len() == old(world).image.data@.len(),
            final(self)@.queue.len() == 0,
            final(self)@.aside.len() == 0,
            final(self).max_history == old(self).max_history,
            (Center { scene: final(world).scene(), stacks: final(self)@.stacks }) == drained_aside(
                drained(
                    Center { scene: old(world).scene(), stacks: old(self)@.stacks },
                    old(world).canvas,
                    old(self)@.queue,
                ),
                old(world).canvas,
                old(self)@.aside,
            ),
    {
        let ghost canvas = world.canvas;
        let ghost goal = drained_aside(
            drained(Center { scene: world.scene(), stacks: self@.stacks }, canvas, self@.queue),
            canvas,
            self@.aside,
        );
        while self.call_queue.len() > 0
            invariant
                world.wf(),
                world.same_frame(old(world)),
                world.canvas == canvas,
                sized(self@.stacks, world.image.data@.len()),
                waiting_sized(self@.queue, world.image.data@.len()),
                world.image.data@.len() == old(world).image.data@.len(),
                self.max_history == old(self).max_history,
                goal == drained_aside(
                    drained(
                        Center { scene: world.scene(), stacks: self@.stacks },
                        canvas,
                        self@.queue,
                    ),
                    canvas,
                    self@.aside,
                ),
            decreases self.call_queue.len(),
        {
            let ghost before = Center { scene: world.scene(), stacks: self@.stacks };
            let ghost queue = self@.queue;
            let ghost aside = self@.aside;
            let next = self.call_queue.pop_front();
            if let Some(mut command) = next {
                assert(command@ == queue[0]);
                assert(self@.queue =~= queue.drop_first());
                assert forall|k: int| 0 <= k < queue.len() - 1 implies #[trigger] self@.queue[k]
                    == queue[k + 1] by {}
                assert(self@.aside =~= aside);
                assert(self@.stacks.done =~= before.stacks.done);
                assert(self@.stacks.undone =~= before.stacks.undone);
                command.process(world, self);
                let ghost after = Center { scene: world.scene(), stacks: self@.stacks };
                assert(after == processed(before, canvas, queue[0].tag));
                if let CommandType::Operation(op) = command {
                    self.call_history.push(op);
                    assert(self@.stacks.done =~= after.stacks.done.push(
                        begun(canvas, queue[0], before.scene.live),
                    ));
                    assert(self@.stacks.undone =~= after.stacks.undone);
                    assert(self@.queue =~= queue.drop_first());
                    assert(self@.aside =~= aside);
                }
                assert((Center { scene: world.scene(), stacks: self@.stacks }) == called(
                    before,
                    canvas,
                    queue[0],
                ));
            }
        }
        assert(self@.queue.len() == 0);
        while self.cancel_queue.len() > 0
            invariant
                world.wf(),
                world.same_frame(old(world)),
                world.canvas == canvas,
                sized(self@.stacks, world.image.data@.len()),
                world.image.data@.len() == old(world).image.data@.len(),
                self.max_history == old(self).max_history,
                self@.queue.len() == 0,
                goal == drained_aside(
                    Center { scene: world.scene(), stacks: self@.stacks },
                    canvas,
                    self@.aside,
                ),
            decreases self.cancel_queue.len(),
        {
            let ghost before = Center { scene: world.scene(), stacks: self@.stacks };
            let ghost aside = self@.aside;
            let next = self.cancel_queue.pop_front();
            if let Some(mut command) = next {
                assert(command@.tag == aside[0]);
                assert(self@.aside =~= aside.drop_first());
                assert(self@.stacks.done =~= before.stacks.done);
                assert(self@.stacks.undone =~= before.stacks.undone);
                command.process(world);
                assert((Center { scene: world.scene(), stacks: self@.stacks }) == processed(
                    before,
                    canvas,
                    aside[0],
                ));
            }
        }
    }
}

/// Drains the queue of the command centre.
pub fn process_commands(world: &mut World, canvas_commands: &mut CanvasCommands)
    requires
        old(world).wf(),
        sized(old(canvas_commands)@.stacks, old(world).image.data@.len()),
        waiting_sized(old(canvas_commands)@.queue, old(world).image.data@.len()),
    ensures
        final(world).wf(),
        final(world).same_frame(old(world)),
        sized(final(canvas_commands)@.stacks, final(world).image.data@.len()),
        final(world).image.data@.len() == old(world).image.data@.len(),
        final(canvas_commands)@.queue.len() == 0,
        final(canvas_commands)@.aside.len() == 0,
        final(canvas_commands).max_history == old(canvas_commands).max_history,
        (Center { scene: final(world).scene(), stacks: final(canvas_commands)@.stacks })
            == drained_aside(
            drained(
                Center { scene: old(world).scene(), stacks: old(canvas_commands)@.stacks },
                old(world).canvas,
                old(canvas_commands)@.queue,
            ),
            old(world).canvas,
            old(canvas_commands)@.aside,
        ),
{
    canvas_commands.call(world);
}

} // verus!
