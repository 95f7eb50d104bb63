//! The undo history: two stacks of edits, each edit holding the image bytes
//! that it gives back when it is undone or redone.

use vstd::prelude::*;
use crate::pixels::Image;

verus! {

/// One edit of a history: what made it, and the image bytes that it holds.
/// An edit that never began holds none.
pub ghost struct Entry<T> {
    pub tag: T,
    pub bytes: Option<Seq<u8>>,
}

/// The edit holds `len` bytes, or none at all.
pub open spec fn entry_sized<T>(entry: Entry<T>, len: nat) -> bool {
    match entry.bytes {
        Some(bytes) => bytes.len() == len,
        None => true,
    }
}

/// The two stacks of a history, the most recent edit last.
pub ghost struct Stacks<T> {
    /// The edits that are applied.
    pub done: Seq<Entry<T>>,
    /// The edits that were undone and can be redone.
    pub undone: Seq<Entry<T>>,
}

/// A history together with the live image bytes.
pub ghost struct Timeline<T> {
    pub stacks: Stacks<T>,
    pub live: Seq<u8>,
}

/// Every edit of both stacks that holds bytes holds exactly `len` of them.
pub open spec fn sized<T>(stacks: Stacks<T>, len: nat) -> bool {
    &&& forall|k: int| 0 <= k < stacks.done.len() ==> entry_sized(#[trigger] stacks.done[k], len)
    &&& forall|k: int|
        0 <= k < stacks.undone.len() ==> entry_sized(#[trigger] stacks.undone[k], len)
}

/// The history after a new edit: it is the last one done, and nothing is left
/// to redo.
pub open spec fn added<T>(stacks: Stacks<T>, entry: Entry<T>) -> Stacks<T> {
    Stacks { done: stacks.done.push(entry), undone: Seq::empty() }
}

/// The edit after an exchange with the image, and the image after it: an
/// edit that holds bytes gives them to the image and takes the image's; an
/// edit that holds none leaves the image alone.
pub open spec fn exchanged<T>(entry: Entry<T>, live: Seq<u8>) -> (Entry<T>, Seq<u8>) {
    match entry.bytes {
        Some(bytes) => (Entry { tag: entry.tag, bytes: Some(live) }, bytes),
        None => (entry, live),
    }
}

/// One undo: the last edit done exchanges its bytes with the image's and
/// moves to the undone edits. Nothing changes when no edit is done.
pub open spec fn undone_once<T>(t: Timeline<T>) -> Timeline<T> {
    if t.stacks.done.len() == 0 {
        t
    } else {
        let after = exchanged(t.stacks.done.last(), t.live);
        Timeline {
            stacks: Stacks {
                done: t.stacks.done.drop_last(),
                undone: t.stacks.undone.push(after.0),
            },
            live: after.1,
        }
    }
}

/// One redo: the last edit undone exchanges its bytes with the image's and
/// moves back to the edits done. Nothing changes when no edit is undone.
pub open spec fn redone_once<T>(t: Timeline<T>) -> Timeline<T> {
    if t.stacks.undone.len() == 0 {
        t
    } else {
        let after = exchanged(t.stacks.undone.last(), t.live);
        Timeline {
            stacks: Stacks {
                done: t.stacks.done.push(after.0),
                undone: t.stacks.undone.drop_last(),
            },
            live: after.1,
        }
    }
}

/// An edit made on the live image: the history records the bytes from before
/// the edit, and the image holds `after`.
pub open spec fn edited<T>(t: Timeline<T>, tag: T, after: Seq<u8>) -> Timeline<T> {
    Timeline { stacks: added(t.stacks, Entry { tag, bytes: Some(t.live) }), live: after }
}

/// A run of edits, each given by what made it and by the image bytes that it
/// leaves.
pub open spec fn edited_all<T>(t: Timeline<T>, edits: Seq<(T, Seq<u8>)>) -> Timeline<T>
    decreases edits.len(),
{
    if edits.len() == 0 {
        t
    } else {
        edited(edited_all(t, edits.drop_last()), edits.last().0, edits.last().1)
    }
}

/// `n` undos in a row.
pub open spec fn undone_times<T>(t: Timeline<T>, n: nat) -> Timeline<T>
    decreases n,
{
    if n == 0 {
        t
    } else {
        undone_times(undone_once(t), (n - 1) as nat)
    }
}

/// A run of edits grows the stack of edits done by one edit each.
pub proof fn lemma_edited_all_done<T>(t: Timeline<T>, edits: Seq<(T, Seq<u8>)>)
    ensures
        edited_all(t, edits).stacks.done.len() == t.stacks.done.len() + edits.len(),
    decreases edits.len(),
{
    if edits.len() > 0 {
        lemma_edited_all_done(t, edits.drop_last());
    }
}

/// Undoing as many edits as were made gives back the image bytes from before
/// the first of them, and the edits that were done before it.
pub proof fn lemma_round_trip<T>(t: Timeline<T>, edits: Seq<(T, Seq<u8>)>)
    ensures
        undone_times(edited_all(t, edits), edits.len()).live == t.live,
        undone_times(edited_all(t, edits), edits.len()).stacks.done == t.stacks.done,
    decreases edits.len(),
{
    if edits.len() > 0 {
        let before = edited_all(t, edits.drop_last());
        let after = edited_all(t, edits);
        assert(after == edited(before, edits.last().0, edits.last().1));
        let back = undone_once(after);
        assert(back.live == before.live);
        assert(back.stacks.done =~= before.stacks.done);
        lemma_undone_times_ignores_undone(back, before, (edits.len() - 1) as nat);
        lemma_round_trip(t, edits.drop_last());
        lemma_edited_all_done(t, edits.drop_last());
    }
}

/// What `n` undos leave in the image and among the edits done depends only on
/// the image and on the edits done, as long as `n` edits are done.
pub proof fn lemma_undone_times_ignores_undone<T>(s: Timeline<T>, t: Timeline<T>, n: nat)
    requires
        s.live == t.live,
        s.stacks.done == t.stacks.done,
    ensures
        undone_times(s, n).live == undone_times(t, n).live,
        undone_times(s, n).stacks.done == undone_times(t, n).stacks.done,
    decreases n,
{
    if n > 0 {
        lemma_undone_times_ignores_undone(undone_once(s), undone_once(t), (n - 1) as nat);
    }
}

/// A redo after an undo gives back the history and the image bytes from
/// before the undo.
pub proof fn lemma_redo_inverts_undo<T>(t: Timeline<T>)
    requires
        t.stacks.done.len() > 0,
    ensures
        redone_once(undone_once(t)) == t,
{
    let u = undone_once(t);
    let r = redone_once(u);
    assert(u.stacks.undone.last() == exchanged(t.stacks.done.last(), t.live).0);
    assert(r.stacks.undone =~= t.stacks.undone);
    assert(r.stacks.done =~= t.stacks.done);
}

/// An edit made after an undo discards what was undone: a redo then changes
/// nothing.
pub proof fn lemma_branch_invalidates<T>(t: Timeline<T>, tag: T, after: Seq<u8>)
    ensures
        edited(undone_once(t), tag, after).stacks.undone.len() == 0,
        redone_once(edited(undone_once(t), tag, after)) == edited(undone_once(t), tag, after),
{
}

/// Undoing and redoing keep the size of every edit, when the image has that
/// size too.
pub proof fn lemma_sized_kept<T>(t: Timeline<T>)
    requires
        sized(t.stacks, t.live.len()),
    ensures
        sized(undone_once(t).stacks, t.live.len()),
        undone_once(t).live.len() == t.live.len(),
        sized(redone_once(t).stacks, t.live.len()),
        redone_once(t).live.len() == t.live.len(),
{
}

/// What made an edit.
#[derive(Clone, Copy, Debug, PartialEq, Eq, Structural)]
pub enum EditKind {
    Painted,
    Filled,
    Selected,
}

/// An edit that can be undone, with the image bytes that it holds.
pub enum HistoryItem {
    Painted(Vec<u8>),
    Filled(Vec<u8>),
    Selected(Vec<u8>),
}

impl View for HistoryItem {
    type V = Entry<EditKind>;

    open spec fn view(&self) -> Entry<EditKind> {
        match self {
            HistoryItem::Painted(bytes) => Entry { tag: EditKind::Painted, bytes: Some(bytes@) },
            HistoryItem::Filled(bytes) => Entry { tag: EditKind::Filled, bytes: Some(bytes@) },
            HistoryItem::Selected(bytes) => Entry {
                tag: EditKind::Selected,
                bytes: Some(bytes@),
            },
        }
    }
}

impl HistoryItem {
    /// An edit of the given kind that holds `bytes`.
    pub fn of(kind: EditKind, bytes: Vec<u8>) -> (item: HistoryItem)
        ensures
            item@ == (Entry { tag: kind, bytes: Some(bytes@) }),
    {
        match kind {
            EditKind::Painted => HistoryItem::Painted(bytes),
            EditKind::Filled => HistoryItem::Filled(bytes),
            EditKind::Selected => HistoryItem::Selected(bytes),
        }
    }

    /// The kind of the edit and the bytes that it holds.
    pub fn into_parts(self) -> (parts: (EditKind, Vec<u8>))
        ensures
            self@ == (Entry { tag: parts.0, bytes: Some(parts.1@) }),
    {
        match self {
            HistoryItem::Painted(bytes) => (EditKind::Painted, bytes),
            HistoryItem::Filled(bytes) => (EditKind::Filled, bytes),
            HistoryItem::Selected(bytes) => (EditKind::Selected, bytes),
        }
    }
}

/// The history of the edits made with the tools.
pub struct History {
    /// The edits that are applied, the most recent last.
    pub past: Vec<HistoryItem>,
    /// The edits that were undone, the most recent last.
    pub future: Vec<HistoryItem>,
    pub max_size: usize,
}

impl View for History {
    type V = Stacks<EditKind>;

    open spec fn view(&self) -> Stacks<EditKind> {
        Stacks {
            done: Seq::new(self.past@.len(), |k: int| self.past@[k]@),
            undone: Seq::new(self.future@.len(), |k: int| self.future@[k]@),
        }
    }
}

impl Default for History {
    fn default() -> (history: History)
        ensures
            history@.done.len() == 0,
            history@.undone.len() == 0,
            history.max_size == 0,
    {
        History { past: Vec::new(), future: Vec::new(), max_size: 0 }
    }
}

impl History {
    /// Records a new edit and discards the edits that could be redone.
    pub fn add(&mut self, item: HistoryItem)
        ensures
            final(self)@ == added(old(self)@, item@),
            final(self).max_size == old(self).max_size,
    {
        self.past.push(item);
        self.future.clear();
        assert(self@.done =~= old(self)@.done.push(item@));
        assert(self@.undone =~= Seq::<Entry<EditKind>>::empty());
    }

    /// Undoes the last edit done, if there is one, by exchanging its bytes
    /// with the image's. Says whether there was one.
    pub fn undo(&mut self, image: &mut Image) -> (undone: bool)
        requires
            sized(old(self)@, old(image).data@.len()),
        ensures
            undone == (old(self)@.done.len() > 0),
            (Timeline { stacks: final(self)@, live: final(image).data@ }) == undone_once(
                Timeline { stacks: old(self)@, live: old(image).data@ },
            ),
            sized(final(self)@, final(image).data@.len()),
            final(image).data@.len() == old(image).data@.len(),
            final(image).width == old(image).width,
            final(image).height == old(image).height,
            final(self).max_size == old(self).max_size,
    {
        proof {
            lemma_sized_kept(Timeline { stacks: self@, live: image.data@ });
        }
        match self.past.pop() {
            Some(item) => {
                assert(item@ == old(self)@.done.last());
                let (kind, mut bytes) = item.into_parts();
                std::mem::swap(&mut bytes, &mut image.data);
                self.future.push(HistoryItem::of(kind, bytes));
                assert(self@.done =~= old(self)@.done.drop_last());
                assert(self@.undone =~= old(self)@.undone.push(
                    Entry { tag: kind, bytes: Some(old(image).data@) },
                ));
                true
            },
            None => {
                assert(self@.done =~= old(self)@.done);
                assert(self@.undone =~= old(self)@.undone);
                false
            },
        }
    }

    /// Redoes the last edit undone, if there is one, by exchanging its bytes
    /// with the image's. Says whether there was one.
    pub fn redo(&mut self, image: &mut Image) -> (redone: bool)
        requires
            sized(old(self)@, old(image).data@.len()),
        ensures
            redone == (old(self)@.undone.len() > 0),
            (Timeline { stacks: final(self)@, live: final(image).data@ }) == redone_once(
                Timeline { stacks: old(self)@, live: old(image).data@ },
            ),
            sized(final(self)@, final(image).data@.len()),
            final(image).data@.len() == old(image).data@.len(),
            final(image).width == old(image).width,
            final(image).height == old(image).height,
            final(self).max_size == old(self).max_size,
    {
        proof {
            lemma_sized_kept(Timeline { stacks: self@, live: image.data@ });
        }
        match self.future.pop() {
            Some(item) => {
                assert(item@ == old(self)@.undone.last());
                let (kind, mut bytes) = item.into_parts();
                std::mem::swap(&mut bytes, &mut image.data);
                self.past.push(HistoryItem::of(kind, bytes));
                assert(self@.undone =~= old(self)@.undone.drop_last());
                assert(self@.done =~= old(self)@.done.push(
                    Entry { tag: kind, bytes: Some(old(image).data@) },
                ));
                true
            },
            None => {
                assert(self@.done =~= old(self)@.done);
                assert(self@.undone =~= old(self)@.undone);
                false
            },
        }
    }
}

/// Handles the undo and redo keys of one tick: an undo if its key was
/// pressed, then a redo if its key was pressed.
pub fn undo_redo(history: &mut History, image: &mut Image, undo_pressed: bool, redo_pressed: bool)
    requires
        sized(old(history)@, old(image).data@.len()),
    ensures
        ({
            let start = Timeline { stacks: old(history)@, live: old(image).data@ };
            let middle = if undo_pressed {
                undone_once(start)
            } else {
                start
            };
            (Timeline { stacks: final(history)@, live: final(image).data@ }) == (if redo_pressed {
                redone_once(middle)
            } else {
                middle
            })
        }),
        sized(final(history)@, final(image).data@.len()),
        final(image).data@.len() == old(image).data@.len(),
        final(image).width == old(image).width,
        final(image).height == old(image).height,
{
    if undo_pressed {
        history.undo(image);
    }
    if redo_pressed {
        history.redo(image);
    }
}

} // verus!
