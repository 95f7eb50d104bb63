//! The paint buffer: a preview image of the strokes that are not committed
//! yet, with a record of the pixels that they changed.

use vstd::prelude::*;
use bevy::utils::HashMap;
use crate::pixels::{
    fits, in_bounds, lemma_pixels_determine, lemma_with_pixel, pixel, with_pixel, Image, Pos, Rgba,
};
use crate::tools::{blank, blank_bytes};

verus! {

/// The pixels that were changed and the colour of each, kept in a hash map.
#[verifier::external_body]
pub struct ChangedPixels {
    map: HashMap<(i32, i32), (u8, u8, u8, u8)>,
}

/// The channels of a colour: red, green, blue, alpha.
pub type Channels = (u8, u8, u8, u8);

/// The colour that each changed pixel was given.
pub uninterp spec fn changed_pixels(changed: ChangedPixels) -> Map<Pos, Channels>;

/// The colour with the given channels.
pub open spec fn rgba(channels: Channels) -> Rgba {
    Rgba { r: channels.0, g: channels.1, b: channels.2, a: channels.3 }
}

/// The record without pixels.
pub open spec fn no_changes() -> Map<Pos, Channels> {
    Map::empty()
}

/// No pixel occurs twice among the entries.
pub open spec fn distinct_keys(entries: Seq<(Pos, Channels)>) -> bool {
    forall|i: int, j: int|
        0 <= i < j < entries.len() ==> (#[trigger] entries[i]).0 != (#[trigger] entries[j]).0
}

/// `HashMap::default` of hashbrown: a map without entries.
#[verifier::external_body]
fn map_new() -> (changed: ChangedPixels)
    ensures
        changed_pixels(changed) == no_changes(),
{
    ChangedPixels { map: HashMap::default() }
}

/// `HashMap::insert` of hashbrown: the key has the value afterwards, and the
/// result is the value that it had before, if it had one.
#[verifier::external_body]
fn map_insert(changed: &mut ChangedPixels, pos: Pos, color: Channels) -> (before: Option<Channels>)
    ensures
        changed_pixels(*final(changed)) == changed_pixels(*old(changed)).insert(pos, color),
        before == (if changed_pixels(*old(changed)).contains_key(pos) {
            Some(changed_pixels(*old(changed))[pos])
        } else {
            None
        }),
{
    changed.map.insert(pos, color)
}

/// `HashMap::iter` of hashbrown: every entry of the map comes out once, in
/// an order that is left open.
#[verifier::external_body]
fn map_entries(changed: &ChangedPixels) -> (entries: Vec<(Pos, Channels)>)
    ensures
        distinct_keys(entries@),
        forall|i: int|
            0 <= i < entries@.len() ==> changed_pixels(*changed).contains_pair(
                (#[trigger] entries@[i]).0,
                entries@[i].1,
            ),
        forall|p: Pos| #[trigger]
            changed_pixels(*changed).contains_key(p) ==> exists|i: int|
                0 <= i < entries@.len() && (#[trigger] entries@[i]).0 == p,
{
    changed.map.iter().map(|(p, c)| (*p, *c)).collect()
}

impl View for ChangedPixels {
    type V = Map<Pos, Channels>;

    open spec fn view(&self) -> Map<Pos, Channels> {
        changed_pixels(*self)
    }
}

impl ChangedPixels {
    /// A record without pixels.
    pub fn new() -> (changed: ChangedPixels)
        ensures
            changed@ == no_changes(),
    {
        map_new()
    }

    /// Records `color` for the pixel at `pos`. The result is the colour that
    /// was recorded for it before, if there was one.
    pub fn insert(&mut self, pos: Pos, color: Rgba) -> (before: Option<Rgba>)
        ensures
            final(self)@ == old(self)@.insert(pos, (color.r, color.g, color.b, color.a)),
            before == (if old(self)@.contains_key(pos) {
                Some(rgba(old(self)@[pos]))
            } else {
                None
            }),
    {
        match map_insert(self, pos, (color.r, color.g, color.b, color.a)) {
            Some(c) => Some(Rgba { r: c.0, g: c.1, b: c.2, a: c.3 }),
            None => None,
        }
    }

    /// The recorded pixels with their colours, each pixel once, in no
    /// particular order.
    pub fn entries(&self) -> (entries: Vec<(Pos, Rgba)>)
        ensures
            forall|i: int, j: int|
                0 <= i < j < entries@.len() ==> (#[trigger] entries@[i]).0 != (
                #[trigger] entries@[j]).0,
            forall|i: int|
                0 <= i < entries@.len() ==> self@.contains_key((#[trigger] entries@[i]).0) && rgba(
                    self@[entries@[i].0],
                ) == entries@[i].1,
            forall|p: Pos| #[trigger]
                self@.contains_key(p) ==> exists|i: int|
                    0 <= i < entries@.len() && (#[trigger] entries@[i]).0 == p,
    {
        let raw = map_entries(self);
        let mut entries: Vec<(Pos, Rgba)> = Vec::with_capacity(raw.len());
        let mut k: usize = 0;
        while k < raw.len()
            invariant
                k <= raw.len(),
                entries@.len() == k,
                forall|i: int|
                    0 <= i < k ==> (#[trigger] entries@[i]).0 == raw@[i].0 && entries@[i].1 == rgba(
                        raw@[i].1,
                    ),
            decreases raw.len() - k,
        {
            let (pos, c) = raw[k];
            entries.push((pos, Rgba { r: c.0, g: c.1, b: c.2, a: c.3 }));
            k += 1;
        }
        assert forall|i: int, j: int| 0 <= i < j < entries@.len() implies (#[trigger] entries@[i]).0
            != (#[trigger] entries@[j]).0 by {
            assert(raw@[i].0 != raw@[j].0);
        }
        assert forall|i: int| 0 <= i < entries@.len() implies self@.contains_key(
            (#[trigger] entries@[i]).0,
        ) && rgba(self@[entries@[i].0]) == entries@[i].1 by {
            assert(self@.contains_pair(raw@[i].0, raw@[i].1));
        }
        assert forall|p: Pos| #[trigger] self@.contains_key(p) implies exists|i: int|
            0 <= i < entries@.len() && (#[trigger] entries@[i]).0 == p by {
            let i = choose|i: int| 0 <= i < raw@.len() && (#[trigger] raw@[i]).0 == p;
            assert(entries@[i].0 == p);
        }
        entries
    }
}

/// `out` is `live` with every recorded pixel in its recorded colour.
pub open spec fn is_applied(
    live: Seq<u8>,
    out: Seq<u8>,
    width: u32,
    height: u32,
    changed: Map<Pos, Channels>,
) -> bool {
    &&& fits(out, width, height)
    &&& forall|p: Pos|
        in_bounds(p, width, height) ==> #[trigger] pixel(out, width, p) == (if changed.contains_key(
            p,
        ) {
            rgba(changed[p])
        } else {
            pixel(live, width, p)
        })
}

/// The buffer `live` with every recorded pixel in its recorded colour.
pub open spec fn applied(live: Seq<u8>, width: u32, height: u32, changed: Map<Pos, Channels>) -> Seq<
    u8,
> {
    choose|out: Seq<u8>| is_applied(live, out, width, height, changed)
}

/// There is one buffer only with every recorded pixel in its recorded colour
/// and every other pixel as in `live`.
pub proof fn lemma_applied(
    live: Seq<u8>,
    out: Seq<u8>,
    width: u32,
    height: u32,
    changed: Map<Pos, Channels>,
)
    requires
        is_applied(live, out, width, height, changed),
        width <= i32::MAX,
        height <= i32::MAX,
    ensures
        out == applied(live, width, height, changed),
{
    lemma_pixels_determine(out, applied(live, width, height, changed), width, height);
}

/// The preview image of the strokes in progress and the pixels they changed.
pub struct ImageBuffer {
    /// The preview image.
    pub image: Image,
    /// The pixels painted since the buffer was last cleared.
    pub changed: ChangedPixels,
}

impl ImageBuffer {
    /// The preview image is sound and every changed pixel lies on it.
    pub open spec fn wf(&self) -> bool {
        &&& self.image.wf()
        &&& forall|p: Pos| #[trigger]
            self.changed@.contains_key(p) ==> in_bounds(p, self.image.width, self.image.height)
    }

    /// The colour that the record holds for `pos`, if any.
    pub open spec fn recorded(&self, pos: Pos) -> Option<Rgba> {
        if self.changed@.contains_key(pos) {
            Some(rgba(self.changed@[pos]))
        } else {
            None
        }
    }

    /// Paints `color` at `pos` of the preview and records it. Says whether
    /// that changed anything: it does not where the pixel was last painted in
    /// the same colour.
    pub fn paint(&mut self, pos: Pos, color: Rgba) -> (painted: bool)
        requires
            old(self).wf(),
            in_bounds(pos, old(self).image.width, old(self).image.height),
        ensures
            final(self).wf(),
            final(self).changed@ == old(self).changed@.insert(
                pos,
                (color.r, color.g, color.b, color.a),
            ),
            painted == (old(self).recorded(pos) != Some(color)),
            final(self).image.data@ == (if painted {
                with_pixel(old(self).image.data@, old(self).image.width, pos, color)
            } else {
                old(self).image.data@
            }),
            final(self).image.width == old(self).image.width,
            final(self).image.height == old(self).image.height,
    {
        match self.changed.insert(pos, color) {
            Some(before) => {
                if before.r == color.r && before.g == color.g && before.b == color.b && before.a
                    == color.a {
                    return false;
                }
            },
            None => {},
        }
        self.image.paint(pos, color);
        true
    }

    /// Writes every recorded pixel into `target`.
    pub fn apply_to_image(&self, target: &mut Image)
        requires
            self.wf(),
            old(target).wf(),
            old(target).width == self.image.width,
            old(target).height == self.image.height,
        ensures
            final(target).wf(),
            final(target).width == old(target).width,
            final(target).height == old(target).height,
            is_applied(
                old(target).data@,
                final(target).data@,
                old(target).width,
                old(target).height,
                self.changed@,
            ),
    {
        let entries = self.changed.entries();
        let ghost width = target.width;
        let ghost height = target.height;
        let mut k: usize = 0;
        while k < entries.len()
            invariant
                k <= entries.len(),
                self.wf(),
                target.wf(),
                target.width == width,
                target.height == height,
                width == self.image.width,
                height == self.image.height,
                width == old(target).width,
                height == old(target).height,
                forall|i: int, j: int|
                    0 <= i < j < entries@.len() ==> (#[trigger] entries@[i]).0 != (
                    #[trigger] entries@[j]).0,
                forall|i: int|
                    0 <= i < entries@.len() ==> self.changed@.contains_key(
                        (#[trigger] entries@[i]).0,
                    ) && rgba(self.changed@[entries@[i].0]) == entries@[i].1,
                forall|p: Pos|
                    in_bounds(p, width, height) ==> #[trigger] pixel(target.data@, width, p) == (
                    if exists|i: int| 0 <= i < k && (#[trigger] entries@[i]).0 == p {
                        rgba(self.changed@[p])
                    } else {
                        pixel(old(target).data@, width, p)
                    }),
            decreases entries.len() - k,
        {
            let (pos, color) = entries[k];
            let ghost prev = target.data@;
            proof {
                assert(self.changed@.contains_key(entries@[k as int].0));
                lemma_with_pixel(prev, width, height, pos, color);
            }
            target.paint(pos, color);
            proof {
                assert forall|p: Pos| in_bounds(p, width, height) implies #[trigger] pixel(
                    target.data@,
                    width,
                    p,
                ) == (if exists|i: int| 0 <= i < k + 1 && (#[trigger] entries@[i]).0 == p {
                    rgba(self.changed@[p])
                } else {
                    pixel(old(target).data@, width, p)
                }) by {
                    if p == pos {
                        assert(entries@[k as int].0 == p);
                    } else {
                        if exists|i: int| 0 <= i < k + 1 && (#[trigger] entries@[i]).0 == p {
                            let i = choose|i: int| 0 <= i < k + 1 && (#[trigger] entries@[i]).0 == p;
                            assert(i < k);
                        }
                    }
                }
            }
            k += 1;
        }
        proof {
            assert forall|p: Pos| in_bounds(p, width, height) implies #[trigger] pixel(
                target.data@,
                width,
                p,
            ) == (match self.recorded(p) {
                Some(color) => color,
                None => pixel(old(target).data@, width, p),
            }) by {
                if self.changed@.contains_key(p) {
                    let i = choose|i: int| 0 <= i < entries@.len() && (#[trigger] entries@[i]).0 == p;
                    assert(entries@[i].0 == p);
                } else {
                    if exists|i: int| 0 <= i < k && (#[trigger] entries@[i]).0 == p {
                        let i = choose|i: int| 0 <= i < k && (#[trigger] entries@[i]).0 == p;
                        assert(self.changed@.contains_key(entries@[i].0));
                    }
                }
            }
        }
    }

    /// Forgets the recorded pixels and blanks the preview, which takes the
    /// given size.
    pub fn clear(&mut self, width: u32, height: u32)
        requires
            width * height * 4 <= usize::MAX,
        ensures
            final(self).changed@ == no_changes(),
            final(self).image.data@ == blank(width * height * 4),
            final(self).image.width == width,
            final(self).image.height == height,
            final(self).wf(),
    {
        self.changed = ChangedPixels::new();
        let len: usize = width as usize * height as usize * 4;
        self.image.data = blank_bytes(len);
        self.image.width = width;
        self.image.height = height;
    }
}

/// The paint buffer at startup: a blank preview of 128 by 128 pixels and no
/// recorded pixel.
pub fn setup_buffer() -> (buffer: ImageBuffer)
    ensures
        buffer.wf(),
        buffer.image.width == 128,
        buffer.image.height == 128,
        buffer.image.data@ == blank(65536),
        buffer.changed@ == no_changes(),
{
    let preview = Image { data: blank_bytes(128 * 128 * 4), width: 128, height: 128 };
    ImageBuffer { image: preview, changed: ChangedPixels::new() }
}

} // verus!
