//! The frontier of a fill: the set of pixels from which the fill still grows.

use vstd::prelude::*;
use bevy::utils::HashSet;
use crate::pixels::Pos;

verus! {

/// A set of pixels, kept in a hash set.
#[verifier::external_body]
pub struct Frontier {
    pixels: HashSet<(i32, i32)>,
}

/// The pixels that a frontier holds.
pub uninterp spec fn frontier_pixels(frontier: Frontier) -> Set<Pos>;

impl View for Frontier {
    type V = Set<Pos>;

    open spec fn view(&self) -> Set<Pos> {
        frontier_pixels(*self)
    }
}

/// `HashSet::default` of hashbrown: a set that holds nothing.
#[verifier::external_body]
fn set_new() -> (frontier: Frontier)
    ensures
        frontier_pixels(frontier) == Set::<Pos>::empty(),
{
    Frontier { pixels: HashSet::default() }
}

/// `HashSet::is_empty` of hashbrown: whether the set holds nothing.
#[verifier::external_body]
fn set_is_empty(frontier: &Frontier) -> (empty: bool)
    ensures
        empty == (frontier_pixels(*frontier) == Set::<Pos>::empty()),
{
    frontier.pixels.is_empty()
}

/// `HashSet::len` of hashbrown: the number of values that the set holds.
#[verifier::external_body]
fn set_len(frontier: &Frontier) -> (count: usize)
    ensures
        count == frontier_pixels(*frontier).len(),
{
    frontier.pixels.len()
}

/// `HashSet::contains` of hashbrown: whether the set holds the value.
#[verifier::external_body]
fn set_contains(frontier: &Frontier, pos: Pos) -> (held: bool)
    ensures
        held == frontier_pixels(*frontier).contains(pos),
{
    frontier.pixels.contains(&pos)
}

/// `HashSet::insert` of hashbrown: the set holds the value afterwards, and
/// the result says whether it is new to the set.
#[verifier::external_body]
fn set_insert(frontier: &mut Frontier, pos: Pos) -> (fresh: bool)
    ensures
        frontier_pixels(*final(frontier)) == frontier_pixels(*old(frontier)).insert(pos),
        fresh == !frontier_pixels(*old(frontier)).contains(pos),
{
    frontier.pixels.insert(pos)
}

/// `HashSet::remove` of hashbrown: the set does not hold the value
/// afterwards, and the result says whether it did before.
#[verifier::external_body]
fn set_remove(frontier: &mut Frontier, pos: Pos) -> (held: bool)
    ensures
        frontier_pixels(*final(frontier)) == frontier_pixels(*old(frontier)).remove(pos),
        held == frontier_pixels(*old(frontier)).contains(pos),
{
    frontier.pixels.remove(&pos)
}

/// `HashSet::iter` of hashbrown: every value that the set holds comes out
/// once, in an order that is left open.
#[verifier::external_body]
fn set_values(frontier: &Frontier) -> (values: Vec<Pos>)
    ensures
        values@.no_duplicates(),
        values@.to_set() == frontier_pixels(*frontier),
{
    frontier.pixels.iter().copied().collect()
}

impl Frontier {
    /// A frontier without pixels.
    pub fn new() -> (frontier: Frontier)
        ensures
            frontier@ == Set::<Pos>::empty(),
    {
        set_new()
    }

    /// A frontier that holds `seed` and nothing else.
    pub fn from_seed(seed: Pos) -> (frontier: Frontier)
        ensures
            frontier@ == set![seed],
    {
        let mut frontier = set_new();
        set_insert(&mut frontier, seed);
        assert(frontier@ =~= set![seed]);
        frontier
    }

    /// Whether the frontier holds no pixel.
    pub fn is_empty(&self) -> (empty: bool)
        ensures
            empty == (self@ == Set::<Pos>::empty()),
    {
        set_is_empty(self)
    }

    /// Number of pixels in the frontier.
    pub fn len(&self) -> (count: usize)
        ensures
            count == self@.len(),
    {
        set_len(self)
    }

    /// Whether `pos` is in the frontier.
    pub fn contains(&self, pos: Pos) -> (held: bool)
        ensures
            held == self@.contains(pos),
    {
        set_contains(self, pos)
    }

    /// Puts `pos` into the frontier. Says whether it was not there before.
    pub fn insert(&mut self, pos: Pos) -> (fresh: bool)
        ensures
            final(self)@ == old(self)@.insert(pos),
            fresh == !old(self)@.contains(pos),
    {
        set_insert(self, pos)
    }

    /// Takes `pos` out of the frontier. Says whether it was there.
    pub fn remove(&mut self, pos: Pos) -> (held: bool)
        ensures
            final(self)@ == old(self)@.remove(pos),
            held == old(self)@.contains(pos),
    {
        set_remove(self, pos)
    }

    /// The pixels of the frontier, each once, in no particular order.
    pub fn pixels(&self) -> (pixels: Vec<Pos>)
        ensures
            pixels@.no_duplicates(),
            pixels@.to_set() == self@,
            forall|p: Pos| pixels@.contains(p) <==> self@.contains(p),
    {
        let pixels = set_values(self);
        assert forall|p: Pos| pixels@.contains(p) <==> self@.contains(p) by {
            assert(pixels@.to_set().contains(p) <==> pixels@.contains(p));
        }
        pixels
    }
}

impl Default for Frontier {
    fn default() -> (frontier: Frontier)
        ensures
            frontier@ == Set::<Pos>::empty(),
    {
        Frontier::new()
    }
}

} // verus!
