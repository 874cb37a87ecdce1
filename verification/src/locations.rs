//! The small vector in which acquired locations are handed out.
//!
//! The vector is a `smallvec::SmallVec`, whose inside Verus does not read.
//! What it holds is named by [`location_items`], and the contracts of the
//! four calls that are made into it are taken on trust from its source:
//! nothing else in this crate is.

use vstd::prelude::*;
use smallvec::SmallVec;
use crate::location::Location;

verus! {

/// A list of locations: a `SmallVec<[Location; 1]>`, which keeps its items
/// inline while it holds at most one.
#[verifier::external_body]
pub struct Locations {
    items: SmallVec<[Location; 1]>,
}

/// The locations a list holds, first pushed first.
pub uninterp spec fn location_items(v: Locations) -> Seq<Location>;

/// `SmallVec::new`: a vector that holds nothing.
#[verifier::external_body]
fn locations_new() -> (v: Locations)
    ensures
        location_items(v) == Seq::<Location>::empty(),
{
    Locations { items: SmallVec::new() }
}

/// `SmallVec::push`: the vector afterwards holds what it held, then `loc`.
/// The call panics when the length would pass `usize::MAX`, so that is
/// excluded.
#[verifier::external_body]
fn locations_push(v: &mut Locations, loc: Location)
    requires
        location_items(*old(v)).len() < usize::MAX,
    ensures
        location_items(*final(v)) == location_items(*old(v)).push(loc),
{
    v.items.push(loc)
}

/// `SmallVec::len`: how many locations the vector holds.
#[verifier::external_body]
fn locations_len(v: &Locations) -> (n: usize)
    ensures
        n == location_items(*v).len(),
{
    v.items.len()
}

/// Indexing a `SmallVec`: the location at position `i`. Out of bounds the
/// call panics, so that is excluded.
#[verifier::external_body]
fn locations_get(v: &Locations, i: usize) -> (loc: Location)
    requires
        i < location_items(*v).len(),
    ensures
        loc == location_items(*v)[i as int],
{
    v.items[i]
}

impl Locations {
    /// The locations in the list, in order.
    pub open spec fn view(&self) -> Seq<Location> {
        location_items(*self)
    }

    /// An empty list.
    pub fn new() -> (v: Locations)
        ensures
            v@ == Seq::<Location>::empty(),
    {
        locations_new()
    }

    /// Appends `loc`.
    pub fn push(&mut self, loc: Location)
        requires
            old(self)@.len() < usize::MAX,
        ensures
            final(self)@ == old(self)@.push(loc),
    {
        locations_push(self, loc)
    }

    /// The number of locations in the list.
    pub fn len(&self) -> (n: usize)
        ensures
            n == self@.len(),
    {
        locations_len(self)
    }

    /// The location at position `i`.
    pub fn get(&self, i: usize) -> (loc: Location)
        requires
            i < self@.len(),
        ensures
            loc == self@[i as int],
    {
        locations_get(self, i)
    }

    /// The same locations, in the same order, as a `Vec`.
    pub fn to_vec(&self) -> (v: Vec<Location>)
        ensures
            v@ == self@,
    {
        let n: usize = self.len();
        let mut v: Vec<Location> = Vec::new();
        let mut i: usize = 0;
        while i < n
            invariant
                n == self@.len(),
                i <= n,
                v@ == self@.take(i as int),
            decreases n - i,
        {
            v.push(self.get(i));
            i += 1;
        }
        v
    }
}

} // verus!
