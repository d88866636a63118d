//! The buffer in which the items of a list are gathered.

use crate::datum::Datum;
use smallvec::SmallVec;
use vstd::prelude::*;

verus! {

/// The number of items that are gathered without an allocation.
pub const INLINE_ITEMS: usize = 8;

/// A growable run of values in a `SmallVec`, which keeps up to
/// [`INLINE_ITEMS`] of them inline.
#[verifier::external_body]
pub struct ElementBuffer {
    items: SmallVec<[Datum; 8]>,
}

/// The values that a buffer holds, first come first.
pub uninterp spec fn held(buffer: ElementBuffer) -> Seq<Datum>;

impl View for ElementBuffer {
    type V = Seq<Datum>;

    open spec fn view(&self) -> Seq<Datum> {
        held(*self)
    }
}

/// `SmallVec::with_capacity` for the inline number of items: a vector
/// that holds nothing.
#[verifier::external_body]
fn small_with_capacity() -> (buffer: ElementBuffer)
    ensures
        held(buffer) == Seq::<Datum>::empty(),
{
    ElementBuffer { items: SmallVec::with_capacity(8) }
}

/// `SmallVec::push`: the value comes last.
#[verifier::external_body]
fn small_push(buffer: &mut ElementBuffer, item: Datum)
    ensures
        held(*final(buffer)) == held(*old(buffer)).push(item),
{
    buffer.items.push(item)
}

/// `SmallVec::into_vec`: the same values in the same order.
#[verifier::external_body]
fn small_into_vec(buffer: ElementBuffer) -> (items: Vec<Datum>)
    ensures
        items@ == held(buffer),
{
    buffer.items.into_vec()
}

impl ElementBuffer {
    /// An empty buffer.
    pub fn new() -> (buffer: ElementBuffer)
        ensures
            buffer@ == Seq::<Datum>::empty(),
    {
        small_with_capacity()
    }

    /// Puts `item` last.
    pub fn push(&mut self, item: Datum)
        ensures
            final(self)@ == old(self)@.push(item),
    {
        small_push(self, item)
    }

    /// The gathered values as a vector.
    pub fn into_vec(self) -> (items: Vec<Datum>)
        ensures
            items@ == self@,
    {
        small_into_vec(self)
    }
}

} // verus!
