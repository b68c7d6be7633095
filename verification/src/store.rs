//! The result store.
//!
//! An append-only ordered collection of completed renders: insertion order is
//! completion order, entries are never removed or mutated.

use crate::render::RenderedImage;
use vstd::prelude::*;

verus! {

/// Completed renders, in completion order.
pub struct ResultStore {
    items: Vec<RenderedImage>,
}

impl ResultStore {
    /// The completed renders held so far, oldest first.
    pub closed spec fn docs(self) -> Seq<RenderedImage> {
        self.items@
    }

    /// Creates an empty store.
    pub fn new() -> (r: ResultStore)
        ensures
            r.docs() =~= Seq::<RenderedImage>::empty(),
    {
        ResultStore { items: Vec::new() }
    }

    /// Appends a completed render at the end; nothing else changes.
    pub fn append(&mut self, doc: RenderedImage)
        ensures
            final(self).docs() =~= old(self).docs().push(doc),
    {
        self.items.push(doc);
    }

    /// How many renders have completed.
    pub fn len(&self) -> (r: usize)
        ensures
            r == self.docs().len(),
    {
        self.items.len()
    }

    /// The full sequence of completed renders, for listing and export.
    pub fn list(&self) -> (r: &Vec<RenderedImage>)
        ensures
            r@ == self.docs(),
    {
        &self.items
    }

    /// The completed render at position `i`.
    pub fn get(&self, i: usize) -> (r: &RenderedImage)
        requires
            i < self.docs().len(),
        ensures
            *r == self.docs()[i as int],
    {
        &self.items[i]
    }
}

} // verus!
