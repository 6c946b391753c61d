//! Numbers for layouts: every distinct layout gets one id, and asking again
//! for a layout that has one returns it.

use vstd::prelude::*;
use crate::layout::{layout_clone, layout_eq, Layout, LayoutModel};

verus! {

/// The number of a layout in a [`LayoutIds`] table.
pub type LayoutId = usize;

/// The table of the layouts that were given an id, in the order in which
/// they first came.
pub struct LayoutIds {
    layouts: Vec<Layout>,
}

impl View for LayoutIds {
    type V = Seq<LayoutModel>;

    /// The layout behind each id.
    closed spec fn view(&self) -> Seq<LayoutModel> {
        Seq::new(self.layouts@.len(), |i: int| self.layouts@[i]@)
    }
}

impl LayoutIds {
    /// No layout occurs under two ids.
    pub open spec fn wf(&self) -> bool {
        forall|i: int, j: int|
            0 <= i < self@.len() && 0 <= j < self@.len() && i != j ==> self@[i] != self@[j]
    }

    /// Whether `layout` has an id.
    pub open spec fn contains(&self, layout: LayoutModel) -> bool {
        exists|i: int| 0 <= i < self@.len() && self@[i] == layout
    }

    /// Whether `id` is the id of `layout`.
    pub open spec fn names(&self, id: LayoutId, layout: LayoutModel) -> bool {
        id < self@.len() && self@[id as int] == layout
    }

    /// Whether `later` still has every id of `self`, for the same layout.
    pub open spec fn kept_by(&self, later: &LayoutIds) -> bool {
        &&& self@.len() <= later@.len()
        &&& forall|i: int| 0 <= i < self@.len() ==> later@[i] == self@[i]
    }

    /// Whether `later` is `self` after `layout` was looked up: as it was
    /// where the layout had an id, else with the layout under the next id.
    pub open spec fn grown_by(&self, later: &LayoutIds, layout: LayoutModel) -> bool {
        if self.contains(layout) {
            later@ == self@
        } else {
            later@ == self@.push(layout)
        }
    }

    /// A table in which no layout has an id yet.
    pub fn new() -> (ids: LayoutIds)
        ensures
            ids@.len() == 0,
            ids.wf(),
    {
        LayoutIds { layouts: Vec::new() }
    }

    /// How many layouts have an id.
    pub fn len(&self) -> (n: usize)
        ensures
            n == self@.len(),
    {
        self.layouts.len()
    }

    /// The layout with the given id.
    pub fn layout(&self, id: LayoutId) -> (layout: &Layout)
        requires
            id < self@.len(),
        ensures
            layout@ == self@[id as int],
    {
        &self.layouts[id]
    }

    /// The id of `layout` if it has one.
    pub fn find(&self, layout: &Layout) -> (found: Option<LayoutId>)
        ensures
            found matches Some(id) ==> self.names(id, layout@),
            found is None ==> !self.contains(layout@),
    {
        let mut i: usize = 0;
        while i < self.layouts.len()
            invariant
                i <= self.layouts@.len(),
                forall|j: int| 0 <= j < i ==> self@[j] != layout@,
            decreases self.layouts@.len() - i,
        {
            if layout_eq(&self.layouts[i], layout) {
                return Some(i);
            }
            i += 1;
        }
        None
    }

    /// Returns an id which is unique for the given layout. Given the same
    /// layout again, returns the same id; a layout seen for the first time
    /// gets the next free id.
    pub fn get(&mut self, layout: &Layout) -> (id: LayoutId)
        requires
            old(self).wf(),
        ensures
            final(self).wf(),
            final(self).names(id, layout@),
            old(self).kept_by(final(self)),
            old(self).contains(layout@) ==> final(self)@ == old(self)@,
            !old(self).contains(layout@) ==> id == old(self)@.len() && final(self)@ == old(
                self,
            )@.push(layout@),
    {
        match self.find(layout) {
            Some(id) => id,
            None => {
                let id = self.layouts.len();
                self.layouts.push(layout_clone(layout));
                assert(self@ =~= old(self)@.push(layout@));
                id
            },
        }
    }
}

} // verus!
