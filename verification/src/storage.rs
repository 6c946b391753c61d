//! The storage header of a heap value: either read-only, or reference
//! counted with a count that starts at the smallest `isize` and climbs
//! towards zero.

use vstd::prelude::*;

verus! {

/// The count that stands for exactly one reference.
pub const REFCOUNT_1: isize = isize::MIN;

/// How a heap value is held.
///
/// A `ReferenceCounted` count is never zero; see [`Storage::wf`].
#[derive(Clone, Copy, Debug)]
pub enum Storage {
    Readonly,
    ReferenceCounted(isize),
}

impl Storage {
    /// A reference-counted header never carries the count zero.
    pub open spec fn wf(self) -> bool {
        match self {
            Storage::Readonly => true,
            Storage::ReferenceCounted(rc) => rc != 0,
        }
    }

    /// The header after one more reference was taken.
    pub open spec fn incremented(self) -> Storage {
        match self {
            Storage::Readonly => Storage::Readonly,
            Storage::ReferenceCounted(rc) => if rc + 1 == 0 {
                Storage::Readonly
            } else {
                Storage::ReferenceCounted((rc + 1) as isize)
            },
        }
    }

    /// The header after one reference was given up.
    pub open spec fn decreased(self) -> Storage {
        match self {
            Storage::Readonly => Storage::Readonly,
            Storage::ReferenceCounted(rc) => if rc == isize::MIN {
                self
            } else {
                Storage::ReferenceCounted((rc - 1) as isize)
            },
        }
    }

    /// Whether giving up one reference leaves none.
    pub open spec fn is_last_reference(self) -> bool {
        self == Storage::ReferenceCounted(isize::MIN)
    }

    /// A header that counts exactly one reference.
    pub fn new_reference_counted() -> (s: Self)
        ensures
            s == Storage::ReferenceCounted(isize::MIN),
            s.wf(),
    {
        Storage::ReferenceCounted(REFCOUNT_1)
    }

    /// Increment the reference count. A count that reaches zero turns the
    /// header read-only.
    pub fn increment_reference_count(&mut self)
        requires
            old(self).wf(),
            *old(self) matches Storage::ReferenceCounted(rc) ==> rc < isize::MAX,
        ensures
            *final(self) == old(self).incremented(),
            final(self).wf(),
    {
        match *self {
            Storage::Readonly => {},
            Storage::ReferenceCounted(rc) => {
                let new_rc: isize = rc + 1;
                if new_rc != 0 {
                    *self = Storage::ReferenceCounted(new_rc);
                } else {
                    *self = Storage::Readonly;
                }
            },
        }
    }

    /// Decrease the reference count.
    ///
    /// Returns `true` once there are no more references left.
    pub fn decrease(&mut self) -> (none_left: bool)
        requires
            old(self).wf(),
            *old(self) != Storage::ReferenceCounted(1),
        ensures
            none_left == old(self).is_last_reference(),
            *final(self) == old(self).decreased(),
            final(self).wf(),
    {
        match *self {
            Storage::Readonly => false,
            Storage::ReferenceCounted(rc) => {
                if rc == REFCOUNT_1 {
                    true
                } else {
                    *self = Storage::ReferenceCounted(rc - 1);
                    false
                }
            },
        }
    }

    /// Whether the value is read-only, and so not counted.
    pub fn is_readonly(&self) -> (r: bool)
        ensures
            r == (*self == Storage::Readonly),
    {
        matches!(self, Storage::Readonly)
    }
}

} // verus!
