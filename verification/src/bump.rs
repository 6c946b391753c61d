//! The arena-backed collections this crate fills, with what is taken on
//! trust about them.

use vstd::prelude::*;
use bumpalo::collections::String as BumpString;
use bumpalo::collections::Vec as BumpVec;
use bumpalo::Bump;

verus! {

/// The arena allocator of `bumpalo`, carried through and never inspected.
#[verifier::external_type_specification]
#[verifier::external_body]
pub struct ExBump<const MIN_ALIGN: usize>(bumpalo::Bump<MIN_ALIGN>);

/// The growable UTF-8 buffer of `bumpalo`.
#[verifier::external_type_specification]
#[verifier::external_body]
pub struct ExBumpString<'bump>(bumpalo::collections::String<'bump>);

/// The characters held by an arena string, in order.
pub uninterp spec fn buf_text(buf: &BumpString<'_>) -> Seq<char>;

/// `bumpalo::collections::String::push`: the character is appended at the
/// end and nothing else changes.
#[verifier::external_body]
pub(crate) fn buf_push(buf: &mut BumpString<'_>, ch: char)
    ensures
        buf_text(final(buf)) == buf_text(old(buf)).push(ch),
{
    buf.push(ch)
}

/// `bumpalo::collections::String::push_str`: the characters of `s` are
/// appended at the end, in order, and nothing else changes.
#[verifier::external_body]
pub(crate) fn buf_push_str(buf: &mut BumpString<'_>, s: &str)
    ensures
        buf_text(final(buf)) == buf_text(old(buf)) + s@,
{
    buf.push_str(s)
}

/// The growable array of `bumpalo`.
#[verifier::external_type_specification]
#[verifier::external_body]
#[verifier::reject_recursive_types(T)]
pub struct ExBumpVec<'bump, T>(bumpalo::collections::Vec<'bump, T>);

/// The (tag id, block) pairs held by an arena array, in order.
pub uninterp spec fn cases_of(cases: &BumpVec<'_, (u64, usize)>) -> Seq<(u64, usize)>;

/// The number of items an arena array was made to hold.
pub uninterp spec fn cases_limit(cases: &BumpVec<'_, (u64, usize)>) -> nat;

/// The largest number of (tag id, block) pairs whose bytes an allocation
/// may hold.
pub open spec fn max_cases() -> int {
    isize::MAX / 16
}

/// `bumpalo::collections::Vec::with_capacity_in`: an empty array with room
/// for exactly `capacity` items.
#[verifier::external_body]
pub(crate) fn cases_with_capacity_in<'bump>(capacity: usize, bump: &'bump Bump) -> (cases: BumpVec<
    'bump,
    (u64, usize),
>)
    requires
        capacity <= max_cases(),
    ensures
        cases_of(&cases) == Seq::<(u64, usize)>::empty(),
        cases_limit(&cases) == capacity,
{
    BumpVec::with_capacity_in(capacity, bump)
}

/// `bumpalo::collections::Vec::push`: the item is appended at the end.
/// Below the limit the array was made with, nothing is reallocated.
#[verifier::external_body]
pub(crate) fn cases_push(cases: &mut BumpVec<'_, (u64, usize)>, item: (u64, usize))
    requires
        cases_of(old(cases)).len() < cases_limit(old(cases)),
    ensures
        cases_of(final(cases)) == cases_of(old(cases)).push(item),
        cases_limit(final(cases)) == cases_limit(old(cases)),
{
    cases.push(item)
}

/// `bumpalo::collections::Vec::pop`: the last item leaves and is returned,
/// or nothing happens to an empty array.
#[verifier::external_body]
pub(crate) fn cases_pop(cases: &mut BumpVec<'_, (u64, usize)>) -> (last: Option<(u64, usize)>)
    ensures
        cases_limit(final(cases)) == cases_limit(old(cases)),
        cases_of(old(cases)).len() == 0 ==> last is None && cases_of(final(cases)) == cases_of(
            old(cases),
        ),
        cases_of(old(cases)).len() > 0 ==> last == Some(cases_of(old(cases)).last()) && cases_of(
            final(cases),
        ) == cases_of(old(cases)).drop_last(),
{
    cases.pop()
}

/// `bumpalo::collections::Vec::as_slice`: the items, in order.
#[verifier::external_body]
pub(crate) fn cases_as_slice<'v>(cases: &'v BumpVec<'_, (u64, usize)>) -> (items: &'v [(
    u64,
    usize,
)])
    ensures
        items@ == cases_of(cases),
{
    cases.as_slice()
}

} // verus!
