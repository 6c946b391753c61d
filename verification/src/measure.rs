//! The size of a layout, by which code generation is shown to end.

use vstd::prelude::*;
use crate::layout::{BuiltinModel, LayoutModel, UnionModel};
use crate::shape::Names;

verus! {

/// The number of nodes of a layout.
pub open spec fn layout_size(layout: LayoutModel) -> nat
    decreases layout, 0int,
{
    match layout {
        LayoutModel::Builtin(BuiltinModel::List(element)) => 1 + layout_size(*element),
        LayoutModel::Struct(fields) => 1 + fields_size(fields, fields.len() as int),
        LayoutModel::Union(union_layout) => 1 + union_size(union_layout),
        _ => 1,
    }
}

/// The number of nodes of the first `n` fields, and one for each field.
pub open spec fn fields_size(fields: Seq<LayoutModel>, n: int) -> nat
    decreases fields, n,
{
    if n <= 0 || n > fields.len() {
        0
    } else {
        fields_size(fields, n - 1) + 1 + layout_size(fields[n - 1])
    }
}

/// The number of nodes of the first `n` variants, and two for each variant.
pub open spec fn tags_size(tags: Seq<Seq<LayoutModel>>, n: int) -> nat
    decreases tags, n,
{
    if n <= 0 || n > tags.len() {
        0
    } else {
        tags_size(tags, n - 1) + 2 + fields_size(tags[n - 1], tags[n - 1].len() as int)
    }
}

/// The number of nodes of the variants of a union.
pub open spec fn union_size(union_layout: UnionModel) -> nat
    decreases union_layout, 0int,
{
    match union_layout {
        UnionModel::NonRecursive(tags) => tags_size(tags, tags.len() as int),
        UnionModel::Recursive(tags) => tags_size(tags, tags.len() as int),
        UnionModel::NonNullableUnwrapped(fields) => 2 + fields_size(fields, fields.len() as int),
        UnionModel::NullableWrapped { other_tags, .. } => tags_size(
            other_tags,
            other_tags.len() as int,
        ),
        UnionModel::NullableUnwrapped { other_fields, .. } => 2 + fields_size(
            other_fields,
            other_fields.len() as int,
        ),
    }
}

/// Whether `layout` has a hash procedure.
pub open spec fn registered(names: Names, layout: LayoutModel) -> bool {
    exists|g: usize| names.proc_for(g, layout)
}

/// What is left to generate for `layout`: nothing for a union that has its
/// procedure, else the layout's size.
pub open spec fn effort(names: Names, layout: LayoutModel) -> nat {
    if layout is Union && registered(names, layout) {
        0
    } else {
        layout_size(layout)
    }
}

/// A field is smaller than the fields it is one of.
pub(crate) proof fn lemma_field_smaller(fields: Seq<LayoutModel>, n: int, i: int)
    requires
        0 <= i < n <= fields.len(),
    ensures
        layout_size(fields[i]) < fields_size(fields, n),
    decreases n,
{
    if i < n - 1 {
        lemma_field_smaller(fields, n - 1, i);
    }
}

/// The struct of a variant is smaller than the variants it is one of.
pub(crate) proof fn lemma_tag_smaller(tags: Seq<Seq<LayoutModel>>, n: int, j: int)
    requires
        0 <= j < n <= tags.len(),
    ensures
        1 + fields_size(tags[j], tags[j].len() as int) < tags_size(tags, n),
    decreases n,
{
    if j < n - 1 {
        lemma_tag_smaller(tags, n - 1, j);
    }
}

/// A layout that has a hash procedure keeps it.
pub(crate) proof fn lemma_registered_kept(n1: Names, n2: Names, layout: LayoutModel)
    requires
        n1.kept_by(n2),
        registered(n1, layout),
    ensures
        registered(n2, layout),
{
    let g = choose|g: usize| n1.proc_for(g, layout);
    assert(n2.proc_for(g, layout));
}

} // verus!
