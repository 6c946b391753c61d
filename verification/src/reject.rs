//! Telling beforehand whether a layout can be hashed, and if not, why.

use vstd::prelude::*;
use crate::build_hash::WhenRecursive;
use crate::bump::max_cases;
use crate::layout::{
    fields_model, tags_model, Builtin, BuiltinModel, Layout, LayoutModel, UnionLayout, UnionModel,
};
use crate::shape::{fields_hashable, hashable, tags_hashable, union_hashable};

verus! {

/// Why a layout cannot be hashed.
#[derive(Clone, Copy, Debug, PartialEq, Eq, Structural)]
pub enum HashError {
    /// A recursive pointer stands where no recursive union encloses it.
    RecursivePointerOutsideUnion,
    /// A function or a closure: these are never hashed.
    FunctionValue,
    /// Hashing a dictionary is not supported yet.
    DictNotSupported,
    /// Hashing a set is not supported yet.
    SetNotSupported,
    /// A union that is told apart by a tag id has no variant.
    UnionWithoutVariant,
    /// A union has more variants than a table of cases can hold.
    TooManyVariants,
    /// A struct has more fields than can be numbered.
    TooManyFields,
}

impl HashError {
    /// Whether this is something that is not supported yet, rather than a
    /// layout that should never have been built.
    pub fn is_unsupported(&self) -> (r: bool)
        ensures
            r == (*self == HashError::DictNotSupported || *self == HashError::SetNotSupported),
    {
        match self {
            HashError::DictNotSupported | HashError::SetNotSupported => true,
            _ => false,
        }
    }
}

/// The first reason, in the order in which code generation walks a layout,
/// why `layout` cannot be hashed; none if it can.
pub open spec fn rejection(layout: LayoutModel, ctx: Option<UnionModel>) -> Option<HashError>
    decreases layout, 0int,
{
    match layout {
        LayoutModel::Builtin(builtin) => match builtin {
            BuiltinModel::Dict => Some(HashError::DictNotSupported),
            BuiltinModel::SetLayout => Some(HashError::SetNotSupported),
            BuiltinModel::List(element) => rejection(*element, ctx),
            _ => None,
        },
        LayoutModel::Struct(fields) => fields_rejection(fields, ctx),
        LayoutModel::Union(union_layout) => union_rejection(union_layout),
        LayoutModel::RecursivePointer => if ctx is Some {
            None
        } else {
            Some(HashError::RecursivePointerOutsideUnion)
        },
        LayoutModel::FunctionPointer | LayoutModel::Closure => Some(HashError::FunctionValue),
    }
}

/// The first reason why the fields of a struct cannot be hashed.
pub open spec fn fields_rejection(fields: Seq<LayoutModel>, ctx: Option<UnionModel>) -> Option<
    HashError,
>
    decreases fields, fields.len() + 1,
{
    if fields.len() > u32::MAX {
        Some(HashError::TooManyFields)
    } else {
        scan_fields(fields, ctx, 0)
    }
}

/// The first reason why one of the fields from position `from` on cannot
/// be hashed.
pub open spec fn scan_fields(
    fields: Seq<LayoutModel>,
    ctx: Option<UnionModel>,
    from: int,
) -> Option<HashError>
    decreases fields, fields.len() - from,
{
    if from < 0 || from >= fields.len() {
        None
    } else {
        match rejection(fields[from], ctx) {
            Some(e) => Some(e),
            None => scan_fields(fields, ctx, from + 1),
        }
    }
}

/// The first reason why the variants of a union cannot be hashed.
pub open spec fn tags_rejection(tags: Seq<Seq<LayoutModel>>, ctx: Option<UnionModel>) -> Option<
    HashError,
>
    decreases tags, tags.len() + 1,
{
    if tags.len() == 0 {
        Some(HashError::UnionWithoutVariant)
    } else if tags.len() > max_cases() {
        Some(HashError::TooManyVariants)
    } else {
        scan_tags(tags, ctx, 0)
    }
}

/// The first reason why one of the variants from position `from` on cannot
/// be hashed.
pub open spec fn scan_tags(
    tags: Seq<Seq<LayoutModel>>,
    ctx: Option<UnionModel>,
    from: int,
) -> Option<HashError>
    decreases tags, tags.len() - from,
{
    if from < 0 || from >= tags.len() {
        None
    } else {
        match fields_rejection(tags[from], ctx) {
            Some(e) => Some(e),
            None => scan_tags(tags, ctx, from + 1),
        }
    }
}

/// The first reason why a union cannot be hashed.
pub open spec fn union_rejection(union_layout: UnionModel) -> Option<HashError>
    decreases union_layout, 0int,
{
    match union_layout {
        UnionModel::NonRecursive(tags) => tags_rejection(tags, None),
        UnionModel::Recursive(tags) => tags_rejection(tags, Some(union_layout)),
        UnionModel::NonNullableUnwrapped(fields) => fields_rejection(fields, Some(union_layout)),
        UnionModel::NullableWrapped { other_tags, .. } => tags_rejection(
            other_tags,
            Some(union_layout),
        ),
        UnionModel::NullableUnwrapped { other_fields, .. } => fields_rejection(
            other_fields,
            Some(union_layout),
        ),
    }
}

/// A layout can be hashed exactly if nothing is found against it.
pub proof fn law_rejection_decides_hashable(layout: LayoutModel, ctx: Option<UnionModel>)
    ensures
        rejection(layout, ctx) is None <==> hashable(layout, ctx),
    decreases layout, 0int,
{
    match layout {
        LayoutModel::Builtin(BuiltinModel::List(element)) => {
            law_rejection_decides_hashable(*element, ctx);
        },
        LayoutModel::Struct(fields) => {
            lemma_scan_fields(fields, ctx, 0);
        },
        LayoutModel::Union(union_layout) => {
            lemma_union_rejection(union_layout);
        },
        _ => {},
    }
}

proof fn lemma_scan_fields(fields: Seq<LayoutModel>, ctx: Option<UnionModel>, from: int)
    requires
        0 <= from <= fields.len(),
    ensures
        scan_fields(fields, ctx, from) is None <==> (forall|i: int|
            from <= i < fields.len() ==> hashable(#[trigger] fields[i], ctx)),
        from == 0 ==> (fields_rejection(fields, ctx) is None <==> fields_hashable(fields, ctx)),
    decreases fields, fields.len() - from,
{
    if from < fields.len() {
        law_rejection_decides_hashable(fields[from], ctx);
        lemma_scan_fields(fields, ctx, from + 1);
    }
}

proof fn lemma_scan_tags(tags: Seq<Seq<LayoutModel>>, ctx: Option<UnionModel>, from: int)
    requires
        0 <= from <= tags.len(),
    ensures
        scan_tags(tags, ctx, from) is None <==> (forall|j: int|
            from <= j < tags.len() ==> fields_hashable(#[trigger] tags[j], ctx)),
    decreases tags, tags.len() - from,
{
    if from < tags.len() {
        lemma_scan_fields(tags[from], ctx, 0);
        lemma_scan_tags(tags, ctx, from + 1);
    }
}

proof fn lemma_tags_rejection(tags: Seq<Seq<LayoutModel>>, ctx: Option<UnionModel>)
    ensures
        tags_rejection(tags, ctx) is None <==> tags_hashable(tags, ctx),
    decreases tags, tags.len() + 1,
{
    lemma_scan_tags(tags, ctx, 0);
}

proof fn lemma_union_rejection(union_layout: UnionModel)
    ensures
        union_rejection(union_layout) is None <==> union_hashable(union_layout),
    decreases union_layout, 0int,
{
    match union_layout {
        UnionModel::NonRecursive(tags) => {
            lemma_tags_rejection(tags, None);
        },
        UnionModel::Recursive(tags) => {
            lemma_tags_rejection(tags, Some(union_layout));
        },
        UnionModel::NonNullableUnwrapped(fields) => {
            lemma_scan_fields(fields, Some(union_layout), 0);
        },
        UnionModel::NullableWrapped { other_tags, .. } => {
            lemma_tags_rejection(other_tags, Some(union_layout));
        },
        UnionModel::NullableUnwrapped { other_fields, .. } => {
            lemma_scan_fields(other_fields, Some(union_layout), 0);
        },
    }
}

/// Finds out whether `layout` can be hashed where a recursive pointer
/// stands for what `when_recursive` says, and if not, the first reason why.
pub fn check_layout(layout: &Layout, when_recursive: WhenRecursive<'_>) -> (r: Result<
    (),
    HashError,
>)
    ensures
        r is Ok <==> hashable(layout@, when_recursive@),
        r matches Err(e) ==> rejection(layout@, when_recursive@) == Some(e),
    decreases *layout,
{
    proof {
        law_rejection_decides_hashable(layout@, when_recursive@);
    }
    match layout {
        Layout::Builtin(builtin) => match builtin {
            Builtin::Dict => Err(HashError::DictNotSupported),
            Builtin::SetLayout => Err(HashError::SetNotSupported),
            Builtin::List(element) => {
                proof {
                    law_rejection_decides_hashable(element@, when_recursive@);
                }
                check_layout(element, when_recursive)
            },
            _ => Ok(()),
        },
        Layout::Struct(fields) => check_fields(fields, when_recursive),
        Layout::Union(union_layout) => check_union(union_layout),
        Layout::RecursivePointer => match when_recursive {
            WhenRecursive::Unreachable => Err(HashError::RecursivePointerOutsideUnion),
            WhenRecursive::Loop(_) => Ok(()),
        },
        Layout::FunctionPointer | Layout::Closure => Err(HashError::FunctionValue),
    }
}

fn check_fields(fields: &Vec<Layout>, when_recursive: WhenRecursive<'_>) -> (r: Result<
    (),
    HashError,
>)
    ensures
        r is Ok <==> fields_rejection(fields_model(*fields), when_recursive@) is None,
        r matches Err(e) ==> fields_rejection(fields_model(*fields), when_recursive@) == Some(e),
    decreases *fields,
{
    if fields.len() > u32::MAX as usize {
        return Err(HashError::TooManyFields);
    }
    let ghost all = fields_model(*fields);
    let ghost ctx = when_recursive@;
    let mut i: usize = 0;
    while i < fields.len()
        invariant
            i <= fields@.len(),
            fields@.len() <= u32::MAX,
            all == fields_model(*fields),
            ctx == when_recursive@,
            scan_fields(all, ctx, 0) == scan_fields(all, ctx, i as int),
        decreases fields@.len() - i,
    {
        assert(all[i as int] == fields[i as int]@);
        match check_layout(&fields[i], when_recursive) {
            Err(e) => {
                return Err(e);
            },
            Ok(()) => {
                proof {
                    law_rejection_decides_hashable(fields[i as int]@, ctx);
                }
            },
        }
        i += 1;
    }
    Ok(())
}

fn check_tags(tags: &Vec<Vec<Layout>>, when_recursive: WhenRecursive<'_>) -> (r: Result<
    (),
    HashError,
>)
    ensures
        r is Ok <==> tags_rejection(tags_model(*tags), when_recursive@) is None,
        r matches Err(e) ==> tags_rejection(tags_model(*tags), when_recursive@) == Some(e),
    decreases *tags,
{
    if tags.len() == 0 {
        return Err(HashError::UnionWithoutVariant);
    }
    if tags.len() > (isize::MAX / 16) as usize {
        return Err(HashError::TooManyVariants);
    }
    let ghost all = tags_model(*tags);
    let ghost ctx = when_recursive@;
    let mut j: usize = 0;
    while j < tags.len()
        invariant
            j <= tags@.len(),
            0 < tags@.len() <= max_cases(),
            all == tags_model(*tags),
            ctx == when_recursive@,
            scan_tags(all, ctx, 0) == scan_tags(all, ctx, j as int),
        decreases tags@.len() - j,
    {
        assert(all[j as int] == fields_model(tags[j as int]));
        match check_fields(&tags[j], when_recursive) {
            Err(e) => {
                return Err(e);
            },
            Ok(()) => {},
        }
        j += 1;
    }
    Ok(())
}

/// Finds out whether a union can be hashed, and if not, the first reason why.
pub fn check_union(union_layout: &UnionLayout) -> (r: Result<(), HashError>)
    ensures
        r is Ok <==> union_hashable(union_layout@),
        r matches Err(e) ==> union_rejection(union_layout@) == Some(e),
    decreases *union_layout,
{
    proof {
        lemma_union_rejection(union_layout@);
    }
    match union_layout {
        UnionLayout::NonRecursive(tags) => check_tags(tags, WhenRecursive::Unreachable),
        UnionLayout::Recursive(tags) => check_tags(tags, WhenRecursive::Loop(union_layout)),
        UnionLayout::NonNullableUnwrapped(fields) => check_fields(
            fields,
            WhenRecursive::Loop(union_layout),
        ),
        UnionLayout::NullableWrapped { other_tags, .. } => check_tags(
            other_tags,
            WhenRecursive::Loop(union_layout),
        ),
        UnionLayout::NullableUnwrapped { other_fields, .. } => check_fields(
            other_fields,
            WhenRecursive::Loop(union_layout),
        ),
    }
}

} // verus!
