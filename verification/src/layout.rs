//! Descriptions of how values lie in memory, and their mathematical models.

use vstd::prelude::*;
use crate::shape::{is_scalar, scalar_width};

verus! {

/// The layouts the language builds in.
#[derive(Debug, PartialEq, Eq)]
pub enum Builtin {
    Int128,
    Int64,
    Int32,
    Int16,
    Int8,
    Int1,
    Usize,
    Float128,
    Float64,
    Float32,
    Float16,
    Str,
    Dict,
    SetLayout,
    List(Box<Layout>),
    EmptyStr,
    EmptyList,
    EmptyDict,
    EmptySet,
}

/// How a tagged union is laid out.
#[derive(Debug, PartialEq, Eq)]
#[allow(inconsistent_fields)]
pub enum UnionLayout {
    /// The tag id is stored inline, beside the data.
    NonRecursive(Vec<Vec<Layout>>),
    /// A non-null pointer; the tag id is a hidden word at the pointee.
    Recursive(Vec<Vec<Layout>>),
    /// A single variant behind a pointer that is never null.
    NonNullableUnwrapped(Vec<Layout>),
    /// A pointer that may be null: null stands for one variant, the others
    /// are laid out as in `Recursive`.
    NullableWrapped { nullable_id: i64, other_tags: Vec<Vec<Layout>> },
    /// Two variants: one is the null pointer, the other lies behind the
    /// pointer without a tag id; `other_fields` are its fields.
    NullableUnwrapped { nullable_id: bool, other_fields: Vec<Layout> },
}

/// How a value lies in memory.
#[derive(Debug, PartialEq, Eq)]
pub enum Layout {
    Builtin(Builtin),
    Struct(Vec<Layout>),
    Union(UnionLayout),
    /// Stands for the recursive union that encloses it.
    RecursivePointer,
    FunctionPointer,
    Closure,
}

/// The mathematical model of a [`Builtin`].
pub ghost enum BuiltinModel {
    Int128,
    Int64,
    Int32,
    Int16,
    Int8,
    Int1,
    Usize,
    Float128,
    Float64,
    Float32,
    Float16,
    Str,
    Dict,
    SetLayout,
    List(Box<LayoutModel>),
    EmptyStr,
    EmptyList,
    EmptyDict,
    EmptySet,
}

/// The mathematical model of a [`UnionLayout`].
#[allow(inconsistent_fields)]
pub ghost enum UnionModel {
    NonRecursive(Seq<Seq<LayoutModel>>),
    Recursive(Seq<Seq<LayoutModel>>),
    NonNullableUnwrapped(Seq<LayoutModel>),
    NullableWrapped { nullable_id: i64, other_tags: Seq<Seq<LayoutModel>> },
    NullableUnwrapped { nullable_id: bool, other_fields: Seq<LayoutModel> },
}

/// The mathematical model of a [`Layout`].
pub ghost enum LayoutModel {
    Builtin(BuiltinModel),
    Struct(Seq<LayoutModel>),
    Union(UnionModel),
    RecursivePointer,
    FunctionPointer,
    Closure,
}

/// The mathematical model of a layout.
pub open spec fn layout_model(layout: Layout) -> LayoutModel
    decreases layout,
{
    match layout {
        Layout::Builtin(b) => LayoutModel::Builtin(builtin_model(b)),
        Layout::Struct(fields) => LayoutModel::Struct(fields_model(fields)),
        Layout::Union(u) => LayoutModel::Union(union_model(u)),
        Layout::RecursivePointer => LayoutModel::RecursivePointer,
        Layout::FunctionPointer => LayoutModel::FunctionPointer,
        Layout::Closure => LayoutModel::Closure,
    }
}

/// The mathematical model of a builtin layout.
pub open spec fn builtin_model(builtin: Builtin) -> BuiltinModel
    decreases builtin,
{
    match builtin {
        Builtin::Int128 => BuiltinModel::Int128,
        Builtin::Int64 => BuiltinModel::Int64,
        Builtin::Int32 => BuiltinModel::Int32,
        Builtin::Int16 => BuiltinModel::Int16,
        Builtin::Int8 => BuiltinModel::Int8,
        Builtin::Int1 => BuiltinModel::Int1,
        Builtin::Usize => BuiltinModel::Usize,
        Builtin::Float128 => BuiltinModel::Float128,
        Builtin::Float64 => BuiltinModel::Float64,
        Builtin::Float32 => BuiltinModel::Float32,
        Builtin::Float16 => BuiltinModel::Float16,
        Builtin::Str => BuiltinModel::Str,
        Builtin::Dict => BuiltinModel::Dict,
        Builtin::SetLayout => BuiltinModel::SetLayout,
        Builtin::List(element) => BuiltinModel::List(Box::new(layout_model(*element))),
        Builtin::EmptyStr => BuiltinModel::EmptyStr,
        Builtin::EmptyList => BuiltinModel::EmptyList,
        Builtin::EmptyDict => BuiltinModel::EmptyDict,
        Builtin::EmptySet => BuiltinModel::EmptySet,
    }
}

/// The mathematical model of a union layout.
pub open spec fn union_model(union_layout: UnionLayout) -> UnionModel
    decreases union_layout,
{
    match union_layout {
        UnionLayout::NonRecursive(tags) => UnionModel::NonRecursive(tags_model(tags)),
        UnionLayout::Recursive(tags) => UnionModel::Recursive(tags_model(tags)),
        UnionLayout::NonNullableUnwrapped(fields) => UnionModel::NonNullableUnwrapped(
            fields_model(fields),
        ),
        UnionLayout::NullableWrapped { nullable_id, other_tags } => UnionModel::NullableWrapped {
            nullable_id,
            other_tags: tags_model(other_tags),
        },
        UnionLayout::NullableUnwrapped { nullable_id, other_fields } => {
            UnionModel::NullableUnwrapped { nullable_id, other_fields: fields_model(other_fields) }
        },
    }
}

/// The models of a list of fields, in order.
pub open spec fn fields_model(fields: Vec<Layout>) -> Seq<LayoutModel>
    decreases fields,
{
    Seq::new(
        fields.len() as nat,
        |i: int|
            if 0 <= i < fields.len() {
                layout_model(fields[i])
            } else {
                LayoutModel::RecursivePointer
            },
    )
}

/// The models of the field lists of a union's variants, in order.
pub open spec fn tags_model(tags: Vec<Vec<Layout>>) -> Seq<Seq<LayoutModel>>
    decreases tags,
{
    Seq::new(
        tags.len() as nat,
        |j: int|
            if 0 <= j < tags.len() {
                fields_model(tags[j])
            } else {
                Seq::empty()
            },
    )
}

impl View for Layout {
    type V = LayoutModel;

    open spec fn view(&self) -> LayoutModel {
        layout_model(*self)
    }
}

impl View for Builtin {
    type V = BuiltinModel;

    open spec fn view(&self) -> BuiltinModel {
        builtin_model(*self)
    }
}

impl View for UnionLayout {
    type V = UnionModel;

    open spec fn view(&self) -> UnionModel {
        union_model(*self)
    }
}

/// Whether two layouts describe the same memory shape.
pub fn layout_eq(a: &Layout, b: &Layout) -> (same: bool)
    ensures
        same == (a@ == b@),
    decreases *a,
{
    match (a, b) {
        (Layout::Builtin(x), Layout::Builtin(y)) => builtin_eq(x, y),
        (Layout::Struct(x), Layout::Struct(y)) => fields_eq(x, y),
        (Layout::Union(x), Layout::Union(y)) => union_eq(x, y),
        (Layout::RecursivePointer, Layout::RecursivePointer) => true,
        (Layout::FunctionPointer, Layout::FunctionPointer) => true,
        (Layout::Closure, Layout::Closure) => true,
        _ => false,
    }
}

/// Whether two builtin layouts describe the same memory shape.
pub fn builtin_eq(a: &Builtin, b: &Builtin) -> (same: bool)
    ensures
        same == (a@ == b@),
    decreases *a,
{
    match (a, b) {
        (Builtin::Int128, Builtin::Int128) => true,
        (Builtin::Int64, Builtin::Int64) => true,
        (Builtin::Int32, Builtin::Int32) => true,
        (Builtin::Int16, Builtin::Int16) => true,
        (Builtin::Int8, Builtin::Int8) => true,
        (Builtin::Int1, Builtin::Int1) => true,
        (Builtin::Usize, Builtin::Usize) => true,
        (Builtin::Float128, Builtin::Float128) => true,
        (Builtin::Float64, Builtin::Float64) => true,
        (Builtin::Float32, Builtin::Float32) => true,
        (Builtin::Float16, Builtin::Float16) => true,
        (Builtin::Str, Builtin::Str) => true,
        (Builtin::Dict, Builtin::Dict) => true,
        (Builtin::SetLayout, Builtin::SetLayout) => true,
        (Builtin::List(x), Builtin::List(y)) => layout_eq(x, y),
        (Builtin::EmptyStr, Builtin::EmptyStr) => true,
        (Builtin::EmptyList, Builtin::EmptyList) => true,
        (Builtin::EmptyDict, Builtin::EmptyDict) => true,
        (Builtin::EmptySet, Builtin::EmptySet) => true,
        _ => false,
    }
}

/// Whether two union layouts describe the same memory shape.
pub fn union_eq(a: &UnionLayout, b: &UnionLayout) -> (same: bool)
    ensures
        same == (a@ == b@),
    decreases *a,
{
    match (a, b) {
        (UnionLayout::NonRecursive(x), UnionLayout::NonRecursive(y)) => tags_eq(x, y),
        (UnionLayout::Recursive(x), UnionLayout::Recursive(y)) => tags_eq(x, y),
        (UnionLayout::NonNullableUnwrapped(x), UnionLayout::NonNullableUnwrapped(y)) => fields_eq(
            x,
            y,
        ),
        (
            UnionLayout::NullableWrapped { nullable_id: i, other_tags: x },
            UnionLayout::NullableWrapped { nullable_id: j, other_tags: y },
        ) => *i == *j && tags_eq(x, y),
        (
            UnionLayout::NullableUnwrapped { nullable_id: i, other_fields: x },
            UnionLayout::NullableUnwrapped { nullable_id: j, other_fields: y },
        ) => *i == *j && fields_eq(x, y),
        _ => false,
    }
}

/// Whether two field lists agree in length and, position by position, in shape.
pub fn fields_eq(a: &Vec<Layout>, b: &Vec<Layout>) -> (same: bool)
    ensures
        same == (fields_model(*a) == fields_model(*b)),
    decreases *a,
{
    if a.len() != b.len() {
        assert(fields_model(*a).len() != fields_model(*b).len());
        return false;
    }
    let mut i: usize = 0;
    while i < a.len()
        invariant
            i <= a.len(),
            a.len() == b.len(),
            forall|j: int| 0 <= j < i ==> a[j]@ == b[j]@,
        decreases a.len() - i,
    {
        if !layout_eq(&a[i], &b[i]) {
            assert(fields_model(*a)[i as int] != fields_model(*b)[i as int]);
            return false;
        }
        i += 1;
    }
    assert(fields_model(*a) =~= fields_model(*b));
    true
}

/// Whether two lists of variants agree in length and, variant by variant, in their fields.
pub fn tags_eq(a: &Vec<Vec<Layout>>, b: &Vec<Vec<Layout>>) -> (same: bool)
    ensures
        same == (tags_model(*a) == tags_model(*b)),
    decreases *a,
{
    if a.len() != b.len() {
        assert(tags_model(*a).len() != tags_model(*b).len());
        return false;
    }
    let mut i: usize = 0;
    while i < a.len()
        invariant
            i <= a.len(),
            a.len() == b.len(),
            forall|j: int| 0 <= j < i ==> fields_model(a[j]) == fields_model(b[j]),
        decreases a.len() - i,
    {
        if !fields_eq(&a[i], &b[i]) {
            assert(tags_model(*a)[i as int] != tags_model(*b)[i as int]);
            return false;
        }
        i += 1;
    }
    assert(tags_model(*a) =~= tags_model(*b));
    true
}

/// A copy of a layout.
pub fn layout_clone(layout: &Layout) -> (copy: Layout)
    ensures
        copy@ == layout@,
    decreases *layout,
{
    match layout {
        Layout::Builtin(b) => Layout::Builtin(builtin_clone(b)),
        Layout::Struct(fields) => Layout::Struct(fields_clone(fields)),
        Layout::Union(u) => Layout::Union(union_clone(u)),
        Layout::RecursivePointer => Layout::RecursivePointer,
        Layout::FunctionPointer => Layout::FunctionPointer,
        Layout::Closure => Layout::Closure,
    }
}

/// A copy of a builtin layout.
pub fn builtin_clone(builtin: &Builtin) -> (copy: Builtin)
    ensures
        copy@ == builtin@,
    decreases *builtin,
{
    match builtin {
        Builtin::Int128 => Builtin::Int128,
        Builtin::Int64 => Builtin::Int64,
        Builtin::Int32 => Builtin::Int32,
        Builtin::Int16 => Builtin::Int16,
        Builtin::Int8 => Builtin::Int8,
        Builtin::Int1 => Builtin::Int1,
        Builtin::Usize => Builtin::Usize,
        Builtin::Float128 => Builtin::Float128,
        Builtin::Float64 => Builtin::Float64,
        Builtin::Float32 => Builtin::Float32,
        Builtin::Float16 => Builtin::Float16,
        Builtin::Str => Builtin::Str,
        Builtin::Dict => Builtin::Dict,
        Builtin::SetLayout => Builtin::SetLayout,
        Builtin::List(element) => Builtin::List(Box::new(layout_clone(element))),
        Builtin::EmptyStr => Builtin::EmptyStr,
        Builtin::EmptyList => Builtin::EmptyList,
        Builtin::EmptyDict => Builtin::EmptyDict,
        Builtin::EmptySet => Builtin::EmptySet,
    }
}

/// A copy of a union layout.
pub fn union_clone(union_layout: &UnionLayout) -> (copy: UnionLayout)
    ensures
        copy@ == union_layout@,
    decreases *union_layout,
{
    match union_layout {
        UnionLayout::NonRecursive(tags) => UnionLayout::NonRecursive(tags_clone(tags)),
        UnionLayout::Recursive(tags) => UnionLayout::Recursive(tags_clone(tags)),
        UnionLayout::NonNullableUnwrapped(fields) => UnionLayout::NonNullableUnwrapped(
            fields_clone(fields),
        ),
        UnionLayout::NullableWrapped { nullable_id, other_tags } => UnionLayout::NullableWrapped {
            nullable_id: *nullable_id,
            other_tags: tags_clone(other_tags),
        },
        UnionLayout::NullableUnwrapped { nullable_id, other_fields } => {
            UnionLayout::NullableUnwrapped {
                nullable_id: *nullable_id,
                other_fields: fields_clone(other_fields),
            }
        },
    }
}

/// A copy of a field list.
pub fn fields_clone(fields: &Vec<Layout>) -> (copy: Vec<Layout>)
    ensures
        fields_model(copy) == fields_model(*fields),
    decreases *fields,
{
    let mut copy: Vec<Layout> = Vec::new();
    let mut i: usize = 0;
    while i < fields.len()
        invariant
            i <= fields.len(),
            copy.len() == i,
            forall|j: int| 0 <= j < i ==> copy[j]@ == fields[j]@,
        decreases fields.len() - i,
    {
        copy.push(layout_clone(&fields[i]));
        i += 1;
    }
    assert(fields_model(copy) =~= fields_model(*fields));
    copy
}

/// A copy of a list of variants.
pub fn tags_clone(tags: &Vec<Vec<Layout>>) -> (copy: Vec<Vec<Layout>>)
    ensures
        tags_model(copy) == tags_model(*tags),
    decreases *tags,
{
    let mut copy: Vec<Vec<Layout>> = Vec::new();
    let mut i: usize = 0;
    while i < tags.len()
        invariant
            i <= tags.len(),
            copy.len() == i,
            forall|j: int| 0 <= j < i ==> fields_model(copy[j]) == fields_model(tags[j]),
        decreases tags.len() - i,
    {
        copy.push(fields_clone(&tags[i]));
        i += 1;
    }
    assert(tags_model(copy) =~= tags_model(*tags));
    copy
}

impl Builtin {
    /// The number of bytes a fixed-width number takes on the stack.
    pub fn stack_size(&self, pointer_size: u32) -> (size: u32)
        requires
            is_scalar(self@),
        ensures
            size == scalar_width(self@, pointer_size),
    {
        match self {
            Builtin::Int128 | Builtin::Float128 => 16,
            Builtin::Int64 | Builtin::Float64 => 8,
            Builtin::Int32 | Builtin::Float32 => 4,
            Builtin::Int16 | Builtin::Float16 => 2,
            Builtin::Int8 | Builtin::Int1 => 1,
            _ => pointer_size,
        }
    }
}

impl Clone for Layout {
    fn clone(&self) -> (copy: Layout)
        ensures
            copy@ == self@,
    {
        layout_clone(self)
    }
}

impl Clone for Builtin {
    fn clone(&self) -> (copy: Builtin)
        ensures
            copy@ == self@,
    {
        builtin_clone(self)
    }
}

impl Clone for UnionLayout {
    fn clone(&self) -> (copy: UnionLayout)
        ensures
            copy@ == self@,
    {
        union_clone(self)
    }
}

} // verus!
