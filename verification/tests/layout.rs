use gen_hash::layout::{
    builtin_eq, layout_clone, layout_eq, union_eq, Builtin, Layout, UnionLayout,
};
use gen_hash::layout_ids::LayoutIds;

fn int64() -> Layout {
    Layout::Builtin(Builtin::Int64)
}

fn cons_list() -> UnionLayout {
    UnionLayout::NullableUnwrapped {
        nullable_id: true,
        other_fields: vec![int64(), Layout::RecursivePointer],
    }
}

#[test]
fn layout_eq_is_structural() {
    let a = Layout::Struct(vec![int64(), Layout::Builtin(Builtin::Str)]);
    let b = Layout::Struct(vec![int64(), Layout::Builtin(Builtin::Str)]);
    let c = Layout::Struct(vec![Layout::Builtin(Builtin::Str), int64()]);
    assert!(layout_eq(&a, &b));
    assert!(!layout_eq(&a, &c));
    assert!(!layout_eq(&a, &Layout::Struct(vec![int64()])));
    assert!(!layout_eq(&a, &int64()));
}

#[test]
fn layout_eq_tells_scalar_kinds_apart() {
    assert!(builtin_eq(&Builtin::Int64, &Builtin::Int64));
    assert!(!builtin_eq(&Builtin::Int64, &Builtin::Float64));
    assert!(!builtin_eq(&Builtin::EmptyList, &Builtin::EmptySet));
    assert!(builtin_eq(
        &Builtin::List(Box::new(int64())),
        &Builtin::List(Box::new(int64()))
    ));
    assert!(!builtin_eq(
        &Builtin::List(Box::new(int64())),
        &Builtin::List(Box::new(Layout::Builtin(Builtin::Int8)))
    ));
}

#[test]
fn union_eq_sees_the_representation_and_the_null_slot() {
    let tags = || vec![vec![int64()], vec![int64(), int64()]];
    assert!(union_eq(&UnionLayout::Recursive(tags()), &UnionLayout::Recursive(tags())));
    assert!(!union_eq(&UnionLayout::Recursive(tags()), &UnionLayout::NonRecursive(tags())));
    assert!(!union_eq(
        &UnionLayout::NullableWrapped { nullable_id: 0, other_tags: tags() },
        &UnionLayout::NullableWrapped { nullable_id: 1, other_tags: tags() }
    ));
    assert!(union_eq(&cons_list(), &cons_list()));
}

#[test]
fn layout_clone_is_equal_to_its_source() {
    let layout = Layout::Struct(vec![
        Layout::Union(cons_list()),
        Layout::Builtin(Builtin::List(Box::new(Layout::Union(UnionLayout::NonRecursive(vec![
            vec![int64()],
            vec![],
        ]))))),
        Layout::Closure,
    ]);
    let copy = layout_clone(&layout);
    assert_eq!(copy, layout);
    assert!(layout_eq(&copy, &layout));
}

#[test]
fn stack_size_of_numbers() {
    assert_eq!(Builtin::Int128.stack_size(8), 16);
    assert_eq!(Builtin::Float128.stack_size(8), 16);
    assert_eq!(Builtin::Int64.stack_size(8), 8);
    assert_eq!(Builtin::Float64.stack_size(4), 8);
    assert_eq!(Builtin::Int32.stack_size(8), 4);
    assert_eq!(Builtin::Float32.stack_size(8), 4);
    assert_eq!(Builtin::Int16.stack_size(8), 2);
    assert_eq!(Builtin::Float16.stack_size(8), 2);
    assert_eq!(Builtin::Int8.stack_size(8), 1);
    assert_eq!(Builtin::Int1.stack_size(8), 1);
    assert_eq!(Builtin::Usize.stack_size(8), 8);
    assert_eq!(Builtin::Usize.stack_size(4), 4);
}

#[test]
fn layout_ids_give_one_id_per_layout() {
    let mut ids = LayoutIds::new();
    assert_eq!(ids.len(), 0);
    let a = ids.get(&int64());
    let b = ids.get(&Layout::Builtin(Builtin::Str));
    let a_again = ids.get(&int64());
    assert_eq!(a, 0);
    assert_eq!(b, 1);
    assert_eq!(a_again, a);
    assert_eq!(ids.len(), 2);
    assert_eq!(ids.layout(b), &Layout::Builtin(Builtin::Str));
}

#[test]
fn layout_ids_find_does_not_add() {
    let mut ids = LayoutIds::new();
    assert_eq!(ids.find(&int64()), None);
    assert_eq!(ids.len(), 0);
    let id = ids.get(&int64());
    assert_eq!(ids.find(&int64()), Some(id));
    assert_eq!(ids.find(&Layout::RecursivePointer), None);
}
