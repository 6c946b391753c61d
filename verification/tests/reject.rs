use bumpalo::Bump;
use gen_hash::build_hash::{start, try_generic_hash, WhenRecursive};
use gen_hash::ir::{BasicBlock, FnName, Op, Value};
use gen_hash::layout::{Builtin, Layout, UnionLayout};
use gen_hash::reject::{check_layout, check_union, HashError};

fn int64() -> Layout {
    Layout::Builtin(Builtin::Int64)
}

fn check(layout: &Layout) -> Result<(), HashError> {
    check_layout(layout, WhenRecursive::Unreachable)
}

#[test]
fn layouts_that_can_be_hashed_pass() {
    assert_eq!(check(&int64()), Ok(()));
    assert_eq!(check(&Layout::Builtin(Builtin::Str)), Ok(()));
    assert_eq!(check(&Layout::Builtin(Builtin::EmptyDict)), Ok(()));
    assert_eq!(check(&Layout::Builtin(Builtin::EmptySet)), Ok(()));
    assert_eq!(check(&Layout::Struct(vec![])), Ok(()));
    assert_eq!(
        check(&Layout::Struct(vec![
            int64(),
            Layout::Builtin(Builtin::List(Box::new(Layout::Struct(vec![int64()])))),
        ])),
        Ok(())
    );
    assert_eq!(
        check(&Layout::Union(UnionLayout::Recursive(vec![
            vec![int64()],
            vec![int64(), Layout::RecursivePointer],
        ]))),
        Ok(())
    );
    assert_eq!(
        check(&Layout::Union(UnionLayout::NullableUnwrapped {
            nullable_id: false,
            other_fields: vec![int64()],
        })),
        Ok(())
    );
}

#[test]
fn a_recursive_pointer_needs_its_union() {
    assert_eq!(check(&Layout::RecursivePointer), Err(HashError::RecursivePointerOutsideUnion));
    assert_eq!(
        check(&Layout::Struct(vec![int64(), Layout::RecursivePointer])),
        Err(HashError::RecursivePointerOutsideUnion)
    );
    // a union that is stored inline is not recursive
    assert_eq!(
        check(&Layout::Union(UnionLayout::NonRecursive(vec![vec![Layout::RecursivePointer]]))),
        Err(HashError::RecursivePointerOutsideUnion)
    );
    let around = UnionLayout::NonNullableUnwrapped(vec![Layout::RecursivePointer]);
    assert_eq!(check_layout(&Layout::RecursivePointer, WhenRecursive::Loop(&around)), Ok(()));
    // inside a recursive union, through a struct and a list
    assert_eq!(
        check(&Layout::Union(UnionLayout::NonNullableUnwrapped(vec![Layout::Struct(vec![
            Layout::Builtin(Builtin::List(Box::new(Layout::RecursivePointer))),
        ])]))),
        Ok(())
    );
}

#[test]
fn functions_are_never_hashed() {
    assert_eq!(check(&Layout::FunctionPointer), Err(HashError::FunctionValue));
    assert_eq!(check(&Layout::Closure), Err(HashError::FunctionValue));
    assert_eq!(
        check(&Layout::Builtin(Builtin::List(Box::new(Layout::Closure)))),
        Err(HashError::FunctionValue)
    );
}

#[test]
fn dictionaries_and_sets_are_not_supported() {
    assert_eq!(check(&Layout::Builtin(Builtin::Dict)), Err(HashError::DictNotSupported));
    assert_eq!(check(&Layout::Builtin(Builtin::SetLayout)), Err(HashError::SetNotSupported));
    assert_eq!(
        check(&Layout::Struct(vec![int64(), Layout::Builtin(Builtin::SetLayout)])),
        Err(HashError::SetNotSupported)
    );
    assert!(HashError::DictNotSupported.is_unsupported());
    assert!(HashError::SetNotSupported.is_unsupported());
    assert!(!HashError::FunctionValue.is_unsupported());
    assert!(!HashError::RecursivePointerOutsideUnion.is_unsupported());
    assert!(!HashError::UnionWithoutVariant.is_unsupported());
    assert!(!HashError::TooManyVariants.is_unsupported());
    assert!(!HashError::TooManyFields.is_unsupported());
}

#[test]
fn a_union_needs_a_variant() {
    assert_eq!(check_union(&UnionLayout::NonRecursive(vec![])), Err(HashError::UnionWithoutVariant));
    assert_eq!(check_union(&UnionLayout::Recursive(vec![])), Err(HashError::UnionWithoutVariant));
    assert_eq!(
        check_union(&UnionLayout::NullableWrapped { nullable_id: 0, other_tags: vec![] }),
        Err(HashError::UnionWithoutVariant)
    );
    // a variant without fields is a variant
    assert_eq!(check_union(&UnionLayout::NonRecursive(vec![vec![]])), Ok(()));
    assert_eq!(check_union(&UnionLayout::NonNullableUnwrapped(vec![])), Ok(()));
}

#[test]
fn every_field_of_a_nullable_unwrapped_union_is_looked_at() {
    // the variant behind the pointer may have no field at all
    assert_eq!(
        check_union(&UnionLayout::NullableUnwrapped { nullable_id: true, other_fields: vec![] }),
        Ok(())
    );
    // the first field is a field like every other
    assert_eq!(
        check_union(&UnionLayout::NullableUnwrapped {
            nullable_id: true,
            other_fields: vec![Layout::Closure, int64()],
        }),
        Err(HashError::FunctionValue)
    );
    assert_eq!(
        check_union(&UnionLayout::NullableUnwrapped {
            nullable_id: true,
            other_fields: vec![int64(), Layout::Closure],
        }),
        Err(HashError::FunctionValue)
    );
}

#[test]
fn the_first_reason_is_reported() {
    let layout = Layout::Struct(vec![
        int64(),
        Layout::Builtin(Builtin::Dict),
        Layout::Closure,
        Layout::RecursivePointer,
    ]);
    assert_eq!(check(&layout), Err(HashError::DictNotSupported));
    let layout = Layout::Union(UnionLayout::NonRecursive(vec![
        vec![int64()],
        vec![Layout::RecursivePointer, Layout::Builtin(Builtin::SetLayout)],
    ]));
    assert_eq!(check(&layout), Err(HashError::RecursivePointerOutsideUnion));
}

#[test]
fn start_gives_an_open_block_to_emit_into() {
    let bump = Bump::new();
    let (env, ids) = start(&bump, 4);
    assert_eq!(env.ptr_bytes, 4);
    assert_eq!(env.module.functions.len(), 1);
    assert_eq!(env.module.functions[0].name, FnName::Other(0));
    assert_eq!(env.module.functions[0].blocks.len(), 1);
    assert!(env.module.functions[0].blocks[0].insts.is_empty());
    assert_eq!(env.module.functions[0].blocks[0].terminator, None);
    assert_eq!(env.position, Some(BasicBlock { function: 0, index: 0 }));
    assert_eq!(ids.len(), 0);
}

#[test]
fn try_generic_hash_emits_nothing_for_a_layout_it_rejects() {
    let bump = Bump::new();
    let (mut env, mut ids) = start(&bump, 8);
    let bad = Layout::Struct(vec![int64(), Layout::Builtin(Builtin::Dict)]);
    let r = try_generic_hash(&mut env, &mut ids, Value::Param(0), Value::Param(1), &bad);
    assert_eq!(r, Err(HashError::DictNotSupported));
    assert_eq!(env.module.functions.len(), 1);
    assert!(env.module.functions[0].blocks[0].insts.is_empty());
    assert_eq!(ids.len(), 0);
    assert_eq!(env.position, Some(BasicBlock { function: 0, index: 0 }));
}

#[test]
fn try_generic_hash_emits_the_code_for_a_layout_it_accepts() {
    let bump = Bump::new();
    let (mut env, mut ids) = start(&bump, 8);
    let good = Layout::Struct(vec![int64()]);
    let r = try_generic_hash(&mut env, &mut ids, Value::Param(0), Value::Param(1), &good);
    assert_eq!(r, Ok(Value::Inst { block: 0, index: 0 }));
    assert_eq!(
        env.module.functions[0].blocks[0].insts,
        vec![Op::Call { callee: 1, seed: Value::Param(0), value: Value::Param(1) }]
    );
    assert_eq!(env.module.functions.len(), 2);
}
