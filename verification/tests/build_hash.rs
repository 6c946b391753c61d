use bumpalo::Bump;
use gen_hash::build_hash::generic_hash;
use gen_hash::env::Env;
use gen_hash::ir::{BasicBlock, BasicType, Block, FnName, Op, Terminator, Value};
use gen_hash::layout::{Builtin, Layout, UnionLayout};
use gen_hash::layout_ids::LayoutIds;

const SEED: Value = Value::Param(0);
const ARG: Value = Value::Param(1);

fn inst(block: usize, index: usize) -> Value {
    Value::Inst { block, index }
}

fn int64() -> Layout {
    Layout::Builtin(Builtin::Int64)
}

fn string() -> Layout {
    Layout::Builtin(Builtin::Str)
}

/// A module with one procedure and the builder at the end of its only block.
fn start(bump: &Bump, ptr_bytes: u32) -> (Env<'_>, LayoutIds) {
    let mut env = Env::new(bump, ptr_bytes);
    let host = env.build_header_help(FnName::Other(0), BasicType::I64);
    let entry = env.append_basic_block(host);
    env.position_at_end(entry);
    (env, LayoutIds::new())
}

fn blocks<'e>(env: &'e Env<'_>, f: usize) -> &'e Vec<Block> {
    &env.module.functions[f].blocks
}

fn host_insts<'e>(env: &'e Env<'_>) -> &'e Vec<Op> {
    &blocks(env, 0)[0].insts
}

fn id_of(ids: &LayoutIds, layout: &Layout) -> usize {
    ids.find(layout).expect("the layout has an id")
}

#[test]
fn a_number_is_stored_and_its_bytes_are_mixed() {
    let bump = Bump::new();
    let (mut env, mut ids) = start(&bump, 8);
    let r = generic_hash(&mut env, &mut ids, SEED, ARG, &int64());
    assert_eq!(r, inst(0, 3));
    assert_eq!(
        host_insts(&env),
        &vec![
            Op::Alloca(BasicType::Layout(id_of(&ids, &int64()))),
            Op::Store { ptr: inst(0, 0), value: ARG },
            Op::Bitcast(inst(0, 0), BasicType::I8Pointer),
            Op::CallDictHash { seed: SEED, buffer: inst(0, 2), num_bytes: Value::ConstInt(8) },
        ]
    );
    assert_eq!(env.module.functions.len(), 1);
}

#[test]
fn the_width_of_a_number_is_its_size_in_bytes() {
    for (builtin, ptr_bytes, width) in [
        (Builtin::Int128, 8, 16),
        (Builtin::Float128, 8, 16),
        (Builtin::Float64, 8, 8),
        (Builtin::Int32, 8, 4),
        (Builtin::Float32, 8, 4),
        (Builtin::Int16, 8, 2),
        (Builtin::Float16, 8, 2),
        (Builtin::Int8, 8, 1),
        (Builtin::Int1, 8, 1),
        (Builtin::Usize, 8, 8),
        (Builtin::Usize, 4, 4),
    ] {
        let bump = Bump::new();
        let (mut env, mut ids) = start(&bump, ptr_bytes);
        let r = generic_hash(&mut env, &mut ids, SEED, ARG, &Layout::Builtin(builtin));
        assert_eq!(r, inst(0, 3));
        assert_eq!(
            host_insts(&env)[3],
            Op::CallDictHash { seed: SEED, buffer: inst(0, 2), num_bytes: Value::ConstInt(width) }
        );
    }
}

#[test]
fn numbers_of_one_width_get_the_same_code() {
    let bump = Bump::new();
    let (mut env, mut ids) = start(&bump, 8);
    generic_hash(&mut env, &mut ids, SEED, ARG, &int64());
    let other = Bump::new();
    let (mut env2, mut ids2) = start(&other, 8);
    generic_hash(&mut env2, &mut ids2, SEED, ARG, &Layout::Builtin(Builtin::Float64));
    assert_eq!(host_insts(&env), host_insts(&env2));
}

#[test]
fn the_seed_that_is_handed_in_is_the_one_that_is_mixed() {
    let bump = Bump::new();
    let (mut env, mut ids) = start(&bump, 8);
    let first = generic_hash(&mut env, &mut ids, SEED, ARG, &int64());
    let second = generic_hash(&mut env, &mut ids, first, ARG, &Layout::Builtin(Builtin::Int8));
    assert_eq!(second, inst(0, 7));
    assert_eq!(
        host_insts(&env)[7],
        Op::CallDictHash { seed: inst(0, 3), buffer: inst(0, 6), num_bytes: Value::ConstInt(1) }
    );
}

#[test]
fn a_string_goes_to_the_string_mixer() {
    let bump = Bump::new();
    let (mut env, mut ids) = start(&bump, 8);
    let r = generic_hash(&mut env, &mut ids, SEED, ARG, &string());
    assert_eq!(r, inst(0, 1));
    assert_eq!(
        host_insts(&env),
        &vec![Op::StrToI128(ARG), Op::CallDictHashStr { seed: SEED, string: inst(0, 0) }]
    );
}

#[test]
fn an_empty_collection_leaves_the_seed_unchanged() {
    for builtin in [Builtin::EmptyStr, Builtin::EmptyList, Builtin::EmptyDict, Builtin::EmptySet] {
        let bump = Bump::new();
        let (mut env, mut ids) = start(&bump, 8);
        let r = generic_hash(&mut env, &mut ids, SEED, ARG, &Layout::Builtin(builtin));
        assert_eq!(r, SEED);
        assert!(host_insts(&env).is_empty());
        assert_eq!(env.module.functions.len(), 1);
        assert_eq!(ids.len(), 0);
    }
}

#[test]
fn a_struct_gets_a_procedure_that_folds_over_the_fields() {
    let bump = Bump::new();
    let (mut env, mut ids) = start(&bump, 8);
    let layout = Layout::Struct(vec![int64(), string()]);
    let r = generic_hash(&mut env, &mut ids, SEED, ARG, &layout);
    assert_eq!(r, inst(0, 0));
    assert_eq!(host_insts(&env), &vec![Op::Call { callee: 1, seed: SEED, value: ARG }]);
    assert_eq!(env.module.functions.len(), 2);
    let proc = &env.module.functions[1];
    assert_eq!(proc.name, FnName::GenericHash(id_of(&ids, &layout)));
    assert_eq!(proc.param_type, BasicType::Layout(id_of(&ids, &layout)));
    assert_eq!(proc.blocks.len(), 1);
    assert!(proc.blocks[0].phis.is_empty());
    assert_eq!(
        proc.blocks[0].insts,
        vec![
            Op::ExtractValue(ARG, 0),
            Op::Alloca(BasicType::Layout(id_of(&ids, &int64()))),
            Op::Store { ptr: inst(0, 1), value: inst(0, 0) },
            Op::Bitcast(inst(0, 1), BasicType::I8Pointer),
            Op::CallDictHash { seed: SEED, buffer: inst(0, 3), num_bytes: Value::ConstInt(8) },
            Op::ExtractValue(ARG, 1),
            Op::StrToI128(inst(0, 5)),
            Op::CallDictHashStr { seed: inst(0, 4), string: inst(0, 6) },
        ]
    );
    assert_eq!(proc.blocks[0].terminator, Some(Terminator::Return(inst(0, 7))));
}

#[test]
fn swapped_fields_are_folded_in_swapped_order() {
    let bump = Bump::new();
    let (mut env, mut ids) = start(&bump, 8);
    let ab = Layout::Struct(vec![int64(), string()]);
    let ba = Layout::Struct(vec![string(), int64()]);
    generic_hash(&mut env, &mut ids, SEED, ARG, &ab);
    generic_hash(&mut env, &mut ids, SEED, ARG, &ba);
    assert_eq!(env.module.functions.len(), 3);
    let proc = &env.module.functions[2];
    assert_eq!(proc.name, FnName::GenericHash(id_of(&ids, &ba)));
    assert_eq!(
        proc.blocks[0].insts,
        vec![
            Op::ExtractValue(ARG, 0),
            Op::StrToI128(inst(0, 0)),
            Op::CallDictHashStr { seed: SEED, string: inst(0, 1) },
            Op::ExtractValue(ARG, 1),
            Op::Alloca(BasicType::Layout(id_of(&ids, &int64()))),
            Op::Store { ptr: inst(0, 4), value: inst(0, 3) },
            Op::Bitcast(inst(0, 4), BasicType::I8Pointer),
            Op::CallDictHash { seed: inst(0, 2), buffer: inst(0, 6), num_bytes: Value::ConstInt(8) },
        ]
    );
    assert_ne!(env.module.functions[1].blocks[0].insts, proc.blocks[0].insts);
}

#[test]
fn a_layout_gets_its_procedure_once() {
    let bump = Bump::new();
    let (mut env, mut ids) = start(&bump, 8);
    let layout = Layout::Struct(vec![int64(), Layout::Struct(vec![string()])]);
    let first = generic_hash(&mut env, &mut ids, SEED, ARG, &layout);
    let procedures = env.module.functions.len();
    let known = ids.len();
    assert_eq!(procedures, 3);
    let body = env.module.functions[1].blocks[0].insts.clone();
    let second = generic_hash(&mut env, &mut ids, first, ARG, &layout);
    assert_eq!(env.module.functions.len(), procedures);
    assert_eq!(ids.len(), known);
    assert_eq!(env.module.functions[1].blocks[0].insts, body);
    assert_eq!(
        host_insts(&env),
        &vec![
            Op::Call { callee: 1, seed: SEED, value: ARG },
            Op::Call { callee: 1, seed: first, value: ARG },
        ]
    );
    assert_eq!(second, inst(0, 1));
    // the inner struct alone is found as well
    generic_hash(&mut env, &mut ids, SEED, ARG, &Layout::Struct(vec![string()]));
    assert_eq!(env.module.functions.len(), procedures);
    assert_eq!(host_insts(&env)[2], Op::Call { callee: 2, seed: SEED, value: ARG });
}

#[test]
fn a_struct_without_fields_returns_its_seed() {
    let bump = Bump::new();
    let (mut env, mut ids) = start(&bump, 8);
    generic_hash(&mut env, &mut ids, SEED, ARG, &Layout::Struct(vec![]));
    let proc = &env.module.functions[1];
    assert!(proc.blocks[0].insts.is_empty());
    assert_eq!(proc.blocks[0].terminator, Some(Terminator::Return(SEED)));
}

#[test]
fn an_empty_collection_field_hands_the_seed_on() {
    let bump = Bump::new();
    let (mut env, mut ids) = start(&bump, 8);
    let layout = Layout::Struct(vec![string(), Layout::Builtin(Builtin::EmptyList), string()]);
    generic_hash(&mut env, &mut ids, SEED, ARG, &layout);
    assert_eq!(
        env.module.functions[1].blocks[0].insts,
        vec![
            Op::ExtractValue(ARG, 0),
            Op::StrToI128(inst(0, 0)),
            Op::CallDictHashStr { seed: SEED, string: inst(0, 1) },
            Op::ExtractValue(ARG, 1),
            Op::ExtractValue(ARG, 2),
            Op::StrToI128(inst(0, 4)),
            Op::CallDictHashStr { seed: inst(0, 2), string: inst(0, 5) },
        ]
    );
    assert_eq!(
        env.module.functions[1].blocks[0].terminator,
        Some(Terminator::Return(inst(0, 6)))
    );
}

#[test]
fn the_builder_is_back_where_it_was() {
    let bump = Bump::new();
    let (mut env, mut ids) = start(&bump, 8);
    let layout = Layout::Builtin(Builtin::List(Box::new(Layout::Struct(vec![int64()]))));
    generic_hash(&mut env, &mut ids, SEED, ARG, &layout);
    assert_eq!(env.position, Some(BasicBlock { function: 0, index: 0 }));
    assert_eq!(env.get_insert_block(), Some(BasicBlock { function: 0, index: 0 }));
    assert_eq!(blocks(&env, 0)[0].terminator, None);
}

#[test]
fn an_inline_union_branches_on_its_tag_id() {
    let bump = Bump::new();
    let (mut env, mut ids) = start(&bump, 8);
    let tags = vec![vec![int64()], vec![int64(), string()], vec![int64(), int64()]];
    let layout = Layout::Union(UnionLayout::NonRecursive(tags.clone()));
    let r = generic_hash(&mut env, &mut ids, SEED, ARG, &layout);
    assert_eq!(r, inst(0, 0));
    assert_eq!(host_insts(&env), &vec![Op::Call { callee: 1, seed: SEED, value: ARG }]);
    // the union's procedure and one per variant struct
    assert_eq!(env.module.functions.len(), 5);
    let proc = &env.module.functions[1];
    assert_eq!(proc.name, FnName::GenericHash(id_of(&ids, &layout)));
    assert_eq!(proc.blocks.len(), 5);
    assert_eq!(proc.blocks[0].insts, vec![Op::ComplexBitcast(ARG, BasicType::I64)]);
    // the last variant is the default
    assert_eq!(
        proc.blocks[0].terminator,
        Some(Terminator::Switch { value: inst(0, 0), default: 4, cases: vec![(0, 2), (1, 3)] })
    );
    for (j, fields) in tags.iter().enumerate() {
        let b = 2 + j;
        let variant = Layout::Struct(fields.clone());
        let callee = env.get_function(FnName::GenericHash(id_of(&ids, &variant))).unwrap();
        assert_eq!(callee, 2 + j);
        assert_eq!(
            proc.blocks[b].insts,
            vec![
                Op::CastBlockOfMemoryToTag(ARG, BasicType::Layout(id_of(&ids, &variant))),
                Op::Call { callee, seed: SEED, value: inst(b, 0) },
            ]
        );
        assert_eq!(proc.blocks[b].terminator, Some(Terminator::Branch(1)));
    }
    assert_eq!(proc.blocks[1].phis.len(), 1);
    assert_eq!(
        proc.blocks[1].phis[0].incoming,
        vec![(inst(2, 1), 2), (inst(3, 1), 3), (inst(4, 1), 4)]
    );
    assert!(proc.blocks[1].insts.is_empty());
    assert_eq!(
        proc.blocks[1].terminator,
        Some(Terminator::Return(Value::Phi { block: 1, index: 0 }))
    );
}

#[test]
fn a_union_of_one_variant_has_only_the_default() {
    let bump = Bump::new();
    let (mut env, mut ids) = start(&bump, 8);
    let layout = Layout::Union(UnionLayout::NonRecursive(vec![vec![int64()]]));
    generic_hash(&mut env, &mut ids, SEED, ARG, &layout);
    let proc = &env.module.functions[1];
    assert_eq!(proc.blocks.len(), 3);
    assert_eq!(
        proc.blocks[0].terminator,
        Some(Terminator::Switch { value: inst(0, 0), default: 2, cases: vec![] })
    );
    assert_eq!(proc.blocks[1].phis[0].incoming, vec![(inst(2, 1), 2)]);
}

#[test]
fn variants_of_one_shape_share_their_procedure() {
    let bump = Bump::new();
    let (mut env, mut ids) = start(&bump, 8);
    let layout = Layout::Union(UnionLayout::NonRecursive(vec![vec![int64()], vec![int64()]]));
    generic_hash(&mut env, &mut ids, SEED, ARG, &layout);
    assert_eq!(env.module.functions.len(), 3);
    let proc = &env.module.functions[1];
    assert_eq!(proc.blocks[2].insts[1], Op::Call { callee: 2, seed: SEED, value: inst(2, 0) });
    assert_eq!(proc.blocks[3].insts[1], Op::Call { callee: 2, seed: SEED, value: inst(3, 0) });
}

#[test]
fn a_recursive_union_reads_its_tag_id_behind_the_pointer() {
    let bump = Bump::new();
    let (mut env, mut ids) = start(&bump, 8);
    let tags = vec![vec![int64()], vec![int64(), Layout::RecursivePointer]];
    let layout = Layout::Union(UnionLayout::Recursive(tags));
    generic_hash(&mut env, &mut ids, SEED, ARG, &layout);
    assert_eq!(env.module.functions.len(), 4);
    let proc = &env.module.functions[1];
    assert_eq!(proc.blocks.len(), 4);
    assert_eq!(
        proc.blocks[0].insts,
        vec![Op::Bitcast(ARG, BasicType::I64Pointer), Op::Load(inst(0, 0))]
    );
    assert_eq!(
        proc.blocks[0].terminator,
        Some(Terminator::Switch { value: inst(0, 1), default: 3, cases: vec![(0, 2)] })
    );
    let leaf = Layout::Struct(vec![int64()]);
    let node = Layout::Struct(vec![int64(), Layout::RecursivePointer]);
    assert_eq!(
        proc.blocks[2].insts,
        vec![
            Op::Bitcast(ARG, BasicType::LayoutPointer(id_of(&ids, &leaf))),
            Op::Load(inst(2, 0)),
            Op::Call { callee: 2, seed: SEED, value: inst(2, 1) },
        ]
    );
    assert_eq!(
        proc.blocks[3].insts,
        vec![
            Op::Bitcast(ARG, BasicType::LayoutPointer(id_of(&ids, &node))),
            Op::Load(inst(3, 0)),
            Op::Call { callee: 3, seed: SEED, value: inst(3, 1) },
        ]
    );
    assert_eq!(proc.blocks[1].phis[0].incoming, vec![(inst(2, 2), 2), (inst(3, 2), 3)]);
    // the recursive pointer of the node goes back to the union's own procedure
    let node_insts = &env.module.functions[3].blocks[0].insts;
    assert_eq!(node_insts[5], Op::ExtractValue(ARG, 1));
    assert_eq!(node_insts[6], Op::Bitcast(inst(0, 5), BasicType::Layout(id_of(&ids, &layout))));
    assert_eq!(node_insts[7], Op::Call { callee: 1, seed: inst(0, 4), value: inst(0, 6) });
}

fn cons_list() -> Layout {
    Layout::Union(UnionLayout::NullableUnwrapped {
        nullable_id: true,
        other_fields: vec![int64(), Layout::RecursivePointer],
    })
}

#[test]
fn a_linked_list_gets_two_procedures_that_call_each_other() {
    let bump = Bump::new();
    let (mut env, mut ids) = start(&bump, 8);
    let layout = cons_list();
    let r = generic_hash(&mut env, &mut ids, SEED, ARG, &layout);
    assert_eq!(r, inst(0, 0));
    assert_eq!(env.module.functions.len(), 3);
    let node = Layout::Struct(vec![int64(), Layout::RecursivePointer]);
    let proc = &env.module.functions[1];
    assert_eq!(proc.name, FnName::GenericHash(id_of(&ids, &layout)));
    assert_eq!(proc.blocks.len(), 4);
    // the pointer is tested for null before anything is read through it
    assert_eq!(proc.blocks[0].insts, vec![Op::IsNull(ARG)]);
    assert_eq!(
        proc.blocks[0].terminator,
        Some(Terminator::ConditionalBranch { condition: inst(0, 0), then_block: 2, else_block: 3 })
    );
    // null: nothing is computed
    assert!(proc.blocks[2].insts.is_empty());
    assert_eq!(proc.blocks[2].terminator, Some(Terminator::Branch(1)));
    // not null: the fields behind the pointer are hashed, the first one too
    assert_eq!(
        proc.blocks[3].insts,
        vec![
            Op::Bitcast(ARG, BasicType::LayoutPointer(id_of(&ids, &node))),
            Op::Load(inst(3, 0)),
            Op::Call { callee: 2, seed: SEED, value: inst(3, 1) },
        ]
    );
    assert_eq!(proc.blocks[3].terminator, Some(Terminator::Branch(1)));
    assert_eq!(proc.blocks[1].phis[0].incoming, vec![(SEED, 2), (inst(3, 2), 3)]);
    let node_proc = &env.module.functions[2];
    assert_eq!(node_proc.name, FnName::GenericHash(id_of(&ids, &node)));
    assert_eq!(
        node_proc.blocks[0].insts[7],
        Op::Call { callee: 1, seed: inst(0, 4), value: inst(0, 6) }
    );
    assert_eq!(node_proc.blocks[0].terminator, Some(Terminator::Return(inst(0, 7))));
}

#[test]
fn which_variant_is_null_does_not_change_the_code() {
    let bump = Bump::new();
    let (mut env, mut ids) = start(&bump, 8);
    let tags = || vec![vec![int64(), string()], vec![int64()]];
    let a = Layout::Union(UnionLayout::NullableWrapped { nullable_id: 0, other_tags: tags() });
    let b = Layout::Union(UnionLayout::NullableWrapped { nullable_id: 2, other_tags: tags() });
    generic_hash(&mut env, &mut ids, SEED, ARG, &a);
    let procedures = env.module.functions.len();
    assert_eq!(procedures, 4);
    generic_hash(&mut env, &mut ids, SEED, ARG, &b);
    // a second union procedure, the variants' procedures are shared
    assert_eq!(env.module.functions.len(), procedures + 1);
    assert_eq!(env.module.functions[1].blocks, env.module.functions[4].blocks);
    let proc = &env.module.functions[4];
    assert_eq!(proc.blocks.len(), 6);
    assert_eq!(proc.blocks[0].insts, vec![Op::IsNull(ARG)]);
    assert_eq!(
        proc.blocks[0].terminator,
        Some(Terminator::ConditionalBranch { condition: inst(0, 0), then_block: 2, else_block: 3 })
    );
    assert!(proc.blocks[2].insts.is_empty());
    assert_eq!(
        proc.blocks[3].insts,
        vec![Op::Bitcast(ARG, BasicType::I64Pointer), Op::Load(inst(3, 0))]
    );
    assert_eq!(
        proc.blocks[3].terminator,
        Some(Terminator::Switch { value: inst(3, 1), default: 5, cases: vec![(0, 4)] })
    );
    assert_eq!(
        proc.blocks[1].phis[0].incoming,
        vec![(SEED, 2), (inst(4, 2), 4), (inst(5, 2), 5)]
    );

    let unwrapped = |nullable_id| {
        Layout::Union(UnionLayout::NullableUnwrapped {
            nullable_id,
            other_fields: vec![int64(), string()],
        })
    };
    // the struct of the two fields has its procedure already
    generic_hash(&mut env, &mut ids, SEED, ARG, &unwrapped(false));
    generic_hash(&mut env, &mut ids, SEED, ARG, &unwrapped(true));
    let n = env.module.functions.len();
    assert_eq!(n, procedures + 3);
    assert_eq!(env.module.functions[n - 1].blocks, env.module.functions[n - 2].blocks);
}

#[test]
fn a_pointer_that_is_never_null_is_not_tested() {
    let bump = Bump::new();
    let (mut env, mut ids) = start(&bump, 8);
    let layout = Layout::Union(UnionLayout::NonNullableUnwrapped(vec![
        int64(),
        Layout::RecursivePointer,
    ]));
    generic_hash(&mut env, &mut ids, SEED, ARG, &layout);
    let node = Layout::Struct(vec![int64(), Layout::RecursivePointer]);
    let proc = &env.module.functions[1];
    assert_eq!(proc.blocks.len(), 2);
    assert_eq!(
        proc.blocks[0].insts,
        vec![
            Op::Bitcast(ARG, BasicType::LayoutPointer(id_of(&ids, &node))),
            Op::Load(inst(0, 0)),
            Op::Call { callee: 2, seed: SEED, value: inst(0, 1) },
        ]
    );
    assert_eq!(proc.blocks[0].terminator, Some(Terminator::Branch(1)));
    assert_eq!(proc.blocks[1].phis[0].incoming, vec![(inst(0, 2), 0)]);
}

#[test]
fn a_list_gets_a_loop_over_its_elements() {
    let bump = Bump::new();
    let (mut env, mut ids) = start(&bump, 8);
    let layout = Layout::Builtin(Builtin::List(Box::new(int64())));
    let r = generic_hash(&mut env, &mut ids, SEED, ARG, &layout);
    assert_eq!(r, inst(0, 0));
    assert_eq!(env.module.functions.len(), 2);
    let proc = &env.module.functions[1];
    assert_eq!(proc.name, FnName::GenericHash(id_of(&ids, &layout)));
    assert_eq!(proc.blocks.len(), 5);
    assert_eq!(
        proc.blocks[0].insts,
        vec![
            Op::ListLength(ARG),
            Op::ListPointer(ARG, BasicType::LayoutPointer(id_of(&ids, &int64()))),
            Op::Alloca(BasicType::I64),
            Op::Store { ptr: inst(0, 2), value: SEED },
            Op::IntCompareEq(inst(0, 0), Value::ConstInt(0)),
        ]
    );
    // an empty list goes straight to the end
    assert_eq!(
        proc.blocks[0].terminator,
        Some(Terminator::ConditionalBranch { condition: inst(0, 4), then_block: 1, else_block: 2 })
    );
    assert_eq!(proc.blocks[1].insts, vec![Op::Load(inst(0, 2))]);
    assert_eq!(proc.blocks[1].terminator, Some(Terminator::Return(inst(1, 0))));
    assert!(proc.blocks[2].insts.is_empty());
    assert_eq!(proc.blocks[2].terminator, Some(Terminator::Branch(3)));
    assert_eq!(
        proc.blocks[3].insts,
        vec![
            Op::ElemIndex,
            Op::ElemLoad { ptr: inst(0, 1), index: inst(3, 0) },
            Op::Load(inst(0, 2)),
            Op::Alloca(BasicType::Layout(id_of(&ids, &int64()))),
            Op::Store { ptr: inst(3, 3), value: inst(3, 1) },
            Op::Bitcast(inst(3, 3), BasicType::I8Pointer),
            Op::CallDictHash { seed: inst(3, 2), buffer: inst(3, 5), num_bytes: Value::ConstInt(8) },
            Op::Store { ptr: inst(0, 2), value: inst(3, 6) },
        ]
    );
    assert_eq!(
        proc.blocks[3].terminator,
        Some(Terminator::ElemLoopBack { index: inst(3, 0), length: inst(0, 0), body: 3, after: 4 })
    );
    assert!(proc.blocks[4].insts.is_empty());
    assert_eq!(proc.blocks[4].terminator, Some(Terminator::Branch(1)));
}

#[test]
fn a_list_of_empty_collections_only_carries_the_seed() {
    let bump = Bump::new();
    let (mut env, mut ids) = start(&bump, 8);
    let layout = Layout::Builtin(Builtin::List(Box::new(Layout::Builtin(Builtin::EmptyStr))));
    generic_hash(&mut env, &mut ids, SEED, ARG, &layout);
    assert_eq!(
        env.module.functions[1].blocks[3].insts,
        vec![
            Op::ElemIndex,
            Op::ElemLoad { ptr: inst(0, 1), index: inst(3, 0) },
            Op::Load(inst(0, 2)),
            Op::Store { ptr: inst(0, 2), value: inst(3, 2) },
        ]
    );
}

#[test]
fn a_list_of_recursive_unions_inside_a_recursive_union() {
    let bump = Bump::new();
    let (mut env, mut ids) = start(&bump, 8);
    // a rose tree: a node holds a number and the list of its children
    let layout = Layout::Union(UnionLayout::NonNullableUnwrapped(vec![
        int64(),
        Layout::Builtin(Builtin::List(Box::new(Layout::RecursivePointer))),
    ]));
    generic_hash(&mut env, &mut ids, SEED, ARG, &layout);
    // the union, its node struct, the list of children
    assert_eq!(env.module.functions.len(), 4);
    let children = &env.module.functions[3];
    assert_eq!(
        &children.blocks[3].insts[3..5],
        &[
            Op::Bitcast(inst(3, 1), BasicType::Layout(id_of(&ids, &layout))),
            Op::Call { callee: 1, seed: inst(3, 2), value: inst(3, 3) },
        ]
    );
    assert_eq!(children.blocks[3].insts[5], Op::Store { ptr: inst(0, 2), value: inst(3, 4) });
}

#[test]
fn every_generated_procedure_is_complete() {
    let bump = Bump::new();
    let (mut env, mut ids) = start(&bump, 8);
    let layout = Layout::Struct(vec![
        cons_list(),
        Layout::Builtin(Builtin::List(Box::new(Layout::Union(UnionLayout::Recursive(vec![
            vec![int64(), Layout::RecursivePointer, Layout::RecursivePointer],
            vec![string()],
            vec![],
        ]))))),
        Layout::Union(UnionLayout::NonRecursive(vec![vec![int64()], vec![]])),
    ]);
    generic_hash(&mut env, &mut ids, SEED, ARG, &layout);
    assert!(env.module.functions.len() > 5);
    for (f, function) in env.module.functions.iter().enumerate().skip(1) {
        assert!(matches!(function.name, FnName::GenericHash(_)));
        assert!(!function.blocks.is_empty());
        for block in &function.blocks {
            assert!(block.terminator.is_some(), "procedure {} has an open block", f);
            for op in &block.insts {
                if let Op::Call { callee, .. } = op {
                    assert!(*callee < env.module.functions.len());
                    assert!(*callee != 0);
                }
            }
        }
    }
    // no two procedures have one name
    for (f, function) in env.module.functions.iter().enumerate() {
        for other in &env.module.functions[f + 1..] {
            assert_ne!(function.name, other.name);
        }
    }
}

#[test]
fn every_procedure_takes_a_value_of_its_own_layout() {
    let bump = Bump::new();
    let (mut env, mut ids) = start(&bump, 8);
    let list = Layout::Builtin(Builtin::List(Box::new(int64())));
    let union = Layout::Union(UnionLayout::NonRecursive(vec![vec![int64()], vec![string()]]));
    let layout = Layout::Struct(vec![list.clone(), union.clone(), cons_list()]);
    generic_hash(&mut env, &mut ids, SEED, ARG, &layout);
    for wanted in [&layout, &list, &union, &cons_list()] {
        let id = id_of(&ids, wanted);
        let found: Vec<_> = env
            .module
            .functions
            .iter()
            .filter(|function| function.name == FnName::GenericHash(id))
            .collect();
        assert_eq!(found.len(), 1);
        assert_eq!(found[0].param_type, BasicType::Layout(id));
    }
    for function in env.module.functions.iter().skip(1) {
        match function.name {
            FnName::GenericHash(id) => assert_eq!(function.param_type, BasicType::Layout(id)),
            FnName::Other(_) => panic!("a procedure that hashes nothing was added"),
        }
    }
}

#[test]
fn only_structs_unions_and_lists_get_procedures() {
    let plain = [
        Builtin::Int128,
        Builtin::Int64,
        Builtin::Int32,
        Builtin::Int16,
        Builtin::Int8,
        Builtin::Int1,
        Builtin::Usize,
        Builtin::Float64,
        Builtin::Float32,
        Builtin::Str,
        Builtin::EmptyStr,
        Builtin::EmptyList,
        Builtin::EmptyDict,
        Builtin::EmptySet,
    ];
    for builtin in plain {
        let bump = Bump::new();
        let (mut env, mut ids) = start(&bump, 8);
        generic_hash(&mut env, &mut ids, SEED, ARG, &Layout::Builtin(builtin));
        assert_eq!(env.module.functions.len(), 1);
        assert_eq!(env.module.functions[0].name, FnName::Other(0));
    }
}

#[test]
fn the_procedures_that_a_call_adds_hash_parts_of_its_layout() {
    let bump = Bump::new();
    let (mut env, mut ids) = start(&bump, 8);
    let pair = Layout::Struct(vec![int64(), string()]);
    let list = Layout::Builtin(Builtin::List(Box::new(pair.clone())));
    let layout = Layout::Struct(vec![list.clone(), int64()]);
    generic_hash(&mut env, &mut ids, SEED, ARG, &layout);
    // the struct, its list and the list's elements: nothing else
    assert_eq!(env.module.functions.len(), 4);
    let mut wanted = vec![id_of(&ids, &layout), id_of(&ids, &list), id_of(&ids, &pair)];
    for function in env.module.functions.iter().skip(1) {
        match function.name {
            FnName::GenericHash(id) => {
                let at = wanted.iter().position(|w| *w == id).expect("a part of the layout");
                wanted.remove(at);
            }
            FnName::Other(_) => panic!("a procedure that hashes nothing was added"),
        }
    }
    assert!(wanted.is_empty());
    // a second call for a part adds nothing
    generic_hash(&mut env, &mut ids, SEED, ARG, &list);
    assert_eq!(env.module.functions.len(), 4);
}

#[test]
fn only_the_layout_and_its_parts_get_an_id() {
    let bump = Bump::new();
    let (mut env, mut ids) = start(&bump, 8);
    generic_hash(&mut env, &mut ids, SEED, ARG, &Layout::Builtin(Builtin::EmptyList));
    assert_eq!(ids.len(), 0);
    generic_hash(&mut env, &mut ids, SEED, ARG, &string());
    assert_eq!(ids.len(), 0);
    generic_hash(&mut env, &mut ids, SEED, ARG, &int64());
    assert_eq!(ids.len(), 1);
    assert_eq!(ids.layout(0), &int64());

    let pair = Layout::Struct(vec![int64(), string()]);
    let list = Layout::Builtin(Builtin::List(Box::new(pair.clone())));
    generic_hash(&mut env, &mut ids, SEED, ARG, &list);
    let parts = [int64(), string(), pair, list];
    for id in 0..ids.len() {
        assert!(parts.contains(ids.layout(id)));
    }
    assert!(ids.len() >= 3);
}

fn is_mix(op: &Op) -> bool {
    matches!(op, Op::CallDictHash { .. } | Op::CallDictHashStr { .. })
}

#[test]
fn the_node_of_a_linked_list_mixes_one_number() {
    let bump = Bump::new();
    let (mut env, mut ids) = start(&bump, 8);
    generic_hash(&mut env, &mut ids, SEED, ARG, &cons_list());
    // the list's own procedure only tests the pointer and hands the node on
    for block in &env.module.functions[1].blocks {
        assert!(!block.insts.iter().any(is_mix));
    }
    let node = &env.module.functions[2];
    assert_eq!(node.blocks.len(), 1);
    let insts = &node.blocks[0].insts;
    assert_eq!(insts.len(), 8);
    assert_eq!(insts[0], Op::ExtractValue(ARG, 0));
    assert_eq!(insts[5], Op::ExtractValue(ARG, 1));
    let mixes: Vec<usize> = (0..insts.len()).filter(|p| is_mix(&insts[*p])).collect();
    assert_eq!(mixes, vec![4]);
}

#[test]
fn a_struct_takes_each_field_out_once() {
    let bump = Bump::new();
    let (mut env, mut ids) = start(&bump, 8);
    let layout = Layout::Struct(vec![
        string(),
        Layout::Builtin(Builtin::EmptyList),
        int64(),
        Layout::Struct(vec![int64()]),
    ]);
    generic_hash(&mut env, &mut ids, SEED, ARG, &layout);
    let insts = &env.module.functions[1].blocks[0].insts;
    // the first instruction of each field's code, and no other, reads the field
    let reads: Vec<(usize, Op)> = insts
        .iter()
        .cloned()
        .enumerate()
        .filter(|(_, op)| matches!(op, Op::ExtractValue(..)))
        .collect();
    assert_eq!(
        reads,
        vec![
            (0, Op::ExtractValue(ARG, 0)),
            (3, Op::ExtractValue(ARG, 1)),
            (4, Op::ExtractValue(ARG, 2)),
            (9, Op::ExtractValue(ARG, 3)),
        ]
    );
    // the string and the number are mixed in once each, where their code ends
    let mixes: Vec<usize> = (0..insts.len()).filter(|p| is_mix(&insts[*p])).collect();
    assert_eq!(mixes, vec![2, 8]);
    assert_eq!(insts.len(), 11);
}

#[test]
fn the_first_field_behind_a_nullable_pointer_is_part_of_the_struct() {
    let bump = Bump::new();
    let (mut env, mut ids) = start(&bump, 8);
    let layout = Layout::Union(UnionLayout::NullableUnwrapped {
        nullable_id: false,
        other_fields: vec![string(), int64()],
    });
    generic_hash(&mut env, &mut ids, SEED, ARG, &layout);
    let whole = Layout::Struct(vec![string(), int64()]);
    assert_eq!(ids.find(&Layout::Struct(vec![int64()])), None);
    let proc = &env.module.functions[1];
    assert_eq!(
        proc.blocks[3].insts,
        vec![
            Op::Bitcast(ARG, BasicType::LayoutPointer(id_of(&ids, &whole))),
            Op::Load(inst(3, 0)),
            Op::Call { callee: 2, seed: SEED, value: inst(3, 1) },
        ]
    );
    let fields = &env.module.functions[2];
    assert_eq!(fields.name, FnName::GenericHash(id_of(&ids, &whole)));
    assert_eq!(fields.blocks[0].insts[0], Op::ExtractValue(ARG, 0));
    assert_eq!(fields.blocks[0].insts[1], Op::StrToI128(inst(0, 0)));
    assert_eq!(
        fields.blocks[0].insts[2],
        Op::CallDictHashStr { seed: SEED, string: inst(0, 1) }
    );
}
