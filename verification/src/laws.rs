//! What holds of every hash procedure that code generation emits.

use vstd::prelude::*;
use crate::env::Env;
use crate::ir::{BlockId, FunctionId, Function, Op, Terminator, Value};
use crate::layout::{BuiltinModel, LayoutModel, UnionModel};
use crate::layout_ids::LayoutIds;
use crate::linking::{
    has_direct_pointer, linked, linked_fields, linked_union, only_under, only_under_fields,
    only_under_struct, only_under_union, pointer_linked, unambiguous, within, within_fields,
    within_struct, within_union,
};
use crate::semantics::{
    op_frame, op_result, operand, phi_source, run_block, run_function, run_insts, run_phis,
    switch_target, Datum, Frame, Mixers,
};
use crate::shape::{
    is_empty_collection, code_len, code_result, fields_code_at, fields_code_len, fields_seed,
    generated, inline_branch, inst, is_scalar, layout_code_at, names, null_branch, null_test,
    pointer_branch, pointer_tag_switch, proc_shape, scalar_width,
};

verus! {

/// Procedure `g` of `env` is the complete hash procedure of `layout`.
pub open spec fn hashes(env: &Env, ids: &LayoutIds, g: FunctionId, layout: LayoutModel) -> bool {
    &&& generated(env, ids)
    &&& env.has_function(g as int)
    &&& env.complete(g as int)
    &&& names(env, ids).proc_for(g, layout)
}

/// A multiway branch over `n` variants sends tag id `tag` to the block of
/// variant `tag`.
proof fn lemma_switch_target(
    cases: Seq<(u64, BlockId)>,
    default: BlockId,
    first: int,
    n: int,
    tag: u64,
    k: int,
)
    requires
        0 <= first,
        0 <= k <= tag < n,
        first + n <= usize::MAX,
        default == first + n - 1,
        cases.len() == n - 1,
        forall|j: int| 0 <= j < n - 1 ==> #[trigger] cases[j] == (j as u64, (first + j) as usize),
    ensures
        switch_target(cases, tag, default, k) == first + tag,
    decreases tag - k,
{
    if k < cases.len() {
        assert(cases[k] == (k as u64, (first + k) as usize));
        if k < tag {
            lemma_switch_target(cases, default, first, n, tag, k + 1);
        }
    }
}

/// A phi node whose incoming pairs name `n` distinct blocks in a row takes,
/// on entry from the `i`th of them, the value paired with it.
proof fn lemma_phi_source(incoming: Seq<(Value, BlockId)>, first: int, skip: int, i: int, k: int)
    requires
        0 <= first,
        0 <= skip,
        0 <= k <= skip + i < incoming.len(),
        0 <= i,
        forall|j: int| 0 <= j < skip ==> (#[trigger] incoming[j]).1 < first,
        forall|j: int| skip <= j < incoming.len() ==> (#[trigger] incoming[j]).1 == first + (j - skip),
    ensures
        phi_source(incoming, first + i, k) == Some(incoming[skip + i].0),
    decreases skip + i - k,
{
    if k < skip + i {
        assert(incoming[k].1 != first + i);
        lemma_phi_source(incoming, first, skip, i, k + 1);
    }
}

/// Hashing the null pointer of a union in which null stands for a variant
/// leaves the seed as it is, whichever variant that is.
pub proof fn law_null_leaves_seed(
    env: &Env,
    ids: &LayoutIds,
    mix: Mixers,
    g: FunctionId,
    union_layout: UnionModel,
    seed: u64,
    fuel: nat,
)
    requires
        hashes(env, ids, g, LayoutModel::Union(union_layout)),
        union_layout is NullableWrapped || union_layout is NullableUnwrapped,
        fuel >= 3,
    ensures
        run_function(env.functions(), mix, g as int, seed, Datum::Null, fuel) == Some(seed),
{
    let fns = env.functions();
    let blocks = env.blocks(g as int);
    assert(proc_shape(names(env, ids), env.ptr_bytes, blocks, LayoutModel::Union(union_layout)));
    assert(null_test(blocks[0]));
    assert(null_branch(blocks[2]));
    let incoming = blocks[1].phis@[0].incoming@;
    assert(incoming[0] == (Value::Param(0), 2usize));
    assert(phi_source(incoming, 2, 0) == Some(Value::Param(0)));
    let e = Frame::empty();
    // block 0: the null test
    let f0 = e.bind(inst(0, 0), Datum::Int(1));
    assert(run_phis(blocks[0].phis@, 0, -1, e, seed, Datum::Null, 0) == Some(e));
    assert(run_insts(fns, mix, g as int, 0, 1, -1, f0, seed, Datum::Null, (fuel - 1) as nat) == Some(f0));
    assert(op_result(mix, blocks[0].insts@[0], 0, 0, -1, e, seed, Datum::Null) == Some(Datum::Int(1)));
    assert(run_insts(fns, mix, g as int, 0, 0, -1, e, seed, Datum::Null, (fuel - 1) as nat) == Some(f0));
    // block 2: the null branch
    assert(run_phis(blocks[2].phis@, 2, 0, f0, seed, Datum::Null, 0) == Some(f0));
    assert(run_insts(fns, mix, g as int, 2, 0, 0, f0, seed, Datum::Null, (fuel - 2) as nat) == Some(f0));
    // block 1: the join point
    let f1 = f0.bind(Value::Phi { block: 1, index: 0 }, Datum::Int(seed));
    assert(run_phis(blocks[1].phis@, 1, 2, f0, seed, Datum::Null, 0) == Some(f0));
    assert(run_phis(blocks[1].phis@, 1, 2, f0, seed, Datum::Null, 1) == Some(f1));
    assert(run_insts(fns, mix, g as int, 1, 0, 2, f1, seed, Datum::Null, (fuel - 3) as nat) == Some(f1));
    assert(run_block(fns, mix, g as int, 1, 2, f0, seed, Datum::Null, (fuel - 3) as nat) == Some(seed));
    assert(run_block(fns, mix, g as int, 2, 0, f0, seed, Datum::Null, (fuel - 2) as nat) == Some(seed));
    assert(run_block(fns, mix, g as int, 0, -1, e, seed, Datum::Null, (fuel - 1) as nat) == Some(seed));
}

/// The join point hands on the seed of the branch that control came from.
proof fn lemma_merge_returns(
    env: &Env,
    mix: Mixers,
    g: FunctionId,
    pred: BlockId,
    frame: Frame,
    v: Value,
    r: u64,
    seed: u64,
    arg: Datum,
    fuel: nat,
)
    requires
        env.has_function(g as int),
        env.blocks(g as int).len() >= 2,
        env.block(g as int, 1).phis@.len() == 1,
        env.block(g as int, 1).insts@.len() == 0,
        env.block(g as int, 1).terminator == Some(
            Terminator::Return(Value::Phi { block: 1, index: 0 }),
        ),
        phi_source(env.block(g as int, 1).phis@[0].incoming@, pred as int, 0) == Some(v),
        operand(frame, seed, arg, v) == Datum::Int(r),
    ensures
        run_block(env.functions(), mix, g as int, 1, pred as int, frame, seed, arg, fuel) == Some(r),
{
    let fns = env.functions();
    let phis = env.block(g as int, 1).phis@;
    let f1 = frame.bind(Value::Phi { block: 1, index: 0 }, Datum::Int(r));
    assert(run_phis(phis, 1, pred as int, frame, seed, arg, 0) == Some(frame));
    assert(run_phis(phis, 1, pred as int, frame, seed, arg, 1) == Some(f1));
    assert(run_insts(fns, mix, g as int, 1, 0, pred as int, f1, seed, arg, fuel) == Some(f1));
}

/// A branch behind the pointer loads the struct of its variant, hashes it
/// with that struct's procedure and goes to the join point with the seed
/// that came back.
proof fn lemma_pointer_branch_runs(
    env: &Env,
    ids: &LayoutIds,
    mix: Mixers,
    g: FunctionId,
    b: BlockId,
    layout: Seq<LayoutModel>,
    pred: int,
    frame: Frame,
    v: Value,
    seed: u64,
    pointee: Datum,
    fields: Seq<Datum>,
    fuel: nat,
) -> (callee: FunctionId)
    requires
        env.has_function(g as int),
        env.blocks(g as int).len() >= 2,
        b < env.blocks(g as int).len(),
        b != 1,
        pointer_branch(names(env, ids), env.block(g as int, b as int), b, layout),
        env.block(g as int, 1).phis@.len() == 1,
        env.block(g as int, 1).insts@.len() == 0,
        env.block(g as int, 1).terminator == Some(
            Terminator::Return(Value::Phi { block: 1, index: 0 }),
        ),
        phi_source(env.block(g as int, 1).phis@[0].incoming@, b as int, 0) == Some(inst(b, 2)),
        pointee == Datum::Struct(fields) || (exists|tag: u64| pointee == Datum::Tagged(tag, fields)),
        fuel >= 1,
    ensures
        names(env, ids).proc_for(callee, LayoutModel::Struct(layout)),
        run_block(
            env.functions(),
            mix,
            g as int,
            b,
            pred,
            frame,
            seed,
            Datum::Pointer(Box::new(pointee)),
            fuel,
        ) == run_function(
            env.functions(),
            mix,
            callee as int,
            seed,
            Datum::Struct(fields),
            (fuel - 1) as nat,
        ),
{
    let fns = env.functions();
    let arg = Datum::Pointer(Box::new(pointee));
    let insts = env.insts(g as int, b as int);
    let callee = insts[2]->Call_callee;
    let f1 = frame.bind(inst(b, 0), Datum::StructPointer(Box::new(arg)));
    let f2 = f1.bind(inst(b, 1), Datum::Struct(fields));
    assert(run_phis(env.block(g as int, b as int).phis@, b, pred, frame, seed, arg, 0) == Some(frame));
    assert(op_result(mix, insts[0], b, 0, pred, frame, seed, arg) == Some(
        Datum::StructPointer(Box::new(arg)),
    ));
    assert(op_frame(insts[0], b, 0, frame, seed, arg, Datum::StructPointer(Box::new(arg))) == f1);
    assert(operand(f1, seed, arg, inst(b, 0)) == Datum::StructPointer(Box::new(arg)));
    assert(op_result(mix, insts[1], b, 1, pred, f1, seed, arg) == Some(Datum::Struct(fields)));
    assert(op_frame(insts[1], b, 1, f1, seed, arg, Datum::Struct(fields)) == f2);
    assert(operand(f2, seed, arg, inst(b, 1)) == Datum::Struct(fields));
    let inner = run_function(fns, mix, callee as int, seed, Datum::Struct(fields), (fuel - 1) as nat);
    match inner {
        None => {
            assert(run_insts(fns, mix, g as int, b, 2, pred, f2, seed, arg, fuel) is None);
            assert(run_insts(fns, mix, g as int, b, 1, pred, f1, seed, arg, fuel) is None);
            assert(run_insts(fns, mix, g as int, b, 0, pred, frame, seed, arg, fuel) is None);
        },
        Some(r) => {
            let f3 = f2.bind(inst(b, 2), Datum::Int(r));
            assert(run_insts(fns, mix, g as int, b, 3, pred, f3, seed, arg, fuel) == Some(f3));
            assert(run_insts(fns, mix, g as int, b, 2, pred, f2, seed, arg, fuel) == Some(f3));
            assert(run_insts(fns, mix, g as int, b, 1, pred, f1, seed, arg, fuel) == Some(f3));
            assert(run_insts(fns, mix, g as int, b, 0, pred, frame, seed, arg, fuel) == Some(f3));
            lemma_merge_returns(env, mix, g, b, f3, inst(b, 2), r, seed, arg, (fuel - 1) as nat);
        },
    }
    callee
}

/// A value of a union that stores its tag id inline is hashed by the
/// branch of the variant that its tag id names, and by no other: the seed
/// that comes out is what the hash procedure of that variant's struct
/// returns for the fields.
pub proof fn law_tag_selects_variant(
    env: &Env,
    ids: &LayoutIds,
    mix: Mixers,
    g: FunctionId,
    tags: Seq<Seq<LayoutModel>>,
    seed: u64,
    tag: u64,
    fields: Seq<Datum>,
    fuel: nat,
) -> (callee: FunctionId)
    requires
        hashes(env, ids, g, LayoutModel::Union(UnionModel::NonRecursive(tags))),
        tag < tags.len(),
        fuel >= 3,
    ensures
        names(env, ids).proc_for(callee, LayoutModel::Struct(tags[tag as int])),
        run_function(env.functions(), mix, g as int, seed, Datum::Tagged(tag, fields), fuel)
            == run_function(
            env.functions(),
            mix,
            callee as int,
            seed,
            Datum::Struct(fields),
            (fuel - 3) as nat,
        ),
{
    let fns = env.functions();
    let blocks = env.blocks(g as int);
    let arg = Datum::Tagged(tag, fields);
    assert(proc_shape(
        names(env, ids),
        env.ptr_bytes,
        blocks,
        LayoutModel::Union(UnionModel::NonRecursive(tags)),
    ));
    let b = (2 + tag) as usize;
    assert(inline_branch(names(env, ids), blocks[2 + tag as int], b, tags[tag as int]));
    let insts = blocks[b as int].insts@;
    let callee = insts[1]->Call_callee;
    let incoming = blocks[1].phis@[0].incoming@;
    assert(env.functions()[g as int].blocks.len() == blocks.len());
    lemma_phi_source(incoming, 2, 0, tag as int, 0);
    let cases = blocks[0].terminator->0->Switch_cases@;
    let default = blocks[0].terminator->0->Switch_default;
    lemma_switch_target(cases, default, 2, tags.len() as int, tag, 0);
    // block 0: the tag id is read and branched on
    let e = Frame::empty();
    let f0 = e.bind(inst(0, 0), Datum::Int(tag));
    assert(run_phis(blocks[0].phis@, 0, -1, e, seed, arg, 0) == Some(e));
    assert(op_result(mix, blocks[0].insts@[0], 0, 0, -1, e, seed, arg) == Some(Datum::Int(tag)));
    assert(run_insts(fns, mix, g as int, 0, 1, -1, f0, seed, arg, (fuel - 1) as nat) == Some(f0));
    assert(run_insts(fns, mix, g as int, 0, 0, -1, e, seed, arg, (fuel - 1) as nat) == Some(f0));
    assert(run_block(fns, mix, g as int, 0, -1, e, seed, arg, (fuel - 1) as nat) == run_block(
        fns,
        mix,
        g as int,
        b,
        0,
        f0,
        seed,
        arg,
        (fuel - 2) as nat,
    ));
    // block 2 + tag: the variant's struct is hashed
    let f1 = f0.bind(inst(b, 0), Datum::Struct(fields));
    assert(run_phis(blocks[b as int].phis@, b, 0, f0, seed, arg, 0) == Some(f0));
    assert(op_result(mix, insts[0], b, 0, 0, f0, seed, arg) == Some(Datum::Struct(fields)));
    assert(operand(f1, seed, arg, inst(b, 0)) == Datum::Struct(fields));
    let inner = run_function(fns, mix, callee as int, seed, Datum::Struct(fields), (fuel - 3) as nat);
    match inner {
        None => {
            assert(run_insts(fns, mix, g as int, b, 1, 0, f1, seed, arg, (fuel - 2) as nat) is None);
            assert(run_insts(fns, mix, g as int, b, 0, 0, f0, seed, arg, (fuel - 2) as nat) is None);
        },
        Some(r) => {
            let f2 = f1.bind(inst(b, 1), Datum::Int(r));
            assert(run_insts(fns, mix, g as int, b, 2, 0, f2, seed, arg, (fuel - 2) as nat) == Some(f2));
            assert(run_insts(fns, mix, g as int, b, 1, 0, f1, seed, arg, (fuel - 2) as nat) == Some(f2));
            assert(run_insts(fns, mix, g as int, b, 0, 0, f0, seed, arg, (fuel - 2) as nat) == Some(f2));
            lemma_merge_returns(env, mix, g, b, f2, inst(b, 1), r, seed, arg, (fuel - 3) as nat);
        },
    }
    callee
}

/// A value of a union that lies behind a pointer that is not null, with one
/// variant and no tag id, is hashed as the struct of that variant's fields.
pub proof fn law_unwrapped_hashes_fields(
    env: &Env,
    ids: &LayoutIds,
    mix: Mixers,
    g: FunctionId,
    union_layout: UnionModel,
    seed: u64,
    fields: Seq<Datum>,
    fuel: nat,
) -> (callee: FunctionId)
    requires
        hashes(env, ids, g, LayoutModel::Union(union_layout)),
        union_layout is NullableUnwrapped || union_layout is NonNullableUnwrapped,
        fuel >= 3,
    ensures
        names(env, ids).proc_for(callee, LayoutModel::Struct(unwrapped_fields(union_layout))),
        run_function(
            env.functions(),
            mix,
            g as int,
            seed,
            Datum::Pointer(Box::new(Datum::Struct(fields))),
            fuel,
        ) == run_function(
            env.functions(),
            mix,
            callee as int,
            seed,
            Datum::Struct(fields),
            (fuel - unwrapped_cost(union_layout)) as nat,
        ),
{
    let fns = env.functions();
    let blocks = env.blocks(g as int);
    let pointee = Datum::Struct(fields);
    let arg = Datum::Pointer(Box::new(pointee));
    assert(proc_shape(names(env, ids), env.ptr_bytes, blocks, LayoutModel::Union(union_layout)));
    let incoming = blocks[1].phis@[0].incoming@;
    let e = Frame::empty();
    match union_layout {
        UnionModel::NullableUnwrapped { other_fields, .. } => {
            assert(null_test(blocks[0]));
            assert(incoming[0] == (Value::Param(0), 2usize));
            assert(incoming[1] == (inst(3, 2), 3usize));
            assert(phi_source(incoming, 3, 1) == Some(inst(3, 2)));
            assert(phi_source(incoming, 3, 0) == Some(inst(3, 2)));
            let f0 = e.bind(inst(0, 0), Datum::Int(0));
            assert(run_phis(blocks[0].phis@, 0, -1, e, seed, arg, 0) == Some(e));
            assert(op_result(mix, blocks[0].insts@[0], 0, 0, -1, e, seed, arg) == Some(Datum::Int(0)));
            assert(run_insts(fns, mix, g as int, 0, 1, -1, f0, seed, arg, (fuel - 1) as nat) == Some(f0));
            assert(run_insts(fns, mix, g as int, 0, 0, -1, e, seed, arg, (fuel - 1) as nat) == Some(f0));
            assert(run_block(fns, mix, g as int, 0, -1, e, seed, arg, (fuel - 1) as nat) == run_block(
                fns,
                mix,
                g as int,
                3,
                0,
                f0,
                seed,
                arg,
                (fuel - 2) as nat,
            ));
            lemma_pointer_branch_runs(
                env,
                ids,
                mix,
                g,
                3,
                other_fields,
                0,
                f0,
                inst(3, 2),
                seed,
                pointee,
                fields,
                (fuel - 2) as nat,
            )
        },
        UnionModel::NonNullableUnwrapped(field_layouts) => {
            assert(incoming[0] == (inst(0, 2), 0usize));
            assert(phi_source(incoming, 0, 0) == Some(inst(0, 2)));
            lemma_pointer_branch_runs(
                env,
                ids,
                mix,
                g,
                0,
                field_layouts,
                -1,
                e,
                inst(0, 2),
                seed,
                pointee,
                fields,
                (fuel - 1) as nat,
            )
        },
        _ => 0,
    }
}

/// The fields that lie behind the pointer of a union with one variant and
/// no tag id.
pub open spec fn unwrapped_fields(union_layout: UnionModel) -> Seq<LayoutModel> {
    match union_layout {
        UnionModel::NullableUnwrapped { other_fields, .. } => other_fields,
        UnionModel::NonNullableUnwrapped(fields) => fields,
        _ => Seq::empty(),
    }
}

/// The jumps and calls it takes to reach the struct's procedure.
pub open spec fn unwrapped_cost(union_layout: UnionModel) -> int {
    if union_layout is NullableUnwrapped {
        3
    } else {
        2
    }
}

/// What a call instruction yields for (`seed`, `val`).
pub open spec fn call_value(
    fns: Seq<Function>,
    mix: Mixers,
    op: Op,
    seed: u64,
    val: Datum,
    fuel: nat,
) -> Option<u64> {
    match op {
        Op::Call { callee, .. } => if fuel == 0 {
            None
        } else {
            run_function(fns, mix, callee as int, seed, val, (fuel - 1) as nat)
        },
        _ => None,
    }
}

/// The seed that comes out when `val`, a value of `layout`, is hashed into
/// `seed` by the code at `p` of `insts`:
/// - for a number, what the byte mixer makes of the seed, the number's bit
///   pattern and its width;
/// - for a string, what the string mixer makes of the seed and the string;
/// - for an empty collection, the seed itself;
/// - for a struct, a union, a list or a recursive pointer, what the
///   procedure that the code calls returns.
pub open spec fn hash_value(
    fns: Seq<Function>,
    mix: Mixers,
    ptr_bytes: u32,
    insts: Seq<Op>,
    p: int,
    layout: LayoutModel,
    seed: u64,
    val: Datum,
    fuel: nat,
) -> Option<u64> {
    match layout {
        LayoutModel::Builtin(builtin) => if is_scalar(builtin) {
            match val {
                Datum::Bytes(bytes) => Some(
                    (mix.bytes)(seed, bytes, scalar_width(builtin, ptr_bytes) as u64),
                ),
                _ => None,
            }
        } else if builtin is Str {
            match val {
                Datum::Bytes(bytes) => Some((mix.string)(seed, bytes)),
                _ => None,
            }
        } else if builtin is List {
            call_value(fns, mix, insts[p], seed, val, fuel)
        } else {
            Some(seed)
        },
        LayoutModel::Struct(_) | LayoutModel::Union(_) => call_value(
            fns,
            mix,
            insts[p],
            seed,
            val,
            fuel,
        ),
        LayoutModel::RecursivePointer => call_value(fns, mix, insts[p + 1], seed, val, fuel),
        _ => Some(seed),
    }
}

/// Whether `v` was there before the instruction at `p` of block `b` ran.
pub open spec fn older(v: Value, b: BlockId, p: int) -> bool {
    match v {
        Value::Inst { block, index } => block != b || index < p,
        _ => true,
    }
}

/// Whether `later` holds what `frame` held before the instruction at `p` of
/// block `b` ran.
pub open spec fn frame_kept(frame: Frame, later: Frame, seed: u64, arg: Datum, b: BlockId, p: int) -> bool {
    &&& forall|v: Value| older(v, b, p) ==> #[trigger] operand(later, seed, arg, v) == operand(frame, seed, arg, v)
    &&& forall|sb: BlockId, si: int|
        (sb != b || si < p) ==> (#[trigger] later.slots.dom().contains((sb, si))
            == frame.slots.dom().contains((sb, si)) && later.slots[(sb, si)] == frame.slots[(sb, si)])
}

/// The code that hashes one value computes [`hash_value`]: where that is a
/// seed, the code runs through and its result holds that seed; where it is
/// none, the code does not run through.
pub proof fn law_code_computes_hash(
    env: &Env,
    ids: &LayoutIds,
    mix: Mixers,
    g: FunctionId,
    b: BlockId,
    p: int,
    layout: LayoutModel,
    ctx: Option<UnionModel>,
    seed_v: Value,
    val_v: Value,
    pred: int,
    frame: Frame,
    seed: u64,
    arg: Datum,
    s: u64,
    fuel: nat,
) -> (later: Frame)
    requires
        env.has_block(g as int, b as int),
        layout_code_at(
            names(env, ids),
            env.ptr_bytes,
            env.insts(g as int, b as int),
            b,
            p,
            layout,
            ctx,
            seed_v,
            val_v,
        ),
        older(seed_v, b, p),
        older(val_v, b, p),
        operand(frame, seed, arg, seed_v) == Datum::Int(s),
    ensures
        hash_value(
            env.functions(),
            mix,
            env.ptr_bytes,
            env.insts(g as int, b as int),
            p,
            layout,
            s,
            operand(frame, seed, arg, val_v),
            fuel,
        ) matches Some(r) ==> {
            &&& run_insts(env.functions(), mix, g as int, b, p, pred, frame, seed, arg, fuel)
                == run_insts(
                env.functions(),
                mix,
                g as int,
                b,
                p + code_len(layout),
                pred,
                later,
                seed,
                arg,
                fuel,
            )
            &&& operand(later, seed, arg, code_result(layout, b, p, seed_v)) == Datum::Int(r)
            &&& frame_kept(frame, later, seed, arg, b, p)
        },
        hash_value(
            env.functions(),
            mix,
            env.ptr_bytes,
            env.insts(g as int, b as int),
            p,
            layout,
            s,
            operand(frame, seed, arg, val_v),
            fuel,
        ) is None ==> run_insts(env.functions(), mix, g as int, b, p, pred, frame, seed, arg, fuel)
            is None,
{
    let fns = env.functions();
    let insts = env.insts(g as int, b as int);
    let val = operand(frame, seed, arg, val_v);
    assert(env.functions()[g as int].blocks@[b as int].insts.len() == insts.len());
    let h = hash_value(fns, mix, env.ptr_bytes, insts, p, layout, s, val, fuel);
    if code_len(layout) == 0 {
        return frame;
    }
    if layout is RecursivePointer {
        let f1 = frame.bind(inst(b, p), val);
        assert(op_result(mix, insts[p], b, p, pred, frame, seed, arg) == Some(val));
        assert(op_frame(insts[p], b, p, frame, seed, arg, val) == f1);
        assert(operand(f1, seed, arg, seed_v) == Datum::Int(s));
        assert(operand(f1, seed, arg, inst(b, p)) == val);
        match h {
            None => {
                assert(run_insts(fns, mix, g as int, b, p + 1, pred, f1, seed, arg, fuel) is None);
                return frame;
            },
            Some(r) => {
                let f2 = f1.bind(inst(b, p + 1), Datum::Int(r));
                assert(run_insts(fns, mix, g as int, b, p + 1, pred, f1, seed, arg, fuel) == run_insts(
                    fns,
                    mix,
                    g as int,
                    b,
                    p + 2,
                    pred,
                    f2,
                    seed,
                    arg,
                    fuel,
                ));
                return f2;
            },
        }
    }
    if code_len(layout) == 1 {
        match h {
            None => {
                return frame;
            },
            Some(r) => {
                let f1 = frame.bind(inst(b, p), Datum::Int(r));
                return f1;
            },
        }
    }
    let builtin = layout->Builtin_0;
    if builtin is Str {
        match val {
            Datum::Bytes(bytes) => {
                let f1 = frame.bind(inst(b, p), val);
                assert(op_result(mix, insts[p], b, p, pred, frame, seed, arg) == Some(val));
                assert(op_frame(insts[p], b, p, frame, seed, arg, val) == f1);
                assert(operand(f1, seed, arg, seed_v) == Datum::Int(s));
                assert(operand(f1, seed, arg, inst(b, p)) == val);
                let r = (mix.string)(s, bytes);
                let f2 = f1.bind(inst(b, p + 1), Datum::Int(r));
                assert(op_result(mix, insts[p + 1], b, p + 1, pred, f1, seed, arg) == Some(
                    Datum::Int(r),
                ));
                assert(op_frame(insts[p + 1], b, p + 1, f1, seed, arg, Datum::Int(r)) == f2);
                assert(run_insts(fns, mix, g as int, b, p + 1, pred, f1, seed, arg, fuel) == run_insts(
                    fns,
                    mix,
                    g as int,
                    b,
                    p + 2,
                    pred,
                    f2,
                    seed,
                    arg,
                    fuel,
                ));
                return f2;
            },
            _ => {
                assert(op_result(mix, insts[p], b, p, pred, frame, seed, arg) is None);
                return frame;
            },
        }
    }
    // a number
    let slot = Datum::Slot(b, p);
    let f1 = frame.bind(inst(b, p), slot);
    assert(op_result(mix, insts[p], b, p, pred, frame, seed, arg) == Some(slot));
    assert(op_frame(insts[p], b, p, frame, seed, arg, slot) == f1);
    assert(operand(f1, seed, arg, inst(b, p)) == slot);
    assert(operand(f1, seed, arg, val_v) == val);
    let f2 = f1.bind(inst(b, p + 1), Datum::Undefined).store((b, p), val);
    assert(op_result(mix, insts[p + 1], b, p + 1, pred, f1, seed, arg) == Some(Datum::Undefined));
    assert(op_frame(insts[p + 1], b, p + 1, f1, seed, arg, Datum::Undefined) == f2);
    assert(operand(f2, seed, arg, inst(b, p)) == slot);
    let f3 = f2.bind(inst(b, p + 2), slot);
    assert(op_result(mix, insts[p + 2], b, p + 2, pred, f2, seed, arg) == Some(slot));
    assert(op_frame(insts[p + 2], b, p + 2, f2, seed, arg, slot) == f3);
    assert(operand(f3, seed, arg, inst(b, p + 2)) == slot);
    assert(operand(f3, seed, arg, seed_v) == Datum::Int(s));
    assert(f3.slots.dom().contains((b, p)) && f3.slots[(b, p)] == val);
    assert(run_insts(fns, mix, g as int, b, p, pred, frame, seed, arg, fuel) == run_insts(
        fns,
        mix,
        g as int,
        b,
        p + 3,
        pred,
        f3,
        seed,
        arg,
        fuel,
    )) by {
        assert(run_insts(fns, mix, g as int, b, p + 2, pred, f2, seed, arg, fuel) == run_insts(
            fns,
            mix,
            g as int,
            b,
            p + 3,
            pred,
            f3,
            seed,
            arg,
            fuel,
        ));
        assert(run_insts(fns, mix, g as int, b, p + 1, pred, f1, seed, arg, fuel) == run_insts(
            fns,
            mix,
            g as int,
            b,
            p + 2,
            pred,
            f2,
            seed,
            arg,
            fuel,
        ));
    }
    match val {
        Datum::Bytes(bytes) => {
            let r = (mix.bytes)(s, bytes, scalar_width(builtin, env.ptr_bytes) as u64);
            let f4 = f3.bind(inst(b, p + 3), Datum::Int(r));
            assert(op_result(mix, insts[p + 3], b, p + 3, pred, f3, seed, arg) == Some(Datum::Int(r)));
            assert(op_frame(insts[p + 3], b, p + 3, f3, seed, arg, Datum::Int(r)) == f4);
            assert(run_insts(fns, mix, g as int, b, p + 3, pred, f3, seed, arg, fuel) == run_insts(
                fns,
                mix,
                g as int,
                b,
                p + 4,
                pred,
                f4,
                seed,
                arg,
                fuel,
            ));
            f4
        },
        _ => {
            assert(op_result(mix, insts[p + 3], b, p + 3, pred, f3, seed, arg) is None);
            frame
        },
    }
}

/// The seed that comes out when the fields from position `from` on of a
/// struct are hashed into `seed` one after the other, in the order in which
/// the struct declares them: each field is hashed into the seed that the
/// field before it left.
pub open spec fn fold_fields(
    fns: Seq<Function>,
    mix: Mixers,
    ptr_bytes: u32,
    insts: Seq<Op>,
    fields: Seq<LayoutModel>,
    vals: Seq<Datum>,
    from: int,
    seed: u64,
    fuel: nat,
) -> Option<u64>
    decreases fields.len() - from,
{
    if from < 0 || from >= fields.len() {
        Some(seed)
    } else {
        match hash_value(
            fns,
            mix,
            ptr_bytes,
            insts,
            fields_code_len(fields, from) + 1,
            fields[from],
            seed,
            vals[from],
            fuel,
        ) {
            None => None,
            Some(r) => fold_fields(fns, mix, ptr_bytes, insts, fields, vals, from + 1, r, fuel),
        }
    }
}

/// What a block returns once its instructions ran.
pub open spec fn returned(done: Option<Frame>, seed: u64, arg: Datum, v: Value) -> Option<u64> {
    match done {
        None => None,
        Some(frame) => match operand(frame, seed, arg, v) {
            Datum::Int(x) => Some(x),
            _ => None,
        },
    }
}

/// The code for the first `n` fields holds the code for the first `i + 1`.
pub(crate) proof fn lemma_fields_code_nth(
    names: crate::shape::Names,
    ptr_bytes: u32,
    insts: Seq<Op>,
    b: BlockId,
    fields: Seq<LayoutModel>,
    ctx: Option<UnionModel>,
    n: int,
    i: int,
)
    requires
        fields_code_at(names, ptr_bytes, insts, b, fields, ctx, n),
        0 <= i < n,
    ensures
        fields_code_at(names, ptr_bytes, insts, b, fields, ctx, i + 1),
    decreases n,
{
    if i + 1 < n {
        lemma_fields_code_nth(names, ptr_bytes, insts, b, fields, ctx, n - 1, i);
    }
}

pub(crate) proof fn lemma_fields_code_len_mono(fields: Seq<LayoutModel>, i: int, n: int)
    requires
        0 <= i <= n,
    ensures
        0 <= fields_code_len(fields, i) <= fields_code_len(fields, n),
    decreases n,
{
    if i < n {
        lemma_fields_code_len_mono(fields, i, n - 1);
    } else {
        crate::lemmas::lemma_fields_code_len_nonneg(fields, i);
    }
}

proof fn lemma_fields_seed_older(fields: Seq<LayoutModel>, b: BlockId, i: int, n: int)
    requires
        0 <= i <= n,
        fields_code_len(fields, n) <= usize::MAX,
    ensures
        older(fields_seed(fields, b, i), b, fields_code_len(fields, i)),
    decreases i,
{
    if i > 0 {
        lemma_fields_seed_older(fields, b, i - 1, n);
        lemma_fields_code_len_mono(fields, i, n);
        lemma_fields_code_len_mono(fields, i - 1, i);
    }
}

proof fn lemma_fields_run(
    env: &Env,
    ids: &LayoutIds,
    mix: Mixers,
    g: FunctionId,
    fields: Seq<LayoutModel>,
    vals: Seq<Datum>,
    i: int,
    frame: Frame,
    seed: u64,
    s: u64,
    fuel: nat,
)
    requires
        env.has_block(g as int, 0),
        env.insts(g as int, 0).len() == fields_code_len(fields, fields.len() as int),
        fields_code_at(
            names(env, ids),
            env.ptr_bytes,
            env.insts(g as int, 0),
            0,
            fields,
            None,
            fields.len() as int,
        ),
        vals.len() == fields.len(),
        fields.len() <= u32::MAX,
        0 <= i <= fields.len(),
        operand(frame, seed, Datum::Struct(vals), fields_seed(fields, 0, i)) == Datum::Int(s),
    ensures
        returned(
            run_insts(
                env.functions(),
                mix,
                g as int,
                0,
                fields_code_len(fields, i),
                -1,
                frame,
                seed,
                Datum::Struct(vals),
                fuel,
            ),
            seed,
            Datum::Struct(vals),
            fields_seed(fields, 0, fields.len() as int),
        ) == fold_fields(
            env.functions(),
            mix,
            env.ptr_bytes,
            env.insts(g as int, 0),
            fields,
            vals,
            i,
            s,
            fuel,
        ),
    decreases fields.len() - i,
{
    let fns = env.functions();
    let insts = env.insts(g as int, 0);
    let n = fields.len() as int;
    let arg = Datum::Struct(vals);
    let off = fields_code_len(fields, i);
    assert(env.functions()[g as int].blocks@[0].insts.len() == insts.len());
    lemma_fields_code_len_mono(fields, i, n);
    if i < n {
        lemma_fields_code_nth(names(env, ids), env.ptr_bytes, insts, 0, fields, None, n, i);
        lemma_fields_seed_older(fields, 0, i, n);
        lemma_fields_code_len_mono(fields, i + 1, n);
        let seed_v = fields_seed(fields, 0, i);
        let f1 = frame.bind(inst(0, off), vals[i]);
        assert(insts[off] == Op::ExtractValue(Value::Param(1), i as u32));
        assert(op_result(mix, insts[off], 0, off, -1, frame, seed, arg) == Some(vals[i]));
        assert(op_frame(insts[off], 0, off, frame, seed, arg, vals[i]) == f1);
        assert(operand(f1, seed, arg, seed_v) == Datum::Int(s));
        assert(operand(f1, seed, arg, inst(0, off)) == vals[i]);
        assert(run_insts(fns, mix, g as int, 0, off, -1, frame, seed, arg, fuel) == run_insts(
            fns,
            mix,
            g as int,
            0,
            off + 1,
            -1,
            f1,
            seed,
            arg,
            fuel,
        ));
        let later = law_code_computes_hash(
            env,
            ids,
            mix,
            g,
            0,
            off + 1,
            fields[i],
            None,
            seed_v,
            inst(0, off),
            -1,
            f1,
            seed,
            arg,
            s,
            fuel,
        );
        match hash_value(fns, mix, env.ptr_bytes, insts, off + 1, fields[i], s, vals[i], fuel) {
            None => {},
            Some(r) => {
                lemma_fields_run(env, ids, mix, g, fields, vals, i + 1, later, seed, r, fuel);
            },
        }
    }
}

/// The hash procedure of a struct folds the seed over the fields in the
/// order in which the struct declares them: what it returns is
/// [`fold_fields`] from the first field on.
pub proof fn law_struct_folds_fields(
    env: &Env,
    ids: &LayoutIds,
    mix: Mixers,
    g: FunctionId,
    fields: Seq<LayoutModel>,
    seed: u64,
    vals: Seq<Datum>,
    fuel: nat,
)
    requires
        hashes(env, ids, g, LayoutModel::Struct(fields)),
        vals.len() == fields.len(),
        fields.len() <= u32::MAX,
        fuel >= 1,
    ensures
        run_function(env.functions(), mix, g as int, seed, Datum::Struct(vals), fuel) == fold_fields(
            env.functions(),
            mix,
            env.ptr_bytes,
            env.insts(g as int, 0),
            fields,
            vals,
            0,
            seed,
            (fuel - 1) as nat,
        ),
{
    let blocks = env.blocks(g as int);
    let arg = Datum::Struct(vals);
    assert(proc_shape(names(env, ids), env.ptr_bytes, blocks, LayoutModel::Struct(fields)));
    let e = Frame::empty();
    assert(run_phis(blocks[0].phis@, 0, -1, e, seed, arg, 0) == Some(e));
    lemma_fields_run(env, ids, mix, g, fields, vals, 0, e, seed, seed, (fuel - 1) as nat);
}

/// The seed that comes out when the elements from position `from` on of a
/// list are hashed into `seed` one after the other, in index order: each
/// element is hashed into the seed that the element before it left. Every
/// round of the loop has one jump less left than the round before it.
pub open spec fn fold_elements(
    fns: Seq<Function>,
    mix: Mixers,
    ptr_bytes: u32,
    insts: Seq<Op>,
    element: LayoutModel,
    elements: Seq<Datum>,
    from: int,
    seed: u64,
    fuel: nat,
) -> Option<u64>
    decreases elements.len() - from,
{
    if from < 0 || from >= elements.len() {
        Some(seed)
    } else {
        match hash_value(fns, mix, ptr_bytes, insts, 3, element, seed, elements[from], fuel) {
            None => None,
            Some(r) => fold_elements(
                fns,
                mix,
                ptr_bytes,
                insts,
                element,
                elements,
                from + 1,
                r,
                (fuel - 1) as nat,
            ),
        }
    }
}

/// What holds of the frame of a list's hash procedure when round `k` of
/// the loop begins: the length, the element pointer and the slot are where
/// the entry block put them, the slot holds the seed so far, and the index
/// is that of the round before.
spec fn round_ready(
    frame: Frame,
    seed: u64,
    elements: Seq<Datum>,
    k: int,
    pred: int,
    s: u64,
) -> bool {
    let arg = Datum::List(elements);
    &&& operand(frame, seed, arg, inst(0, 0)) == Datum::Int(elements.len() as u64)
    &&& operand(frame, seed, arg, inst(0, 1)) == Datum::Elements(elements)
    &&& operand(frame, seed, arg, inst(0, 2)) == Datum::Slot(0, 2)
    &&& frame.slots.dom().contains((0usize, 2int))
    &&& frame.slots[(0usize, 2int)] == Datum::Int(s)
    &&& if k == 0 {
        pred == 2
    } else {
        pred == 3 && operand(frame, seed, arg, inst(3, 0)) == Datum::Int((k - 1) as u64)
    }
}

proof fn lemma_elements_run(
    env: &Env,
    ids: &LayoutIds,
    mix: Mixers,
    g: FunctionId,
    element: LayoutModel,
    elements: Seq<Datum>,
    k: int,
    pred: int,
    frame: Frame,
    seed: u64,
    s: u64,
    fuel: nat,
)
    requires
        env.has_function(g as int),
        crate::shape::list_proc(names(env, ids), env.ptr_bytes, env.blocks(g as int), element, None),
        0 <= k < elements.len() <= u64::MAX,
        round_ready(frame, seed, elements, k, pred, s),
        fuel >= elements.len() - k + 1,
    ensures
        run_block(env.functions(), mix, g as int, 3, pred, frame, seed, Datum::List(elements), fuel)
            == fold_elements(
            env.functions(),
            mix,
            env.ptr_bytes,
            env.insts(g as int, 3),
            element,
            elements,
            k,
            s,
            fuel,
        ),
    decreases elements.len() - k,
{
    let fns = env.functions();
    let blocks = env.blocks(g as int);
    let insts = env.insts(g as int, 3);
    let arg = Datum::List(elements);
    let n = elements.len() as int;
    let len = code_len(element);
    assert(run_phis(blocks[3].phis@, 3, pred, frame, seed, arg, 0) == Some(frame));
    let f1 = frame.bind(inst(3, 0), Datum::Int(k as u64));
    assert(op_result(mix, insts[0], 3, 0, pred, frame, seed, arg) == Some(Datum::Int(k as u64)));
    assert(op_frame(insts[0], 3, 0, frame, seed, arg, Datum::Int(k as u64)) == f1);
    assert(operand(f1, seed, arg, inst(3, 0)) == Datum::Int(k as u64));
    let f2 = f1.bind(inst(3, 1), elements[k]);
    assert(op_result(mix, insts[1], 3, 1, pred, f1, seed, arg) == Some(elements[k]));
    assert(op_frame(insts[1], 3, 1, f1, seed, arg, elements[k]) == f2);
    let f3 = f2.bind(inst(3, 2), Datum::Int(s));
    assert(operand(f2, seed, arg, inst(0, 2)) == Datum::Slot(0, 2));
    assert(op_result(mix, insts[2], 3, 2, pred, f2, seed, arg) == Some(Datum::Int(s)));
    assert(op_frame(insts[2], 3, 2, f2, seed, arg, Datum::Int(s)) == f3);
    assert(operand(f3, seed, arg, inst(3, 2)) == Datum::Int(s));
    assert(operand(f3, seed, arg, inst(3, 1)) == elements[k]);
    assert(run_insts(fns, mix, g as int, 3, 0, pred, frame, seed, arg, fuel) == run_insts(
        fns,
        mix,
        g as int,
        3,
        3,
        pred,
        f3,
        seed,
        arg,
        fuel,
    )) by {
        assert(run_insts(fns, mix, g as int, 3, 2, pred, f2, seed, arg, fuel) == run_insts(
            fns,
            mix,
            g as int,
            3,
            3,
            pred,
            f3,
            seed,
            arg,
            fuel,
        ));
        assert(run_insts(fns, mix, g as int, 3, 1, pred, f1, seed, arg, fuel) == run_insts(
            fns,
            mix,
            g as int,
            3,
            2,
            pred,
            f2,
            seed,
            arg,
            fuel,
        ));
    }
    let later = law_code_computes_hash(
        env,
        ids,
        mix,
        g,
        3,
        3,
        element,
        None,
        inst(3, 2),
        inst(3, 1),
        pred,
        f3,
        seed,
        arg,
        s,
        fuel,
    );
    match hash_value(fns, mix, env.ptr_bytes, insts, 3, element, s, elements[k], fuel) {
        None => {},
        Some(r) => {
            let out = code_result(element, 3, 3, inst(3, 2));
            let f5 = later.bind(inst(3, 3 + len), Datum::Undefined).store((0, 2), Datum::Int(r));
            assert(operand(later, seed, arg, inst(0, 2)) == operand(f3, seed, arg, inst(0, 2)));
            assert(operand(later, seed, arg, inst(0, 0)) == operand(f3, seed, arg, inst(0, 0)));
            assert(operand(later, seed, arg, inst(0, 1)) == operand(f3, seed, arg, inst(0, 1)));
            assert(operand(later, seed, arg, inst(3, 0)) == operand(f3, seed, arg, inst(3, 0)));
            assert(op_result(mix, insts[3 + len], 3, 3 + len, pred, later, seed, arg) == Some(
                Datum::Undefined,
            ));
            assert(op_frame(insts[3 + len], 3, 3 + len, later, seed, arg, Datum::Undefined) == f5);
            assert(run_insts(fns, mix, g as int, 3, 4 + len, pred, f5, seed, arg, fuel) == Some(f5));
            assert(run_insts(fns, mix, g as int, 3, 3 + len, pred, later, seed, arg, fuel) == Some(f5));
            assert(run_insts(fns, mix, g as int, 3, 0, pred, frame, seed, arg, fuel) == Some(f5));
            assert(operand(f5, seed, arg, inst(3, 0)) == Datum::Int(k as u64));
            assert(operand(f5, seed, arg, inst(0, 0)) == Datum::Int(n as u64));
            assert(operand(f5, seed, arg, inst(0, 2)) == Datum::Slot(0, 2));
            if k + 1 < n {
                assert(round_ready(f5, seed, elements, k + 1, 3, r));
                lemma_elements_run(
                    env,
                    ids,
                    mix,
                    g,
                    element,
                    elements,
                    k + 1,
                    3,
                    f5,
                    seed,
                    r,
                    (fuel - 1) as nat,
                );
                assert(run_block(fns, mix, g as int, 3, pred, frame, seed, arg, fuel) == run_block(
                    fns,
                    mix,
                    g as int,
                    3,
                    3,
                    f5,
                    seed,
                    arg,
                    (fuel - 1) as nat,
                ));
            } else {
                // the block after the loop, then the end
                assert(run_phis(blocks[4].phis@, 4, 3, f5, seed, arg, 0) == Some(f5));
                assert(run_insts(fns, mix, g as int, 4, 0, 3, f5, seed, arg, (fuel - 1) as nat) == Some(
                    f5,
                ));
                assert(run_phis(blocks[1].phis@, 1, 4, f5, seed, arg, 0) == Some(f5));
                let f6 = f5.bind(inst(1, 0), Datum::Int(r));
                assert(op_result(mix, blocks[1].insts@[0], 1, 0, 4, f5, seed, arg) == Some(Datum::Int(r)));
                assert(run_insts(fns, mix, g as int, 1, 1, 4, f6, seed, arg, (fuel - 2) as nat) == Some(
                    f6,
                ));
                assert(run_insts(fns, mix, g as int, 1, 0, 4, f5, seed, arg, (fuel - 2) as nat) == Some(
                    f6,
                ));
                assert(run_block(fns, mix, g as int, 1, 4, f5, seed, arg, (fuel - 2) as nat) == Some(r));
                assert(run_block(fns, mix, g as int, 4, 3, f5, seed, arg, (fuel - 1) as nat) == Some(r));
                assert(run_block(fns, mix, g as int, 3, pred, frame, seed, arg, fuel) == Some(r));
                assert(fold_elements(
                    fns,
                    mix,
                    env.ptr_bytes,
                    insts,
                    element,
                    elements,
                    k + 1,
                    r,
                    (fuel - 1) as nat,
                ) == Some(r));
            }
        },
    }
}

/// The hash procedure of a list folds the seed over the elements in index
/// order: what it returns is [`fold_elements`] from the first element on.
/// For a list without elements that is the seed it was given.
pub proof fn law_list_folds_elements(
    env: &Env,
    ids: &LayoutIds,
    mix: Mixers,
    g: FunctionId,
    element: LayoutModel,
    seed: u64,
    elements: Seq<Datum>,
    fuel: nat,
)
    requires
        hashes(env, ids, g, LayoutModel::Builtin(BuiltinModel::List(Box::new(element)))),
        elements.len() <= u64::MAX,
        fuel >= elements.len() + 4,
    ensures
        run_function(env.functions(), mix, g as int, seed, Datum::List(elements), fuel)
            == fold_elements(
            env.functions(),
            mix,
            env.ptr_bytes,
            env.insts(g as int, 3),
            element,
            elements,
            0,
            seed,
            (fuel - 3) as nat,
        ),
        elements.len() == 0 ==> run_function(
            env.functions(),
            mix,
            g as int,
            seed,
            Datum::List(elements),
            fuel,
        ) == Some(seed),
{
    let fns = env.functions();
    let blocks = env.blocks(g as int);
    let arg = Datum::List(elements);
    let n = elements.len();
    assert(proc_shape(
        names(env, ids),
        env.ptr_bytes,
        blocks,
        LayoutModel::Builtin(BuiltinModel::List(Box::new(element))),
    ));
    let insts = blocks[0].insts@;
    let e = Frame::empty();
    let fuel0 = (fuel - 1) as nat;
    assert(run_phis(blocks[0].phis@, 0, -1, e, seed, arg, 0) == Some(e));
    let f1 = e.bind(inst(0, 0), Datum::Int(n as u64));
    assert(op_result(mix, insts[0], 0, 0, -1, e, seed, arg) == Some(Datum::Int(n as u64)));
    assert(op_frame(insts[0], 0, 0, e, seed, arg, Datum::Int(n as u64)) == f1);
    let f2 = f1.bind(inst(0, 1), Datum::Elements(elements));
    assert(op_result(mix, insts[1], 0, 1, -1, f1, seed, arg) == Some(Datum::Elements(elements)));
    assert(op_frame(insts[1], 0, 1, f1, seed, arg, Datum::Elements(elements)) == f2);
    let f3 = f2.bind(inst(0, 2), Datum::Slot(0, 2));
    assert(op_result(mix, insts[2], 0, 2, -1, f2, seed, arg) == Some(Datum::Slot(0, 2)));
    assert(op_frame(insts[2], 0, 2, f2, seed, arg, Datum::Slot(0, 2)) == f3);
    assert(operand(f3, seed, arg, inst(0, 2)) == Datum::Slot(0, 2));
    let f4 = f3.bind(inst(0, 3), Datum::Undefined).store((0, 2), Datum::Int(seed));
    assert(op_result(mix, insts[3], 0, 3, -1, f3, seed, arg) == Some(Datum::Undefined));
    assert(op_frame(insts[3], 0, 3, f3, seed, arg, Datum::Undefined) == f4);
    assert(operand(f4, seed, arg, inst(0, 0)) == Datum::Int(n as u64));
    let empty: u64 = if n == 0 {
        1
    } else {
        0
    };
    let f5 = f4.bind(inst(0, 4), Datum::Int(empty));
    assert(op_result(mix, insts[4], 0, 4, -1, f4, seed, arg) == Some(Datum::Int(empty)));
    assert(op_frame(insts[4], 0, 4, f4, seed, arg, Datum::Int(empty)) == f5);
    assert(run_insts(fns, mix, g as int, 0, 5, -1, f5, seed, arg, fuel0) == Some(f5));
    assert(run_insts(fns, mix, g as int, 0, 4, -1, f4, seed, arg, fuel0) == Some(f5));
    assert(run_insts(fns, mix, g as int, 0, 3, -1, f3, seed, arg, fuel0) == Some(f5));
    assert(run_insts(fns, mix, g as int, 0, 2, -1, f2, seed, arg, fuel0) == Some(f5));
    assert(run_insts(fns, mix, g as int, 0, 1, -1, f1, seed, arg, fuel0) == Some(f5));
    assert(run_insts(fns, mix, g as int, 0, 0, -1, e, seed, arg, fuel0) == Some(f5));
    assert(operand(f5, seed, arg, inst(0, 4)) == Datum::Int(empty));
    assert(operand(f5, seed, arg, inst(0, 2)) == Datum::Slot(0, 2));
    if n == 0 {
        assert(run_phis(blocks[1].phis@, 1, 0, f5, seed, arg, 0) == Some(f5));
        let f6 = f5.bind(inst(1, 0), Datum::Int(seed));
        assert(op_result(mix, blocks[1].insts@[0], 1, 0, 0, f5, seed, arg) == Some(Datum::Int(seed)));
        assert(run_insts(fns, mix, g as int, 1, 1, 0, f6, seed, arg, (fuel - 2) as nat) == Some(f6));
        assert(run_insts(fns, mix, g as int, 1, 0, 0, f5, seed, arg, (fuel - 2) as nat) == Some(f6));
        assert(run_block(fns, mix, g as int, 1, 0, f5, seed, arg, (fuel - 2) as nat) == Some(seed));
        assert(run_block(fns, mix, g as int, 0, -1, e, seed, arg, fuel0) == Some(seed));
    } else {
        assert(run_phis(blocks[2].phis@, 2, 0, f5, seed, arg, 0) == Some(f5));
        assert(run_insts(fns, mix, g as int, 2, 0, 0, f5, seed, arg, (fuel - 2) as nat) == Some(f5));
        assert(round_ready(f5, seed, elements, 0, 2, seed));
        lemma_elements_run(
            env,
            ids,
            mix,
            g,
            element,
            elements,
            0,
            2,
            f5,
            seed,
            seed,
            (fuel - 3) as nat,
        );
        assert(run_block(fns, mix, g as int, 2, 0, f5, seed, arg, (fuel - 2) as nat) == run_block(
            fns,
            mix,
            g as int,
            3,
            2,
            f5,
            seed,
            arg,
            (fuel - 3) as nat,
        ));
        assert(run_block(fns, mix, g as int, 0, -1, e, seed, arg, fuel0) == run_block(
            fns,
            mix,
            g as int,
            2,
            0,
            f5,
            seed,
            arg,
            (fuel - 2) as nat,
        ));
    }
}

/// More fuel does not change what a run of instructions yields.
proof fn lemma_more_fuel_insts(
    fns: Seq<Function>,
    mix: Mixers,
    g: int,
    b: BlockId,
    pc: int,
    pred: int,
    frame: Frame,
    seed: u64,
    arg: Datum,
    fuel: nat,
    more: nat,
)
    requires
        fuel <= more,
        run_insts(fns, mix, g, b, pc, pred, frame, seed, arg, fuel) is Some,
    ensures
        run_insts(fns, mix, g, b, pc, pred, frame, seed, arg, more) == run_insts(
            fns,
            mix,
            g,
            b,
            pc,
            pred,
            frame,
            seed,
            arg,
            fuel,
        ),
    decreases fuel, 1int, fns[g].blocks@[b as int].insts@.len() - pc,
{
    let insts = fns[g].blocks@[b as int].insts@;
    if 0 <= pc < insts.len() {
        match insts[pc] {
            Op::Call { callee, seed: s, value } => {
                let x = operand(frame, seed, arg, s)->Int_0;
                let v = operand(frame, seed, arg, value);
                lemma_more_fuel_function(
                    fns,
                    mix,
                    callee as int,
                    x,
                    v,
                    (fuel - 1) as nat,
                    (more - 1) as nat,
                );
                let r = run_function(fns, mix, callee as int, x, v, (fuel - 1) as nat)->0;
                lemma_more_fuel_insts(
                    fns,
                    mix,
                    g,
                    b,
                    pc + 1,
                    pred,
                    frame.bind(Value::Inst { block: b, index: pc as usize }, Datum::Int(r)),
                    seed,
                    arg,
                    fuel,
                    more,
                );
            },
            op => {
                let d = op_result(mix, op, b, pc, pred, frame, seed, arg)->0;
                lemma_more_fuel_insts(
                    fns,
                    mix,
                    g,
                    b,
                    pc + 1,
                    pred,
                    op_frame(op, b, pc, frame, seed, arg, d),
                    seed,
                    arg,
                    fuel,
                    more,
                );
            },
        }
    }
}

/// More fuel does not change what a block returns.
proof fn lemma_more_fuel_block(
    fns: Seq<Function>,
    mix: Mixers,
    g: int,
    b: BlockId,
    pred: int,
    frame: Frame,
    seed: u64,
    arg: Datum,
    fuel: nat,
    more: nat,
)
    requires
        fuel <= more,
        run_block(fns, mix, g, b, pred, frame, seed, arg, fuel) is Some,
    ensures
        run_block(fns, mix, g, b, pred, frame, seed, arg, more) == run_block(
            fns,
            mix,
            g,
            b,
            pred,
            frame,
            seed,
            arg,
            fuel,
        ),
    decreases fuel, 2int, 0int,
{
    let block = fns[g].blocks@[b as int];
    let entered = run_phis(block.phis@, b, pred, frame, seed, arg, block.phis@.len() as int)->0;
    lemma_more_fuel_insts(fns, mix, g, b, 0, pred, entered, seed, arg, fuel, more);
    let done = run_insts(fns, mix, g, b, 0, pred, entered, seed, arg, fuel)->0;
    match block.terminator {
        Some(Terminator::Branch(target)) => {
            lemma_more_fuel_block(
                fns,
                mix,
                g,
                target,
                b as int,
                done,
                seed,
                arg,
                (fuel - 1) as nat,
                (more - 1) as nat,
            );
        },
        Some(Terminator::ConditionalBranch { condition, then_block, else_block }) => {
            let c = operand(done, seed, arg, condition)->Int_0;
            lemma_more_fuel_block(
                fns,
                mix,
                g,
                if c != 0 {
                    then_block
                } else {
                    else_block
                },
                b as int,
                done,
                seed,
                arg,
                (fuel - 1) as nat,
                (more - 1) as nat,
            );
        },
        Some(Terminator::Switch { value, default, cases }) => {
            let v = operand(done, seed, arg, value)->Int_0;
            lemma_more_fuel_block(
                fns,
                mix,
                g,
                switch_target(cases@, v, default, 0),
                b as int,
                done,
                seed,
                arg,
                (fuel - 1) as nat,
                (more - 1) as nat,
            );
        },
        Some(Terminator::ElemLoopBack { index, length, body, after }) => {
            let i = operand(done, seed, arg, index)->Int_0;
            let n = operand(done, seed, arg, length)->Int_0;
            lemma_more_fuel_block(
                fns,
                mix,
                g,
                if i + 1 < n {
                    body
                } else {
                    after
                },
                b as int,
                done,
                seed,
                arg,
                (fuel - 1) as nat,
                (more - 1) as nat,
            );
        },
        _ => {},
    }
}

/// More fuel does not change what a procedure returns.
proof fn lemma_more_fuel_function(
    fns: Seq<Function>,
    mix: Mixers,
    g: int,
    seed: u64,
    arg: Datum,
    fuel: nat,
    more: nat,
)
    requires
        fuel <= more,
        run_function(fns, mix, g, seed, arg, fuel) is Some,
    ensures
        run_function(fns, mix, g, seed, arg, more) == run_function(fns, mix, g, seed, arg, fuel),
    decreases fuel, 3int, 0int,
{
    lemma_more_fuel_block(
        fns,
        mix,
        g,
        0,
        -1,
        Frame::empty(),
        seed,
        arg,
        (fuel - 1) as nat,
        (more - 1) as nat,
    );
}

/// A procedure returns one seed for a seed and a value: however many calls
/// and jumps two runs are allowed, if both return, they return the same.
pub proof fn law_one_result(
    env: &Env,
    mix: Mixers,
    g: FunctionId,
    seed: u64,
    arg: Datum,
    fuel: nat,
    other_fuel: nat,
)
    requires
        run_function(env.functions(), mix, g as int, seed, arg, fuel) is Some,
        run_function(env.functions(), mix, g as int, seed, arg, other_fuel) is Some,
    ensures
        run_function(env.functions(), mix, g as int, seed, arg, fuel) == run_function(
            env.functions(),
            mix,
            g as int,
            seed,
            arg,
            other_fuel,
        ),
{
    if fuel <= other_fuel {
        lemma_more_fuel_function(env.functions(), mix, g as int, seed, arg, fuel, other_fuel);
    } else {
        lemma_more_fuel_function(env.functions(), mix, g as int, seed, arg, other_fuel, fuel);
    }
}

/// Two numbers of the same bit pattern and the same width hash alike under
/// every seed, whatever kinds of number their layouts name.
pub proof fn law_same_bits_same_hash(
    fns: Seq<Function>,
    mix: Mixers,
    ptr_bytes: u32,
    insts: Seq<Op>,
    p: int,
    other_insts: Seq<Op>,
    q: int,
    builtin: BuiltinModel,
    other: BuiltinModel,
    seed: u64,
    bytes: Seq<u8>,
    fuel: nat,
)
    requires
        is_scalar(builtin),
        is_scalar(other),
        scalar_width(builtin, ptr_bytes) == scalar_width(other, ptr_bytes),
    ensures
        hash_value(
            fns,
            mix,
            ptr_bytes,
            insts,
            p,
            LayoutModel::Builtin(builtin),
            seed,
            Datum::Bytes(bytes),
            fuel,
        ) == hash_value(
            fns,
            mix,
            ptr_bytes,
            other_insts,
            q,
            LayoutModel::Builtin(other),
            seed,
            Datum::Bytes(bytes),
            fuel,
        ),
{
}

/// Hashing a value of an empty-collection layout leaves the seed as it is:
/// no instruction is emitted for it, the seed that went in is the seed that
/// comes out, and so it is for every empty collection alike.
pub proof fn law_empty_collection_leaves_seed(
    fns: Seq<Function>,
    mix: Mixers,
    ptr_bytes: u32,
    insts: Seq<Op>,
    b: BlockId,
    p: int,
    builtin: BuiltinModel,
    seed_v: Value,
    seed: u64,
    val: Datum,
    fuel: nat,
)
    requires
        is_empty_collection(builtin),
    ensures
        code_len(LayoutModel::Builtin(builtin)) == 0,
        code_result(LayoutModel::Builtin(builtin), b, p, seed_v) == seed_v,
        hash_value(fns, mix, ptr_bytes, insts, p, LayoutModel::Builtin(builtin), seed, val, fuel)
            == Some(seed),
{
}

/// Hashing a list without elements leaves the seed as it is, as hashing an
/// empty collection does, whatever the layout of the elements.
pub proof fn law_empty_list_leaves_seed(
    env: &Env,
    ids: &LayoutIds,
    mix: Mixers,
    g: FunctionId,
    element: LayoutModel,
    seed: u64,
    fuel: nat,
)
    requires
        hashes(env, ids, g, LayoutModel::Builtin(BuiltinModel::List(Box::new(element)))),
        fuel >= 4,
    ensures
        run_function(env.functions(), mix, g as int, seed, Datum::List(Seq::empty()), fuel) == Some(
            seed,
        ),
{
    law_list_folds_elements(env, ids, mix, g, element, seed, Seq::empty(), fuel);
}

/// A block that reads the tag id behind the pointer and branches on it goes
/// to the block of the variant that the tag id names.
proof fn lemma_pointer_tag_switch_runs(
    env: &Env,
    mix: Mixers,
    g: FunctionId,
    b: BlockId,
    first: int,
    n: int,
    pred: int,
    frame: Frame,
    seed: u64,
    tag: u64,
    fields: Seq<Datum>,
    fuel: nat,
) -> (entered: Frame)
    requires
        env.has_block(g as int, b as int),
        pointer_tag_switch(env.block(g as int, b as int), b, first, n),
        0 <= first,
        first + n <= usize::MAX,
        tag < n,
        fuel >= 1,
    ensures
        run_block(
            env.functions(),
            mix,
            g as int,
            b,
            pred,
            frame,
            seed,
            Datum::Pointer(Box::new(Datum::Tagged(tag, fields))),
            fuel,
        ) == run_block(
            env.functions(),
            mix,
            g as int,
            (first + tag) as usize,
            b as int,
            entered,
            seed,
            Datum::Pointer(Box::new(Datum::Tagged(tag, fields))),
            (fuel - 1) as nat,
        ),
{
    let fns = env.functions();
    let block = env.block(g as int, b as int);
    let insts = block.insts@;
    let arg = Datum::Pointer(Box::new(Datum::Tagged(tag, fields)));
    let cases = block.terminator->0->Switch_cases@;
    let default = block.terminator->0->Switch_default;
    lemma_switch_target(cases, default, first, n, tag, 0);
    let f1 = frame.bind(inst(b, 0), Datum::TagIdPointer(Box::new(arg)));
    let f2 = f1.bind(inst(b, 1), Datum::Int(tag));
    assert(run_phis(block.phis@, b, pred, frame, seed, arg, 0) == Some(frame));
    assert(op_result(mix, insts[0], b, 0, pred, frame, seed, arg) == Some(
        Datum::TagIdPointer(Box::new(arg)),
    ));
    assert(op_frame(insts[0], b, 0, frame, seed, arg, Datum::TagIdPointer(Box::new(arg))) == f1);
    assert(operand(f1, seed, arg, inst(b, 0)) == Datum::TagIdPointer(Box::new(arg)));
    assert(op_result(mix, insts[1], b, 1, pred, f1, seed, arg) == Some(Datum::Int(tag)));
    assert(op_frame(insts[1], b, 1, f1, seed, arg, Datum::Int(tag)) == f2);
    assert(run_insts(fns, mix, g as int, b, 2, pred, f2, seed, arg, fuel) == Some(f2));
    assert(run_insts(fns, mix, g as int, b, 1, pred, f1, seed, arg, fuel) == Some(f2));
    assert(run_insts(fns, mix, g as int, b, 0, pred, frame, seed, arg, fuel) == Some(f2));
    assert(operand(f2, seed, arg, inst(b, 1)) == Datum::Int(tag));
    f2
}

/// A value of a union whose variants lie behind a pointer with a tag id is
/// hashed by the branch of the variant that its tag id names, and by no
/// other: the seed that comes out is what the hash procedure of that
/// variant's struct returns for the fields.
pub proof fn law_pointer_tag_selects_variant(
    env: &Env,
    ids: &LayoutIds,
    mix: Mixers,
    g: FunctionId,
    union_layout: UnionModel,
    seed: u64,
    tag: u64,
    fields: Seq<Datum>,
    fuel: nat,
) -> (callee: FunctionId)
    requires
        hashes(env, ids, g, LayoutModel::Union(union_layout)),
        union_layout is Recursive || union_layout is NullableWrapped,
        tag < pointer_tags(union_layout).len(),
        fuel >= 4,
    ensures
        names(env, ids).proc_for(
            callee,
            LayoutModel::Struct(pointer_tags(union_layout)[tag as int]),
        ),
        run_function(
            env.functions(),
            mix,
            g as int,
            seed,
            Datum::Pointer(Box::new(Datum::Tagged(tag, fields))),
            fuel,
        ) == run_function(
            env.functions(),
            mix,
            callee as int,
            seed,
            Datum::Struct(fields),
            (fuel - pointer_tag_cost(union_layout)) as nat,
        ),
{
    let fns = env.functions();
    let blocks = env.blocks(g as int);
    let pointee = Datum::Tagged(tag, fields);
    let arg = Datum::Pointer(Box::new(pointee));
    assert(proc_shape(names(env, ids), env.ptr_bytes, blocks, LayoutModel::Union(union_layout)));
    assert(env.functions()[g as int].blocks.len() == blocks.len());
    let incoming = blocks[1].phis@[0].incoming@;
    let e = Frame::empty();
    match union_layout {
        UnionModel::Recursive(tags) => {
            let b = (2 + tag) as usize;
            assert(pointer_branch(names(env, ids), blocks[2 + tag as int], b, tags[tag as int]));
            lemma_phi_source(incoming, 2, 0, tag as int, 0);
            let entered = lemma_pointer_tag_switch_runs(
                env,
                mix,
                g,
                0,
                2,
                tags.len() as int,
                -1,
                e,
                seed,
                tag,
                fields,
                (fuel - 1) as nat,
            );
            lemma_pointer_branch_runs(
                env,
                ids,
                mix,
                g,
                b,
                tags[tag as int],
                0,
                entered,
                inst(b, 2),
                seed,
                pointee,
                fields,
                (fuel - 2) as nat,
            )
        },
        UnionModel::NullableWrapped { other_tags, .. } => {
            let b = (4 + tag) as usize;
            assert(pointer_branch(names(env, ids), blocks[4 + tag as int], b, other_tags[tag as int]));
            assert(null_test(blocks[0]));
            assert(incoming[0] == (Value::Param(0), 2usize));
            assert forall|j: int| 1 <= j < incoming.len() implies (#[trigger] incoming[j]).1 == 4 + (j
                - 1) by {}
            lemma_phi_source(incoming, 4, 1, tag as int, 0);
            let f0 = e.bind(inst(0, 0), Datum::Int(0));
            assert(run_phis(blocks[0].phis@, 0, -1, e, seed, arg, 0) == Some(e));
            assert(op_result(mix, blocks[0].insts@[0], 0, 0, -1, e, seed, arg) == Some(Datum::Int(0)));
            assert(run_insts(fns, mix, g as int, 0, 1, -1, f0, seed, arg, (fuel - 1) as nat) == Some(f0));
            assert(run_insts(fns, mix, g as int, 0, 0, -1, e, seed, arg, (fuel - 1) as nat) == Some(f0));
            assert(run_block(fns, mix, g as int, 0, -1, e, seed, arg, (fuel - 1) as nat) == run_block(
                fns,
                mix,
                g as int,
                3,
                0,
                f0,
                seed,
                arg,
                (fuel - 2) as nat,
            ));
            let entered = lemma_pointer_tag_switch_runs(
                env,
                mix,
                g,
                3,
                4,
                other_tags.len() as int,
                0,
                f0,
                seed,
                tag,
                fields,
                (fuel - 2) as nat,
            );
            lemma_pointer_branch_runs(
                env,
                ids,
                mix,
                g,
                b,
                other_tags[tag as int],
                3,
                entered,
                inst(b, 2),
                seed,
                pointee,
                fields,
                (fuel - 3) as nat,
            )
        },
        _ => 0,
    }
}

/// The variants that lie behind the pointer of a union with tag ids.
pub open spec fn pointer_tags(union_layout: UnionModel) -> Seq<Seq<LayoutModel>> {
    match union_layout {
        UnionModel::Recursive(tags) => tags,
        UnionModel::NullableWrapped { other_tags, .. } => other_tags,
        _ => Seq::empty(),
    }
}

/// The jumps and calls it takes to reach the struct's procedure.
pub open spec fn pointer_tag_cost(union_layout: UnionModel) -> int {
    if union_layout is NullableWrapped {
        4
    } else {
        3
    }
}

/// No layout has two hash procedures.
pub proof fn law_one_procedure_per_layout(
    env: &Env,
    ids: &LayoutIds,
    g: FunctionId,
    h: FunctionId,
    layout: LayoutModel,
)
    requires
        generated(env, ids),
        names(env, ids).proc_for(g, layout),
        names(env, ids).proc_for(h, layout),
    ensures
        g == h,
{
    let i = env.functions()[g as int].name->GenericHash_0;
    let j = env.functions()[h as int].name->GenericHash_0;
    assert(ids@[i as int] == ids@[j as int]);
    assert(i == j);
    assert(env.functions()[g as int].name == env.functions()[h as int].name);
}

/// A singly linked list as a value: null for the empty list, else a
/// pointer to a node that holds a number and the rest of the list.
pub open spec fn chain(items: Seq<Seq<u8>>) -> Datum
    decreases items.len(),
{
    if items.len() == 0 {
        Datum::Null
    } else {
        Datum::Pointer(
            Box::new(Datum::Struct(seq![Datum::Bytes(items[0]), chain(items.skip(1))])),
        )
    }
}

/// The seed after each number of a list was mixed in once, first to last.
pub open spec fn fold_bytes(mix: Mixers, seed: u64, items: Seq<Seq<u8>>, width: u64) -> u64
    decreases items.len(),
{
    if items.len() == 0 {
        seed
    } else {
        fold_bytes(mix, (mix.bytes)(seed, items[0], width), items.skip(1), width)
    }
}

/// The fields of the node of a singly linked list of numbers.
pub open spec fn node_fields(builtin: BuiltinModel) -> Seq<LayoutModel> {
    seq![LayoutModel::Builtin(builtin), LayoutModel::RecursivePointer]
}

/// Whether a union is a singly linked list of numbers: null or a pointer
/// to a number and a recursive pointer.
pub open spec fn is_chain(union_layout: UnionModel, builtin: BuiltinModel) -> bool {
    &&& union_layout matches UnionModel::NullableUnwrapped { other_fields, .. }
    &&& other_fields == node_fields(builtin)
    &&& is_scalar(builtin)
}

/// Hashing a singly linked list visits every node once, first to last, and
/// then ends at the null pointer: the seed that comes out is the seed after
/// each node's number was mixed in once. This holds where the procedures
/// are linked, as `generic_hash` leaves them for this layout.
pub proof fn law_chain_visits_each_node_once(
    env: &Env,
    ids: &LayoutIds,
    mix: Mixers,
    g: FunctionId,
    node: FunctionId,
    union_layout: UnionModel,
    builtin: BuiltinModel,
    seed: u64,
    items: Seq<Seq<u8>>,
    fuel: nat,
)
    requires
        hashes(env, ids, g, LayoutModel::Union(union_layout)),
        is_chain(union_layout, builtin),
        hashes(env, ids, node, LayoutModel::Struct(node_fields(builtin))),
        linked(env, ids, LayoutModel::Union(union_layout), None),
        fuel >= 5 * items.len() + 3,
    ensures
        run_function(env.functions(), mix, g as int, seed, chain(items), fuel) == Some(
            fold_bytes(mix, seed, items, scalar_width(builtin, env.ptr_bytes) as u64),
        ),
    decreases items.len(),
{
    let fns = env.functions();
    assert(env.insts(node as int, 0)[7] matches Op::Call { callee, .. } && callee == g) by {
        let fields = node_fields(builtin);
        assert(linked_union(env, ids, union_layout));
        assert(linked_fields(env, ids, fields, Some(union_layout)));
        reveal_with_fuel(fields_code_len, 3);
        assert(fields_code_len(fields, 1) + 1 == 6);
        assert(fields[1] is RecursivePointer);
        assert(pointer_linked(names(env, ids), env.insts(node as int, 0), 6, fields[1], Some(union_layout)));
        let callee = env.insts(node as int, 0)[7]->Call_callee;
        law_one_procedure_per_layout(env, ids, callee, g, LayoutModel::Union(union_layout));
    }
    if items.len() == 0 {
        law_null_leaves_seed(env, ids, mix, g, union_layout, seed, fuel);
    } else {
        let fields = node_fields(builtin);
        let rest = items.skip(1);
        let vals = seq![Datum::Bytes(items[0]), chain(rest)];
        let callee = law_unwrapped_hashes_fields(env, ids, mix, g, union_layout, seed, vals, fuel);
        law_one_procedure_per_layout(env, ids, callee, node, LayoutModel::Struct(fields));
        law_struct_folds_fields(env, ids, mix, node, fields, seed, vals, (fuel - 3) as nat);
        let insts = env.insts(node as int, 0);
        let left = (fuel - 4) as nat;
        let width = scalar_width(builtin, env.ptr_bytes) as u64;
        let s1 = (mix.bytes)(seed, items[0], width);
        law_chain_visits_each_node_once(
            env,
            ids,
            mix,
            g,
            node,
            union_layout,
            builtin,
            s1,
            rest,
            (fuel - 5) as nat,
        );
        reveal_with_fuel(fields_code_len, 3);
        reveal_with_fuel(fold_fields, 3);
        assert(fields_code_len(fields, 0) + 1 == 1);
        assert(fields_code_len(fields, 1) + 1 == 6);
        assert(hash_value(fns, mix, env.ptr_bytes, insts, 1, fields[0], seed, vals[0], left) == Some(
            s1,
        ));
        assert(hash_value(fns, mix, env.ptr_bytes, insts, 6, fields[1], s1, vals[1], left)
            == run_function(fns, mix, g as int, s1, chain(rest), (fuel - 5) as nat));
        assert(fold_fields(fns, mix, env.ptr_bytes, insts, fields, vals, 2, fold_bytes(mix, s1, rest, width), left)
            == Some(fold_bytes(mix, s1, rest, width)));
    }
}

/// The layout of a singly linked list of numbers is unambiguous: its node
/// is hashed under the list itself and nowhere else.
pub proof fn law_chain_is_unambiguous(union_layout: UnionModel, builtin: BuiltinModel)
    requires
        is_chain(union_layout, builtin),
    ensures
        unambiguous(LayoutModel::Union(union_layout)),
{
    let t = LayoutModel::Union(union_layout);
    let own = Some(union_layout);
    let fields = node_fields(builtin);
    assert(fields[0] == LayoutModel::Builtin(builtin));
    assert(fields[1] == LayoutModel::RecursivePointer);
    assert forall|s: LayoutModel, c: Option<UnionModel>|
        #[trigger] within(t, None, s, c) && has_direct_pointer(s) implies only_under(t, None, s, c) by {
        assert(within_union(union_layout, s, c));
        assert(within_struct(fields, own, s, c));
        if !(LayoutModel::Struct(fields) == s && own == c) {
            assert(within_fields(fields, own, s, c));
            let i = choose|i: int| 0 <= i < fields.len() && within(#[trigger] fields[i], own, s, c);
            assert(i == 0 || i == 1);
            assert(false);
        }
        assert forall|i: int| 0 <= i < fields.len() implies only_under(
            #[trigger] fields[i],
            own,
            s,
            c,
        ) by {
            assert(i == 0 || i == 1);
        }
        assert(only_under_fields(fields, own, s, c));
        assert(only_under_struct(fields, own, s, c));
        assert(only_under_union(union_layout, s, c));
    }
}

/// What `generic_hash` emits for a singly linked list of numbers hashes a
/// list by visiting every node once, first to last: the procedure that the
/// emitted call names returns the seed after each node's number was mixed
/// in once. `generic_hash` leaves the procedures linked where they were
/// linked before, as they are in a module without hash procedures.
pub proof fn law_generated_chain_visits_each_node_once(
    old_env: &Env,
    old_ids: &LayoutIds,
    env: &Env,
    ids: &LayoutIds,
    union_layout: UnionModel,
    builtin: BuiltinModel,
    seed_v: Value,
    val_v: Value,
    r: Value,
    mix: Mixers,
    seed: u64,
    items: Seq<Seq<u8>>,
    fuel: nat,
) -> (callee: FunctionId)
    requires
        crate::build_hash::hashed(
            old_env,
            old_ids,
            env,
            ids,
            LayoutModel::Union(union_layout),
            None,
            seed_v,
            val_v,
            r,
        ),
        crate::build_hash::closed(env),
        linked(env, ids, LayoutModel::Union(union_layout), None),
        is_chain(union_layout, builtin),
        fuel >= 5 * items.len() + 3,
    ensures
        env.here()[old_env.here().len() as int] == (Op::Call { callee, seed: seed_v, value: val_v }),
        run_function(env.functions(), mix, callee as int, seed, chain(items), fuel) == Some(
            fold_bytes(mix, seed, items, scalar_width(builtin, env.ptr_bytes) as u64),
        ),
{
    let layout = LayoutModel::Union(union_layout);
    let callee = env.here()[old_env.here().len() as int]->Call_callee;
    assert(names(env, ids).proc_for(callee, layout));
    assert(env.complete(callee as int));
    assert(hashes(env, ids, callee, layout));
    assert(proc_shape(names(env, ids), env.ptr_bytes, env.blocks(callee as int), layout));
    let fields = node_fields(builtin);
    assert(pointer_branch(names(env, ids), env.blocks(callee as int)[3], 3, fields));
    let node = env.insts(callee as int, 3)[2]->Call_callee;
    assert(names(env, ids).proc_for(node, LayoutModel::Struct(fields)));
    assert(env.complete(node as int));
    law_chain_visits_each_node_once(
        env,
        ids,
        mix,
        callee,
        node,
        union_layout,
        builtin,
        seed,
        items,
        fuel,
    );
    callee
}

} // verus!
