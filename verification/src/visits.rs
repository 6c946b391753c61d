//! Every field is visited once: where the code of a struct's procedure
//! takes a field out of the struct, and where it mixes data into the seed.

use vstd::prelude::*;
use crate::build_hash::{closed, hashed};
use crate::env::Env;
use crate::ir::{FunctionId, Op, Value};
use crate::laws::{hashes, is_chain, lemma_fields_code_len_mono, node_fields};
use crate::layout::{BuiltinModel, LayoutModel, UnionModel};
use crate::layout_ids::LayoutIds;
use crate::outcomes::law_generic_hash_calls_procedure;
use crate::shape::{
    code_len, fields_code_at, fields_code_len, inline_branch, is_scalar, layout_code_at, names,
    pointer_branch, proc_shape, Names,
};

verus! {

/// Whether `op` calls one of the two mixing primitives.
pub open spec fn is_mix(op: Op) -> bool {
    op is CallDictHash || op is CallDictHashStr
}

/// Where the code of a struct's procedure mixes field `i` into the seed:
/// at the last instruction of the field's code if the field is a number or
/// a string, and nowhere if it is anything else.
pub open spec fn mix_place(fields: Seq<LayoutModel>, i: int) -> Option<int> {
    match fields[i] {
        LayoutModel::Builtin(builtin) => if is_scalar(builtin) || builtin is Str {
            Some(fields_code_len(fields, i + 1) - 1)
        } else {
            None
        },
        _ => None,
    }
}

/// Instruction `p` of the code for the first `n` fields belongs to the code
/// of one field `k`: it takes a field out of the struct exactly if it is
/// the first instruction of that code, and then it takes out field `k`; it
/// calls a mixing primitive exactly if it is the place where field `k` is
/// mixed in.
proof fn lemma_field_of_place(
    names: Names,
    ptr_bytes: u32,
    insts: Seq<Op>,
    fields: Seq<LayoutModel>,
    ctx: Option<UnionModel>,
    n: int,
    p: int,
) -> (k: int)
    requires
        fields_code_at(names, ptr_bytes, insts, 0, fields, ctx, n),
        0 <= n <= fields.len(),
        0 <= p < fields_code_len(fields, n),
    ensures
        0 <= k < n,
        fields_code_len(fields, k) <= p < fields_code_len(fields, k + 1),
        insts[p] is ExtractValue <==> p == fields_code_len(fields, k),
        p == fields_code_len(fields, k) ==> insts[p] == Op::ExtractValue(Value::Param(1), k as u32),
        is_mix(insts[p]) <==> mix_place(fields, k) == Some(p),
    decreases n,
{
    let start = fields_code_len(fields, n - 1);
    lemma_fields_code_len_mono(fields, 0, n - 1);
    if p < start {
        lemma_field_of_place(names, ptr_bytes, insts, fields, ctx, n - 1, p)
    } else {
        assert(layout_code_at(
            names,
            ptr_bytes,
            insts,
            0,
            start + 1,
            fields[n - 1],
            ctx,
            crate::shape::fields_seed(fields, 0, n - 1),
            crate::shape::inst(0, start),
        ));
        assert(fields_code_len(fields, n) == start + 1 + code_len(fields[n - 1]));
        n - 1
    }
}

/// The hash procedure of a struct is one block in which every field is
/// visited once. Instruction `p` takes field `i` out of the struct exactly
/// if it is the first instruction of the code of field `i`, and it calls a
/// mixing primitive exactly if it is the place where some field, a number
/// or a string, is mixed in: each such field has one place, and the code
/// holds no other call of a mixing primitive.
pub proof fn law_struct_visits_each_field_once(
    env: &Env,
    ids: &LayoutIds,
    g: FunctionId,
    fields: Seq<LayoutModel>,
    p: int,
)
    requires
        hashes(env, ids, g, LayoutModel::Struct(fields)),
        fields.len() <= u32::MAX,
        0 <= p < env.insts(g as int, 0).len(),
    ensures
        env.blocks(g as int).len() == 1,
        forall|i: int|
            0 <= i < fields.len() ==> (env.insts(g as int, 0)[p] == Op::ExtractValue(
                Value::Param(1),
                i as u32,
            ) <==> p == #[trigger] fields_code_len(fields, i)),
        is_mix(env.insts(g as int, 0)[p]) <==> exists|i: int|
            0 <= i < fields.len() && #[trigger] mix_place(fields, i) == Some(p),
        forall|i: int, j: int|
            0 <= i < j < fields.len() ==> #[trigger] fields_code_len(fields, i) < #[trigger] fields_code_len(
                fields,
                j,
            ),
{
    let insts = env.insts(g as int, 0);
    let n = fields.len() as int;
    assert(proc_shape(names(env, ids), env.ptr_bytes, env.blocks(g as int), LayoutModel::Struct(fields)));
    let k = lemma_field_of_place(names(env, ids), env.ptr_bytes, insts, fields, None, n, p);
    assert forall|i: int, j: int| 0 <= i < j < fields.len() implies #[trigger] fields_code_len(
        fields,
        i,
    ) < #[trigger] fields_code_len(fields, j) by {
        lemma_fields_code_len_mono(fields, i + 1, j);
        lemma_fields_code_len_mono(fields, 0, i);
    }
    assert forall|i: int| 0 <= i < fields.len() implies (insts[p] == Op::ExtractValue(
        Value::Param(1),
        i as u32,
    ) <==> p == #[trigger] fields_code_len(fields, i)) by {
        if p == fields_code_len(fields, i) {
            if i < k {
                lemma_fields_code_len_mono(fields, i + 1, k);
            }
            if k < i {
                lemma_fields_code_len_mono(fields, k + 1, i);
            }
            assert(i == k);
        }
    }
    if exists|i: int| 0 <= i < fields.len() && #[trigger] mix_place(fields, i) == Some(p) {
        let i = choose|i: int| 0 <= i < fields.len() && #[trigger] mix_place(fields, i) == Some(p);
        lemma_fields_code_len_mono(fields, 0, i);
        if i < k {
            lemma_fields_code_len_mono(fields, i + 1, k);
        }
        if k < i {
            lemma_fields_code_len_mono(fields, k + 1, i);
        }
        assert(i == k);
    }
}

/// The hash procedure of a union calls no mixing primitive itself: it
/// decodes the tag and hands the fields to the procedure of the variant's
/// struct. Neither the tag id nor the pointer is mixed into the seed.
pub proof fn law_union_mixes_nothing_itself(
    env: &Env,
    ids: &LayoutIds,
    g: FunctionId,
    union_layout: UnionModel,
    b: int,
    p: int,
)
    requires
        hashes(env, ids, g, LayoutModel::Union(union_layout)),
        0 <= b < env.blocks(g as int).len(),
        0 <= p < env.insts(g as int, b).len(),
    ensures
        !is_mix(env.insts(g as int, b)[p]),
{
    let blocks = env.blocks(g as int);
    assert(proc_shape(names(env, ids), env.ptr_bytes, blocks, LayoutModel::Union(union_layout)));
    match union_layout {
        UnionModel::NonRecursive(tags) => {
            if b >= 2 {
                assert(inline_branch(names(env, ids), blocks[2 + (b - 2)], b as usize, tags[b - 2]));
            }
        },
        UnionModel::Recursive(tags) => {
            if b >= 2 {
                assert(pointer_branch(names(env, ids), blocks[2 + (b - 2)], b as usize, tags[b - 2]));
            }
        },
        UnionModel::NullableWrapped { other_tags, .. } => {
            if b >= 4 {
                assert(pointer_branch(
                    names(env, ids),
                    blocks[4 + (b - 4)],
                    b as usize,
                    other_tags[b - 4],
                ));
            }
        },
        _ => {},
    }
}

/// Hashing a singly linked list of numbers mixes one number per node: the
/// procedure of the node takes the number out, mixes it in at one place,
/// takes the pointer to the rest out and hands it on; it mixes nothing
/// else, and the procedure of the list itself mixes nothing at all.
pub proof fn law_chain_mixes_once_per_node(
    env: &Env,
    ids: &LayoutIds,
    g: FunctionId,
    node: FunctionId,
    union_layout: UnionModel,
    builtin: BuiltinModel,
)
    requires
        hashes(env, ids, g, LayoutModel::Union(union_layout)),
        hashes(env, ids, node, LayoutModel::Struct(node_fields(builtin))),
        is_chain(union_layout, builtin),
    ensures
        forall|b: int, p: int|
            0 <= b < env.blocks(g as int).len() && 0 <= p < env.insts(g as int, b).len()
                ==> !is_mix(#[trigger] env.insts(g as int, b)[p]),
        env.blocks(node as int).len() == 1,
        env.insts(node as int, 0).len() == 8,
        env.insts(node as int, 0)[0] == Op::ExtractValue(Value::Param(1), 0),
        env.insts(node as int, 0)[5] == Op::ExtractValue(Value::Param(1), 1),
        forall|p: int| 0 <= p < 8 ==> (is_mix(#[trigger] env.insts(node as int, 0)[p]) <==> p == 4),
{
    assert forall|b: int, p: int|
        0 <= b < env.blocks(g as int).len() && 0 <= p < env.insts(g as int, b).len() implies !is_mix(
        #[trigger] env.insts(g as int, b)[p],
    ) by {
        law_union_mixes_nothing_itself(env, ids, g, union_layout, b, p);
    }
    let fields = node_fields(builtin);
    let insts = env.insts(node as int, 0);
    assert(proc_shape(
        names(env, ids),
        env.ptr_bytes,
        env.blocks(node as int),
        LayoutModel::Struct(fields),
    ));
    reveal_with_fuel(fields_code_len, 3);
    assert(fields_code_len(fields, 0) == 0);
    assert(fields_code_len(fields, 1) == 5);
    assert(fields_code_len(fields, 2) == 8);
    assert forall|p: int| 0 <= p < 8 implies (is_mix(#[trigger] insts[p]) <==> p == 4) by {
        law_struct_visits_each_field_once(env, ids, node, fields, p);
        assert(mix_place(fields, 0) == Some(4int));
        assert(mix_place(fields, 1) is None);
    }
    law_struct_visits_each_field_once(env, ids, node, fields, 0);
    law_struct_visits_each_field_once(env, ids, node, fields, 5);
}

/// What `generic_hash` leaves behind for a singly linked list of numbers
/// mixes one number per node: the procedure that the emitted call names
/// mixes nothing itself, and the procedure of the node, which it calls for
/// a pointer that is not null, mixes the node's number at one place and
/// nothing else.
pub proof fn law_generated_chain_mixes_once_per_node(
    old_env: &Env,
    old_ids: &LayoutIds,
    env: &Env,
    ids: &LayoutIds,
    union_layout: UnionModel,
    builtin: BuiltinModel,
    seed_v: Value,
    val_v: Value,
    r: Value,
) -> (procs: (FunctionId, FunctionId))
    requires
        hashed(old_env, old_ids, env, ids, LayoutModel::Union(union_layout), None, seed_v, val_v, r),
        closed(env),
        is_chain(union_layout, builtin),
    ensures
        env.here()[old_env.here().len() as int] == (Op::Call {
            callee: procs.0,
            seed: seed_v,
            value: val_v,
        }),
        env.insts(procs.0 as int, 3)[2] matches Op::Call { callee, .. } && callee == procs.1,
        forall|b: int, p: int|
            0 <= b < env.blocks(procs.0 as int).len() && 0 <= p < env.insts(procs.0 as int, b).len()
                ==> !is_mix(#[trigger] env.insts(procs.0 as int, b)[p]),
        env.blocks(procs.1 as int).len() == 1,
        env.insts(procs.1 as int, 0).len() == 8,
        forall|p: int|
            0 <= p < 8 ==> (is_mix(#[trigger] env.insts(procs.1 as int, 0)[p]) <==> p == 4),
{
    let layout = LayoutModel::Union(union_layout);
    let callee = law_generic_hash_calls_procedure(
        old_env,
        old_ids,
        env,
        ids,
        layout,
        seed_v,
        val_v,
        r,
    );
    assert(proc_shape(names(env, ids), env.ptr_bytes, env.blocks(callee as int), layout));
    let fields = node_fields(builtin);
    assert(pointer_branch(names(env, ids), env.blocks(callee as int)[3], 3, fields));
    let node = env.insts(callee as int, 3)[2]->Call_callee;
    assert(names(env, ids).proc_for(node, LayoutModel::Struct(fields)));
    assert(env.complete(node as int));
    law_chain_mixes_once_per_node(env, ids, callee, node, union_layout, builtin);
    (callee, node)
}

} // verus!
