//! What the code that `generic_hash` emits computes, one kind of layout
//! after the other. Each law takes what `generic_hash` ensures of one call
//! and says what the emitted code returns when it runs.

use vstd::prelude::*;
use crate::build_hash::{closed, hashed};
use crate::env::Env;
use crate::ir::{FunctionId, Op, Value};
use crate::laws::{
    fold_elements, fold_fields, hash_value, hashes, law_code_computes_hash,
    law_empty_list_leaves_seed,
    law_list_folds_elements, law_null_leaves_seed, law_one_procedure_per_layout,
    law_pointer_tag_selects_variant, law_struct_folds_fields, law_tag_selects_variant,
    law_unwrapped_hashes_fields, older, pointer_tag_cost, pointer_tags, unwrapped_cost,
};
use crate::layout::{BuiltinModel, LayoutModel, UnionModel};
use crate::layout_ids::LayoutIds;
use crate::linking::{linked, linked_fields, linked_union, own_ctx, pointer_linked, variants};
use crate::semantics::{operand, run_function, run_insts, Datum, Frame, Mixers};
use crate::shape::{
    code_len, fields_code_len, hashable, inst, is_empty_collection, is_scalar, names,
    scalar_width,
};

verus! {

/// For a struct, a union or a list `generic_hash` emits one instruction, a
/// call of the layout's hash procedure on the seed and the value, and
/// returns what the call yields. The procedure is complete, and the module
/// has no other for the layout.
pub proof fn law_generic_hash_calls_procedure(
    old_env: &Env,
    old_ids: &LayoutIds,
    env: &Env,
    ids: &LayoutIds,
    layout: LayoutModel,
    seed_v: Value,
    val_v: Value,
    r: Value,
) -> (callee: FunctionId)
    requires
        hashed(old_env, old_ids, env, ids, layout, None, seed_v, val_v, r),
        closed(env),
        code_len(layout) == 1,
    ensures
        env.here().len() == old_env.here().len() + 1,
        env.here()[old_env.here().len() as int] == (Op::Call { callee, seed: seed_v, value: val_v }),
        r == inst(env.at().index, old_env.here().len() as int),
        hashes(env, ids, callee, layout),
        forall|h: FunctionId| #[trigger] names(env, ids).proc_for(h, layout) ==> h == callee,
{
    let callee = env.here()[old_env.here().len() as int]->Call_callee;
    assert(names(env, ids).proc_for(callee, layout));
    assert(env.complete(callee as int));
    assert forall|h: FunctionId| #[trigger] names(env, ids).proc_for(h, layout) implies h
        == callee by {
        law_one_procedure_per_layout(env, ids, h, callee, layout);
    }
    callee
}

/// For a number `generic_hash` emits four instructions and adds no
/// procedure. When they run, the seed that comes out is what the byte mixer
/// makes of the seed that went in, the number's bit pattern and its width:
/// the kind of number plays no part beyond its width.
pub proof fn law_generic_hash_mixes_bit_pattern(
    old_env: &Env,
    old_ids: &LayoutIds,
    env: &Env,
    ids: &LayoutIds,
    builtin: BuiltinModel,
    seed_v: Value,
    val_v: Value,
    r: Value,
    mix: Mixers,
    pred: int,
    frame: Frame,
    seed: u64,
    arg: Datum,
    s: u64,
    bytes: Seq<u8>,
    fuel: nat,
) -> (later: Frame)
    requires
        hashed(old_env, old_ids, env, ids, LayoutModel::Builtin(builtin), None, seed_v, val_v, r),
        is_scalar(builtin),
        older(seed_v, env.at().index, old_env.here().len() as int),
        older(val_v, env.at().index, old_env.here().len() as int),
        operand(frame, seed, arg, seed_v) == Datum::Int(s),
        operand(frame, seed, arg, val_v) == Datum::Bytes(bytes),
    ensures
        env.functions().len() == old_env.functions().len(),
        env.here().len() == old_env.here().len() + 4,
        run_insts(
            env.functions(),
            mix,
            env.at().function as int,
            env.at().index,
            old_env.here().len() as int,
            pred,
            frame,
            seed,
            arg,
            fuel,
        ) == run_insts(
            env.functions(),
            mix,
            env.at().function as int,
            env.at().index,
            old_env.here().len() as int + 4,
            pred,
            later,
            seed,
            arg,
            fuel,
        ),
        operand(later, seed, arg, r) == Datum::Int(
            (mix.bytes)(s, bytes, scalar_width(builtin, env.ptr_bytes) as u64),
        ),
{
    law_code_computes_hash(
        env,
        ids,
        mix,
        env.at().function,
        env.at().index,
        old_env.here().len() as int,
        LayoutModel::Builtin(builtin),
        None,
        seed_v,
        val_v,
        pred,
        frame,
        seed,
        arg,
        s,
        fuel,
    )
}

/// For an empty collection `generic_hash` emits nothing and adds no
/// procedure: the seed that it returns is the seed that it was given.
pub proof fn law_generic_hash_skips_empty_collection(
    old_env: &Env,
    old_ids: &LayoutIds,
    env: &Env,
    ids: &LayoutIds,
    builtin: BuiltinModel,
    seed_v: Value,
    val_v: Value,
    r: Value,
)
    requires
        hashed(old_env, old_ids, env, ids, LayoutModel::Builtin(builtin), None, seed_v, val_v, r),
        is_empty_collection(builtin),
    ensures
        r == seed_v,
        env.here() == old_env.here(),
        env.functions().len() == old_env.functions().len(),
{
    assert(env.here() =~= old_env.here());
}

/// The procedure that `generic_hash` calls for a list returns, for a list
/// without elements, the seed that it was given, whatever the layout of the
/// elements: what hashing an empty collection gives.
pub proof fn law_generic_hash_empty_list_leaves_seed(
    old_env: &Env,
    old_ids: &LayoutIds,
    env: &Env,
    ids: &LayoutIds,
    element: LayoutModel,
    empty: BuiltinModel,
    seed_v: Value,
    val_v: Value,
    r: Value,
    mix: Mixers,
    seed: u64,
    fuel: nat,
) -> (callee: FunctionId)
    requires
        hashed(
            old_env,
            old_ids,
            env,
            ids,
            LayoutModel::Builtin(BuiltinModel::List(Box::new(element))),
            None,
            seed_v,
            val_v,
            r,
        ),
        closed(env),
        is_empty_collection(empty),
        fuel >= 4,
    ensures
        env.here()[old_env.here().len() as int] == (Op::Call { callee, seed: seed_v, value: val_v }),
        run_function(env.functions(), mix, callee as int, seed, Datum::List(Seq::empty()), fuel)
            == Some(seed),
        run_function(env.functions(), mix, callee as int, seed, Datum::List(Seq::empty()), fuel)
            == hash_value(
            env.functions(),
            mix,
            env.ptr_bytes,
            env.here(),
            old_env.here().len() as int,
            LayoutModel::Builtin(empty),
            seed,
            Datum::List(Seq::empty()),
            fuel,
        ),
{
    let layout = LayoutModel::Builtin(BuiltinModel::List(Box::new(element)));
    let callee = law_generic_hash_calls_procedure(
        old_env,
        old_ids,
        env,
        ids,
        layout,
        seed_v,
        val_v,
        r,
    );
    law_empty_list_leaves_seed(env, ids, mix, callee, element, seed, fuel);
    callee
}

/// The procedure that `generic_hash` calls for a struct hashes the fields
/// into the seed one after the other, in the order in which the struct
/// declares them: it returns [`fold_fields`] from the first field on.
pub proof fn law_generic_hash_folds_fields(
    old_env: &Env,
    old_ids: &LayoutIds,
    env: &Env,
    ids: &LayoutIds,
    fields: Seq<LayoutModel>,
    seed_v: Value,
    val_v: Value,
    r: Value,
    mix: Mixers,
    seed: u64,
    vals: Seq<Datum>,
    fuel: nat,
) -> (callee: FunctionId)
    requires
        hashed(old_env, old_ids, env, ids, LayoutModel::Struct(fields), None, seed_v, val_v, r),
        closed(env),
        vals.len() == fields.len(),
        fields.len() <= u32::MAX,
        fuel >= 1,
    ensures
        env.here()[old_env.here().len() as int] == (Op::Call { callee, seed: seed_v, value: val_v }),
        run_function(env.functions(), mix, callee as int, seed, Datum::Struct(vals), fuel)
            == fold_fields(
            env.functions(),
            mix,
            env.ptr_bytes,
            env.insts(callee as int, 0),
            fields,
            vals,
            0,
            seed,
            (fuel - 1) as nat,
        ),
{
    let callee = law_generic_hash_calls_procedure(
        old_env,
        old_ids,
        env,
        ids,
        LayoutModel::Struct(fields),
        seed_v,
        val_v,
        r,
    );
    law_struct_folds_fields(env, ids, mix, callee, fields, seed, vals, fuel);
    callee
}

/// The procedure that `generic_hash` calls for a struct of two fields
/// hashes the second field into the seed that hashing the first field
/// left: the first field comes first, whatever the two layouts are.
pub proof fn law_generic_hash_pair_in_order(
    old_env: &Env,
    old_ids: &LayoutIds,
    env: &Env,
    ids: &LayoutIds,
    fields: Seq<LayoutModel>,
    seed_v: Value,
    val_v: Value,
    r: Value,
    mix: Mixers,
    seed: u64,
    vals: Seq<Datum>,
    fuel: nat,
) -> (callee: FunctionId)
    requires
        hashed(old_env, old_ids, env, ids, LayoutModel::Struct(fields), None, seed_v, val_v, r),
        closed(env),
        fields.len() == 2,
        vals.len() == 2,
        fuel >= 1,
    ensures
        env.here()[old_env.here().len() as int] == (Op::Call { callee, seed: seed_v, value: val_v }),
        run_function(env.functions(), mix, callee as int, seed, Datum::Struct(vals), fuel)
            == match hash_value(
            env.functions(),
            mix,
            env.ptr_bytes,
            env.insts(callee as int, 0),
            1,
            fields[0],
            seed,
            vals[0],
            (fuel - 1) as nat,
        ) {
            None => None,
            Some(first) => hash_value(
                env.functions(),
                mix,
                env.ptr_bytes,
                env.insts(callee as int, 0),
                code_len(fields[0]) + 2,
                fields[1],
                first,
                vals[1],
                (fuel - 1) as nat,
            ),
        },
{
    let callee = law_generic_hash_folds_fields(
        old_env,
        old_ids,
        env,
        ids,
        fields,
        seed_v,
        val_v,
        r,
        mix,
        seed,
        vals,
        fuel,
    );
    reveal_with_fuel(fold_fields, 3);
    reveal_with_fuel(fields_code_len, 3);
    callee
}

/// The procedure that `generic_hash` calls for a list hashes the elements
/// into the seed one after the other, in index order: it returns
/// [`fold_elements`] from the first element on.
pub proof fn law_generic_hash_folds_elements(
    old_env: &Env,
    old_ids: &LayoutIds,
    env: &Env,
    ids: &LayoutIds,
    element: LayoutModel,
    seed_v: Value,
    val_v: Value,
    r: Value,
    mix: Mixers,
    seed: u64,
    elements: Seq<Datum>,
    fuel: nat,
) -> (callee: FunctionId)
    requires
        hashed(
            old_env,
            old_ids,
            env,
            ids,
            LayoutModel::Builtin(BuiltinModel::List(Box::new(element))),
            None,
            seed_v,
            val_v,
            r,
        ),
        closed(env),
        elements.len() <= u64::MAX,
        fuel >= elements.len() + 4,
    ensures
        env.here()[old_env.here().len() as int] == (Op::Call { callee, seed: seed_v, value: val_v }),
        run_function(env.functions(), mix, callee as int, seed, Datum::List(elements), fuel)
            == fold_elements(
            env.functions(),
            mix,
            env.ptr_bytes,
            env.insts(callee as int, 3),
            element,
            elements,
            0,
            seed,
            (fuel - 3) as nat,
        ),
{
    let layout = LayoutModel::Builtin(BuiltinModel::List(Box::new(element)));
    let callee = law_generic_hash_calls_procedure(
        old_env,
        old_ids,
        env,
        ids,
        layout,
        seed_v,
        val_v,
        r,
    );
    law_list_folds_elements(env, ids, mix, callee, element, seed, elements, fuel);
    callee
}

/// The procedure that `generic_hash` calls for a union that stores its tag
/// id inline hashes a value as the struct of the variant that the tag id
/// names: it returns what the hash procedure of that struct returns for the
/// fields. No other variant and no mixing of the tag id take part.
pub proof fn law_generic_hash_selects_variant(
    old_env: &Env,
    old_ids: &LayoutIds,
    env: &Env,
    ids: &LayoutIds,
    tags: Seq<Seq<LayoutModel>>,
    seed_v: Value,
    val_v: Value,
    r: Value,
    mix: Mixers,
    seed: u64,
    tag: u64,
    fields: Seq<Datum>,
    fuel: nat,
) -> (procs: (FunctionId, FunctionId))
    requires
        hashed(
            old_env,
            old_ids,
            env,
            ids,
            LayoutModel::Union(UnionModel::NonRecursive(tags)),
            None,
            seed_v,
            val_v,
            r,
        ),
        closed(env),
        tag < tags.len(),
        fuel >= 3,
    ensures
        env.here()[old_env.here().len() as int] == (Op::Call {
            callee: procs.0,
            seed: seed_v,
            value: val_v,
        }),
        hashes(env, ids, procs.1, LayoutModel::Struct(tags[tag as int])),
        run_function(env.functions(), mix, procs.0 as int, seed, Datum::Tagged(tag, fields), fuel)
            == run_function(
            env.functions(),
            mix,
            procs.1 as int,
            seed,
            Datum::Struct(fields),
            (fuel - 3) as nat,
        ),
{
    let layout = LayoutModel::Union(UnionModel::NonRecursive(tags));
    let callee = law_generic_hash_calls_procedure(
        old_env,
        old_ids,
        env,
        ids,
        layout,
        seed_v,
        val_v,
        r,
    );
    let variant = law_tag_selects_variant(env, ids, mix, callee, tags, seed, tag, fields, fuel);
    assert(env.complete(variant as int));
    (callee, variant)
}

/// The procedure that `generic_hash` calls for a union whose variants lie
/// behind a pointer with a tag id hashes a value as the struct of the
/// variant that the tag id names: it returns what the hash procedure of
/// that struct returns for the fields.
pub proof fn law_generic_hash_selects_pointer_variant(
    old_env: &Env,
    old_ids: &LayoutIds,
    env: &Env,
    ids: &LayoutIds,
    union_layout: UnionModel,
    seed_v: Value,
    val_v: Value,
    r: Value,
    mix: Mixers,
    seed: u64,
    tag: u64,
    fields: Seq<Datum>,
    fuel: nat,
) -> (procs: (FunctionId, FunctionId))
    requires
        hashed(old_env, old_ids, env, ids, LayoutModel::Union(union_layout), None, seed_v, val_v, r),
        closed(env),
        union_layout is Recursive || union_layout is NullableWrapped,
        tag < pointer_tags(union_layout).len(),
        fuel >= 4,
    ensures
        env.here()[old_env.here().len() as int] == (Op::Call {
            callee: procs.0,
            seed: seed_v,
            value: val_v,
        }),
        hashes(env, ids, procs.1, LayoutModel::Struct(pointer_tags(union_layout)[tag as int])),
        run_function(
            env.functions(),
            mix,
            procs.0 as int,
            seed,
            Datum::Pointer(Box::new(Datum::Tagged(tag, fields))),
            fuel,
        ) == run_function(
            env.functions(),
            mix,
            procs.1 as int,
            seed,
            Datum::Struct(fields),
            (fuel - pointer_tag_cost(union_layout)) as nat,
        ),
{
    let callee = law_generic_hash_calls_procedure(
        old_env,
        old_ids,
        env,
        ids,
        LayoutModel::Union(union_layout),
        seed_v,
        val_v,
        r,
    );
    let variant = law_pointer_tag_selects_variant(
        env,
        ids,
        mix,
        callee,
        union_layout,
        seed,
        tag,
        fields,
        fuel,
    );
    assert(env.complete(variant as int));
    (callee, variant)
}

/// The procedure that `generic_hash` calls for a union with one variant
/// behind a pointer and no tag id hashes a value that is not null as the
/// struct of the variant's fields, all of them: it returns what the hash
/// procedure of that struct returns for the fields behind the pointer.
pub proof fn law_generic_hash_follows_pointer(
    old_env: &Env,
    old_ids: &LayoutIds,
    env: &Env,
    ids: &LayoutIds,
    union_layout: UnionModel,
    seed_v: Value,
    val_v: Value,
    r: Value,
    mix: Mixers,
    seed: u64,
    fields: Seq<Datum>,
    fuel: nat,
) -> (procs: (FunctionId, FunctionId))
    requires
        hashed(old_env, old_ids, env, ids, LayoutModel::Union(union_layout), None, seed_v, val_v, r),
        closed(env),
        union_layout is NullableUnwrapped || union_layout is NonNullableUnwrapped,
        fuel >= 3,
    ensures
        env.here()[old_env.here().len() as int] == (Op::Call {
            callee: procs.0,
            seed: seed_v,
            value: val_v,
        }),
        union_layout matches UnionModel::NullableUnwrapped { other_fields, .. } ==> hashes(
            env,
            ids,
            procs.1,
            LayoutModel::Struct(other_fields),
        ),
        union_layout matches UnionModel::NonNullableUnwrapped(only) ==> hashes(
            env,
            ids,
            procs.1,
            LayoutModel::Struct(only),
        ),
        run_function(
            env.functions(),
            mix,
            procs.0 as int,
            seed,
            Datum::Pointer(Box::new(Datum::Struct(fields))),
            fuel,
        ) == run_function(
            env.functions(),
            mix,
            procs.1 as int,
            seed,
            Datum::Struct(fields),
            (fuel - unwrapped_cost(union_layout)) as nat,
        ),
{
    let callee = law_generic_hash_calls_procedure(
        old_env,
        old_ids,
        env,
        ids,
        LayoutModel::Union(union_layout),
        seed_v,
        val_v,
        r,
    );
    let variant = law_unwrapped_hashes_fields(env, ids, mix, callee, union_layout, seed, fields, fuel);
    assert(env.complete(variant as int));
    (callee, variant)
}

/// The procedure that `generic_hash` calls for a union in which null stands
/// for a variant returns, for the null pointer, the seed that it was given,
/// whichever variant null stands for and whatever the other variants are.
pub proof fn law_generic_hash_null_leaves_seed(
    old_env: &Env,
    old_ids: &LayoutIds,
    env: &Env,
    ids: &LayoutIds,
    union_layout: UnionModel,
    seed_v: Value,
    val_v: Value,
    r: Value,
    mix: Mixers,
    seed: u64,
    fuel: nat,
) -> (callee: FunctionId)
    requires
        hashed(old_env, old_ids, env, ids, LayoutModel::Union(union_layout), None, seed_v, val_v, r),
        closed(env),
        union_layout is NullableWrapped || union_layout is NullableUnwrapped,
        fuel >= 3,
    ensures
        env.here()[old_env.here().len() as int] == (Op::Call { callee, seed: seed_v, value: val_v }),
        run_function(env.functions(), mix, callee as int, seed, Datum::Null, fuel) == Some(seed),
{
    let callee = law_generic_hash_calls_procedure(
        old_env,
        old_ids,
        env,
        ids,
        LayoutModel::Union(union_layout),
        seed_v,
        val_v,
        r,
    );
    law_null_leaves_seed(env, ids, mix, callee, union_layout, seed, fuel);
    callee
}

/// A union that refers to itself has one hash procedure, and the code that
/// hashes a recursive pointer among the fields of one of its variants calls
/// that procedure again: the struct of variant `j` has its procedure, and
/// in it the code for field `i` hands the pointer to the procedure that
/// `generic_hash` called for the union. This holds where the procedures are
/// linked, as `generic_hash` leaves them for an unambiguous layout.
pub proof fn law_generic_hash_recurs_by_call(
    old_env: &Env,
    old_ids: &LayoutIds,
    env: &Env,
    ids: &LayoutIds,
    union_layout: UnionModel,
    seed_v: Value,
    val_v: Value,
    r: Value,
    j: int,
    i: int,
) -> (procs: (FunctionId, FunctionId))
    requires
        hashable(LayoutModel::Union(union_layout), None),
        hashed(old_env, old_ids, env, ids, LayoutModel::Union(union_layout), None, seed_v, val_v, r),
        closed(env),
        linked(env, ids, LayoutModel::Union(union_layout), None),
        !(union_layout is NonRecursive),
        0 <= j < variants(union_layout).len(),
        0 <= i < variants(union_layout)[j].len(),
        variants(union_layout)[j][i] is RecursivePointer,
    ensures
        env.here()[old_env.here().len() as int] == (Op::Call {
            callee: procs.0,
            seed: seed_v,
            value: val_v,
        }),
        forall|h: FunctionId|
            #[trigger] names(env, ids).proc_for(h, LayoutModel::Union(union_layout)) ==> h
                == procs.0,
        hashes(env, ids, procs.1, LayoutModel::Struct(variants(union_layout)[j])),
        env.insts(procs.1 as int, 0)[fields_code_len(variants(union_layout)[j], i) + 2]
            matches Op::Call { callee: again, .. } && again == procs.0,
{
    let callee = law_generic_hash_calls_procedure(
        old_env,
        old_ids,
        env,
        ids,
        LayoutModel::Union(union_layout),
        seed_v,
        val_v,
        r,
    );
    let fields = variants(union_layout)[j];
    let mix = Mixers {
        bytes: |seed: u64, bytes: Seq<u8>, width: u64| seed,
        string: |seed: u64, bytes: Seq<u8>| seed,
    };
    let node = if union_layout is Recursive || union_layout is NullableWrapped {
        law_pointer_tag_selects_variant(
            env,
            ids,
            mix,
            callee,
            union_layout,
            0,
            j as u64,
            Seq::empty(),
            4,
        )
    } else {
        law_unwrapped_hashes_fields(env, ids, mix, callee, union_layout, 0, Seq::empty(), 3)
    };
    assert(names(env, ids).proc_for(node, LayoutModel::Struct(fields)));
    assert(env.complete(node as int));
    assert(linked_union(env, ids, union_layout));
    assert(linked_fields(env, ids, fields, own_ctx(union_layout)));
    assert(pointer_linked(
        names(env, ids),
        env.insts(node as int, 0),
        fields_code_len(fields, i) + 1,
        fields[i],
        own_ctx(union_layout),
    ));
    let again = env.insts(node as int, 0)[fields_code_len(fields, i) + 2]->Call_callee;
    law_one_procedure_per_layout(env, ids, again, callee, LayoutModel::Union(union_layout));
    (callee, node)
}

} // verus!
