//! What the hash of a value is, by the layout of the value alone, and the
//! proof that the emitted procedures compute it.

use vstd::prelude::*;
use crate::build_hash::{closed, WhenRecursive};
use crate::data::{data_model, data_models, Data};
use crate::interp::{bytes_mix_to, mixers_of, mixers_ok, string_mixes_to};
use crate::layout::{fields_model, tags_model, Builtin, Layout, UnionLayout};
use crate::env::Env;
use crate::ir::{FunctionId, Op};
use crate::laws::{
    fold_elements, fold_fields, hash_value, hashes, law_list_folds_elements, law_null_leaves_seed,
    law_pointer_tag_selects_variant, law_struct_folds_fields, law_tag_selects_variant,
    law_unwrapped_hashes_fields, lemma_fields_code_nth,
};
use crate::layout::{BuiltinModel, LayoutModel, UnionModel};
use crate::layout_ids::LayoutIds;
use crate::linking::{linked, linked_fields, linked_union, pointer_linked};
use crate::semantics::{run_function, Datum, Mixers};
use crate::shape::{
    fields_code_len, fields_hashable, generated, hashable, is_scalar, names, proc_shape,
    scalar_width, union_hashable,
};

verus! {

/// The hash of `value`, a value of `layout`, into `seed`; `ctx` is the
/// recursive union, if any, that a recursive pointer stands for. None where
/// the value is not a value of the layout.
///
/// - A number is mixed in by its bit pattern and width, a string by the
///   string mixer; an empty collection leaves the seed as it is.
/// - A struct folds the seed over its fields in declared order, a list
///   over its elements in index order.
/// - A union hashes the fields of the variant it holds, as a struct; the
///   null pointer of a nullable union leaves the seed as it is.
/// - A recursive pointer is hashed as the union it stands for.
pub open spec fn hash_of(
    mix: Mixers,
    ptr_bytes: u32,
    layout: LayoutModel,
    ctx: Option<UnionModel>,
    seed: u64,
    value: Datum,
) -> Option<u64>
    decreases value, (if layout is RecursivePointer {
            3int
        } else {
            2int
        }), 0int,
{
    match layout {
        LayoutModel::Builtin(builtin) => if is_scalar(builtin) {
            match value {
                Datum::Bytes(bytes) => Some(
                    (mix.bytes)(seed, bytes, scalar_width(builtin, ptr_bytes) as u64),
                ),
                _ => None,
            }
        } else {
            match builtin {
                BuiltinModel::Str => match value {
                    Datum::Bytes(bytes) => Some((mix.string)(seed, bytes)),
                    _ => None,
                },
                BuiltinModel::List(element) => match value {
                    Datum::List(elements) => if elements.len() <= u64::MAX {
                        fold_list(mix, ptr_bytes, *element, ctx, seed, elements, 0)
                    } else {
                        None
                    },
                    _ => None,
                },
                BuiltinModel::EmptyStr
                | BuiltinModel::EmptyList
                | BuiltinModel::EmptyDict
                | BuiltinModel::EmptySet => Some(seed),
                _ => None,
            }
        },
        LayoutModel::Struct(fields) => match value {
            Datum::Struct(vals) => hash_of_fields(mix, ptr_bytes, fields, ctx, seed, vals),
            _ => None,
        },
        LayoutModel::Union(union_layout) => match union_layout {
            UnionModel::NonRecursive(tags) => match value {
                Datum::Tagged(tag, vals) => if tag < tags.len() {
                    hash_of_fields(mix, ptr_bytes, tags[tag as int], None, seed, vals)
                } else {
                    None
                },
                _ => None,
            },
            UnionModel::Recursive(tags) => match value {
                Datum::Pointer(pointee) => match *pointee {
                    Datum::Tagged(tag, vals) => if tag < tags.len() {
                        hash_of_fields(
                            mix,
                            ptr_bytes,
                            tags[tag as int],
                            Some(union_layout),
                            seed,
                            vals,
                        )
                    } else {
                        None
                    },
                    _ => None,
                },
                _ => None,
            },
            UnionModel::NonNullableUnwrapped(fields) => match value {
                Datum::Pointer(pointee) => match *pointee {
                    Datum::Struct(vals) => hash_of_fields(
                        mix,
                        ptr_bytes,
                        fields,
                        Some(union_layout),
                        seed,
                        vals,
                    ),
                    _ => None,
                },
                _ => None,
            },
            UnionModel::NullableWrapped { other_tags, .. } => match value {
                Datum::Null => Some(seed),
                Datum::Pointer(pointee) => match *pointee {
                    Datum::Tagged(tag, vals) => if tag < other_tags.len() {
                        hash_of_fields(
                            mix,
                            ptr_bytes,
                            other_tags[tag as int],
                            Some(union_layout),
                            seed,
                            vals,
                        )
                    } else {
                        None
                    },
                    _ => None,
                },
                _ => None,
            },
            UnionModel::NullableUnwrapped { other_fields, .. } => match value {
                Datum::Null => Some(seed),
                Datum::Pointer(pointee) => match *pointee {
                    Datum::Struct(vals) => hash_of_fields(
                        mix,
                        ptr_bytes,
                        other_fields,
                        Some(union_layout),
                        seed,
                        vals,
                    ),
                    _ => None,
                },
                _ => None,
            },
        },
        LayoutModel::RecursivePointer => match ctx {
            Some(union_layout) => hash_of(
                mix,
                ptr_bytes,
                LayoutModel::Union(union_layout),
                ctx,
                seed,
                value,
            ),
            None => None,
        },
        _ => None,
    }
}

/// The hash of a struct with the given field layouts and field values: the
/// fold over the fields, if there are as many values as layouts.
pub open spec fn hash_of_fields(
    mix: Mixers,
    ptr_bytes: u32,
    fields: Seq<LayoutModel>,
    ctx: Option<UnionModel>,
    seed: u64,
    vals: Seq<Datum>,
) -> Option<u64>
    decreases vals, 1int, vals.len() + 1,
{
    if vals.len() == fields.len() {
        fold_struct(mix, ptr_bytes, fields, ctx, seed, vals, 0)
    } else {
        None
    }
}

/// The fold of the seed over the fields from position `from` on, in
/// declared order: `seed_i = hash(seed_{i-1}, field_i)`.
pub open spec fn fold_struct(
    mix: Mixers,
    ptr_bytes: u32,
    fields: Seq<LayoutModel>,
    ctx: Option<UnionModel>,
    seed: u64,
    vals: Seq<Datum>,
    from: int,
) -> Option<u64>
    decreases vals, 1int, vals.len() - from,
{
    if from < 0 || from >= vals.len() {
        Some(seed)
    } else {
        match hash_of(mix, ptr_bytes, fields[from], ctx, seed, vals[from]) {
            None => None,
            Some(next) => fold_struct(mix, ptr_bytes, fields, ctx, next, vals, from + 1),
        }
    }
}

/// The fold of the seed over the elements from position `from` on, in
/// index order.
pub open spec fn fold_list(
    mix: Mixers,
    ptr_bytes: u32,
    element: LayoutModel,
    ctx: Option<UnionModel>,
    seed: u64,
    elements: Seq<Datum>,
    from: int,
) -> Option<u64>
    decreases elements, 1int, elements.len() - from,
{
    if from < 0 || from >= elements.len() {
        Some(seed)
    } else {
        match hash_of(mix, ptr_bytes, element, ctx, seed, elements[from]) {
            None => None,
            Some(next) => fold_list(mix, ptr_bytes, element, ctx, next, elements, from + 1),
        }
    }
}

/// A number of calls and jumps that is enough to hash `value`.
pub open spec fn cost(value: Datum) -> nat
    decreases value, 0int,
{
    match value {
        Datum::Struct(vals) => 8 + costs(vals, vals.len() as int),
        Datum::Tagged(_, vals) => 16 + costs(vals, vals.len() as int),
        Datum::List(elements) => 8 + elements.len() + costs(elements, elements.len() as int),
        Datum::Pointer(pointee) => 8 + cost(*pointee),
        _ => 8,
    }
}

/// What is enough for the first `n` values together.
pub open spec fn costs(values: Seq<Datum>, n: int) -> nat
    decreases values, n,
{
    if n <= 0 || n > values.len() {
        0
    } else {
        costs(values, n - 1) + cost(values[n - 1])
    }
}

/// Whether no recursive pointer occurs in a layout.
pub open spec fn pointer_free(layout: LayoutModel) -> bool
    decreases layout, 0int,
{
    match layout {
        LayoutModel::Builtin(BuiltinModel::List(element)) => pointer_free(*element),
        LayoutModel::Struct(fields) => fields_pointer_free(fields),
        LayoutModel::Union(union_layout) => match union_layout {
            UnionModel::NonRecursive(tags) => tags_pointer_free(tags),
            UnionModel::Recursive(tags) => tags_pointer_free(tags),
            UnionModel::NonNullableUnwrapped(fields) => fields_pointer_free(fields),
            UnionModel::NullableWrapped { other_tags, .. } => tags_pointer_free(other_tags),
            UnionModel::NullableUnwrapped { other_fields, .. } => fields_pointer_free(other_fields),
        },
        LayoutModel::RecursivePointer => false,
        _ => true,
    }
}

/// Whether no recursive pointer occurs in any of the fields.
pub open spec fn fields_pointer_free(fields: Seq<LayoutModel>) -> bool
    decreases fields, 0int,
{
    forall|i: int| 0 <= i < fields.len() ==> pointer_free(#[trigger] fields[i])
}

/// Whether no recursive pointer occurs in any of the variants.
pub open spec fn tags_pointer_free(tags: Seq<Seq<LayoutModel>>) -> bool
    decreases tags, 0int,
{
    forall|j: int| 0 <= j < tags.len() ==> fields_pointer_free(#[trigger] tags[j])
}

/// The procedures of a layout without recursive pointers are linked,
/// whatever module they are in.
pub proof fn law_pointer_free_is_linked(
    env: &Env,
    ids: &LayoutIds,
    layout: LayoutModel,
    ctx: Option<UnionModel>,
)
    requires
        pointer_free(layout),
    ensures
        linked(env, ids, layout, ctx),
    decreases layout, 0int,
{
    match layout {
        LayoutModel::Builtin(BuiltinModel::List(element)) => {
            assert(pointer_free(*element));
            assert(!(*element is RecursivePointer));
            law_pointer_free_is_linked(env, ids, *element, ctx);
            assert forall|g: FunctionId|
                names(env, ids).proc_for(g, layout) && env.complete(g as int) implies #[trigger] pointer_linked(
                names(env, ids),
                env.insts(g as int, 3),
                3,
                *element,
                ctx,
            ) by {}
            assert(linked(env, ids, layout, ctx));
        },
        LayoutModel::Struct(fields) => {
            assert(fields_pointer_free(fields));
            lemma_fields_pointer_free(env, ids, fields, ctx);
            assert(linked(env, ids, layout, ctx));
        },
        LayoutModel::Union(union_layout) => {
            let own = Some(union_layout);
            match union_layout {
                UnionModel::NonRecursive(tags) => {
                    assert(tags_pointer_free(tags));
                    assert forall|j: int| 0 <= j < tags.len() implies linked_fields(
                        env,
                        ids,
                        #[trigger] tags[j],
                        None,
                    ) by {
                        assert(fields_pointer_free(tags[j]));
                        lemma_fields_pointer_free(env, ids, tags[j], None);
                    }
                },
                UnionModel::Recursive(tags) => {
                    assert(tags_pointer_free(tags));
                    assert forall|j: int| 0 <= j < tags.len() implies linked_fields(
                        env,
                        ids,
                        #[trigger] tags[j],
                        own,
                    ) by {
                        assert(fields_pointer_free(tags[j]));
                        lemma_fields_pointer_free(env, ids, tags[j], own);
                    }
                },
                UnionModel::NonNullableUnwrapped(fields) => {
                    assert(fields_pointer_free(fields));
                    lemma_fields_pointer_free(env, ids, fields, own);
                },
                UnionModel::NullableWrapped { other_tags, .. } => {
                    assert(tags_pointer_free(other_tags));
                    assert forall|j: int| 0 <= j < other_tags.len() implies linked_fields(
                        env,
                        ids,
                        #[trigger] other_tags[j],
                        own,
                    ) by {
                        assert(fields_pointer_free(other_tags[j]));
                        lemma_fields_pointer_free(env, ids, other_tags[j], own);
                    }
                },
                UnionModel::NullableUnwrapped { other_fields, .. } => {
                    assert(fields_pointer_free(other_fields));
                    lemma_fields_pointer_free(env, ids, other_fields, own);
                },
            }
            assert(linked_union(env, ids, union_layout));
            assert(linked(env, ids, layout, ctx));
        },
        _ => {
            assert(linked(env, ids, layout, ctx));
        },
    }
}

proof fn lemma_fields_pointer_free(
    env: &Env,
    ids: &LayoutIds,
    fields: Seq<LayoutModel>,
    ctx: Option<UnionModel>,
)
    requires
        fields_pointer_free(fields),
    ensures
        linked_fields(env, ids, fields, ctx),
    decreases fields, 0int,
{
    assert forall|i: int| 0 <= i < fields.len() implies linked(env, ids, #[trigger] fields[i], ctx) by {
        law_pointer_free_is_linked(env, ids, fields[i], ctx);
    }
}

/// What the theorem asks of a module, a layout and what a recursive pointer
/// stands for: the module is as code generation leaves it, the layout can
/// be hashed, and its procedures are linked.
pub open spec fn sound(
    env: &Env,
    ids: &LayoutIds,
    layout: LayoutModel,
    ctx: Option<UnionModel>,
) -> bool {
    &&& generated(env, ids)
    &&& closed(env)
    &&& hashable(layout, ctx)
    &&& linked(env, ids, layout, ctx)
    &&& ctx matches Some(w) ==> union_hashable(w) && linked_union(env, ids, w)
}

proof fn lemma_costs_cover(values: Seq<Datum>, n: int, i: int)
    requires
        0 <= i < n <= values.len(),
    ensures
        cost(values[i]) <= costs(values, n),
    decreases n,
{
    if i < n - 1 {
        lemma_costs_cover(values, n - 1, i);
    }
}

/// The field at `i` is hashed by the code as the rules say.
proof fn lemma_field_agrees(
    env: &Env,
    ids: &LayoutIds,
    mix: Mixers,
    g: FunctionId,
    fields: Seq<LayoutModel>,
    ctx: Option<UnionModel>,
    vals: Seq<Datum>,
    i: int,
    s: u64,
    fuel: nat,
)
    requires
        sound(env, ids, LayoutModel::Struct(fields), ctx),
        names(env, ids).proc_for(g, LayoutModel::Struct(fields)),
        vals.len() == fields.len(),
        0 <= i < fields.len(),
        hash_of(mix, env.ptr_bytes, fields[i], ctx, s, vals[i]) is Some,
        fuel >= 1 + costs(vals, vals.len() as int),
    ensures
        hash_value(
            env.functions(),
            mix,
            env.ptr_bytes,
            env.insts(g as int, 0),
            fields_code_len(fields, i) + 1,
            fields[i],
            s,
            vals[i],
            fuel,
        ) == hash_of(mix, env.ptr_bytes, fields[i], ctx, s, vals[i]),
    decreases cost(Datum::Struct(vals)), 0int, 0int,
{
    let fns = env.functions();
    let insts = env.insts(g as int, 0);
    let layout = fields[i];
    let p = fields_code_len(fields, i) + 1;
    assert(env.complete(g as int));
    assert(proc_shape(names(env, ids), env.ptr_bytes, env.blocks(g as int), LayoutModel::Struct(fields)));
    lemma_fields_code_nth(
        names(env, ids),
        env.ptr_bytes,
        insts,
        0,
        fields,
        None,
        fields.len() as int,
        i,
    );
    lemma_costs_cover(vals, vals.len() as int, i);
    assert(fields_hashable(fields, ctx));
    assert(hashable(layout, ctx));
    assert(linked_fields(env, ids, fields, ctx));
    assert(linked(env, ids, layout, ctx));
    assert(cost(Datum::Struct(vals)) == 8 + costs(vals, vals.len() as int));
    match layout {
        LayoutModel::RecursivePointer => {
            assert(pointer_linked(names(env, ids), insts, p, layout, ctx));
            let w = ctx->0;
            let callee = insts[p + 1]->Call_callee;
            law_procedure_computes_hash(
                env,
                ids,
                mix,
                callee,
                LayoutModel::Union(w),
                ctx,
                s,
                vals[i],
                (fuel - 1) as nat,
            );
        },
        LayoutModel::Struct(_) | LayoutModel::Union(_) => {
            let callee = insts[p]->Call_callee;
            law_procedure_computes_hash(
                env,
                ids,
                mix,
                callee,
                layout,
                ctx,
                s,
                vals[i],
                (fuel - 1) as nat,
            );
        },
        LayoutModel::Builtin(BuiltinModel::List(_)) => {
            let callee = insts[p]->Call_callee;
            law_procedure_computes_hash(
                env,
                ids,
                mix,
                callee,
                layout,
                ctx,
                s,
                vals[i],
                (fuel - 1) as nat,
            );
        },
        _ => {},
    }
}

/// The code folds the seed over the fields from `i` on as the rules say.
proof fn lemma_fields_agree(
    env: &Env,
    ids: &LayoutIds,
    mix: Mixers,
    g: FunctionId,
    fields: Seq<LayoutModel>,
    ctx: Option<UnionModel>,
    vals: Seq<Datum>,
    i: int,
    s: u64,
    fuel: nat,
)
    requires
        sound(env, ids, LayoutModel::Struct(fields), ctx),
        names(env, ids).proc_for(g, LayoutModel::Struct(fields)),
        vals.len() == fields.len(),
        0 <= i <= fields.len(),
        fold_struct(mix, env.ptr_bytes, fields, ctx, s, vals, i) is Some,
        fuel >= 1 + costs(vals, vals.len() as int),
    ensures
        fold_fields(
            env.functions(),
            mix,
            env.ptr_bytes,
            env.insts(g as int, 0),
            fields,
            vals,
            i,
            s,
            fuel,
        ) == fold_struct(mix, env.ptr_bytes, fields, ctx, s, vals, i),
    decreases cost(Datum::Struct(vals)), 1int, fields.len() - i,
{
    if i < fields.len() {
        lemma_field_agrees(env, ids, mix, g, fields, ctx, vals, i, s, fuel);
        let next = hash_of(mix, env.ptr_bytes, fields[i], ctx, s, vals[i])->0;
        lemma_fields_agree(env, ids, mix, g, fields, ctx, vals, i + 1, next, fuel);
    }
}

/// The code folds the seed over the elements from `k` on as the rules say.
proof fn lemma_elements_agree(
    env: &Env,
    ids: &LayoutIds,
    mix: Mixers,
    g: FunctionId,
    element: LayoutModel,
    ctx: Option<UnionModel>,
    elements: Seq<Datum>,
    k: int,
    s: u64,
    fuel: nat,
)
    requires
        sound(env, ids, LayoutModel::Builtin(BuiltinModel::List(Box::new(element))), ctx),
        names(env, ids).proc_for(g, LayoutModel::Builtin(BuiltinModel::List(Box::new(element)))),
        0 <= k <= elements.len(),
        fold_list(mix, env.ptr_bytes, element, ctx, s, elements, k) is Some,
        fuel >= (elements.len() - k) + 1 + costs(elements, elements.len() as int),
    ensures
        fold_elements(
            env.functions(),
            mix,
            env.ptr_bytes,
            env.insts(g as int, 3),
            element,
            elements,
            k,
            s,
            fuel,
        ) == fold_list(mix, env.ptr_bytes, element, ctx, s, elements, k),
    decreases cost(Datum::List(elements)), 1int, elements.len() - k,
{
    let layout = LayoutModel::Builtin(BuiltinModel::List(Box::new(element)));
    if k < elements.len() {
        let fns = env.functions();
        let insts = env.insts(g as int, 3);
        assert(env.complete(g as int));
        assert(proc_shape(names(env, ids), env.ptr_bytes, env.blocks(g as int), layout));
        lemma_costs_cover(elements, elements.len() as int, k);
        assert(hashable(layout, ctx));
        assert(hashable(element, ctx));
        assert(linked(env, ids, layout, ctx));
        assert(linked(env, ids, element, ctx));
        assert(cost(Datum::List(elements)) == 8 + elements.len() + costs(
            elements,
            elements.len() as int,
        ));
        match element {
            LayoutModel::RecursivePointer => {
                assert(pointer_linked(names(env, ids), insts, 3, element, ctx));
                let w = ctx->0;
                let callee = insts[4]->Call_callee;
                law_procedure_computes_hash(
                    env,
                    ids,
                    mix,
                    callee,
                    LayoutModel::Union(w),
                    ctx,
                    s,
                    elements[k],
                    (fuel - 1) as nat,
                );
            },
            LayoutModel::Struct(_) | LayoutModel::Union(_) => {
                let callee = insts[3]->Call_callee;
                law_procedure_computes_hash(
                    env,
                    ids,
                    mix,
                    callee,
                    element,
                    ctx,
                    s,
                    elements[k],
                    (fuel - 1) as nat,
                );
            },
            LayoutModel::Builtin(BuiltinModel::List(_)) => {
                let callee = insts[3]->Call_callee;
                law_procedure_computes_hash(
                    env,
                    ids,
                    mix,
                    callee,
                    element,
                    ctx,
                    s,
                    elements[k],
                    (fuel - 1) as nat,
                );
            },
            _ => {},
        }
        let next = hash_of(mix, env.ptr_bytes, element, ctx, s, elements[k])->0;
        lemma_elements_agree(
            env,
            ids,
            mix,
            g,
            element,
            ctx,
            elements,
            k + 1,
            next,
            (fuel - 1) as nat,
        );
    }
}

/// The fields of a variant are hashed by the code as the rules say.
proof fn lemma_variant_agrees(
    env: &Env,
    ids: &LayoutIds,
    mix: Mixers,
    union_layout: UnionModel,
    callee: FunctionId,
    fields: Seq<LayoutModel>,
    ctx: Option<UnionModel>,
    seed: u64,
    vals: Seq<Datum>,
    fuel: nat,
    bound: nat,
)
    requires
        generated(env, ids),
        closed(env),
        union_hashable(union_layout),
        linked_union(env, ids, union_layout),
        ctx == if union_layout is NonRecursive {
            None
        } else {
            Some(union_layout)
        },
        fields_hashable(fields, ctx),
        linked_fields(env, ids, fields, ctx),
        names(env, ids).proc_for(callee, LayoutModel::Struct(fields)),
        hash_of_fields(mix, env.ptr_bytes, fields, ctx, seed, vals) is Some,
        fuel >= 8 + costs(vals, vals.len() as int),
        bound > 8 + costs(vals, vals.len() as int),
    ensures
        run_function(env.functions(), mix, callee as int, seed, Datum::Struct(vals), fuel)
            == hash_of_fields(mix, env.ptr_bytes, fields, ctx, seed, vals),
    decreases bound, 0int, 0int,
{
    let layout = LayoutModel::Struct(fields);
    assert(hashable(layout, ctx));
    assert(linked(env, ids, layout, ctx));
    assert(sound(env, ids, layout, ctx));
    assert(cost(Datum::Struct(vals)) == 8 + costs(vals, vals.len() as int));
    assert(hash_of(mix, env.ptr_bytes, layout, ctx, seed, Datum::Struct(vals)) == hash_of_fields(
        mix,
        env.ptr_bytes,
        fields,
        ctx,
        seed,
        vals,
    ));
    law_procedure_computes_hash(env, ids, mix, callee, layout, ctx, seed, Datum::Struct(vals), fuel);
}

/// The procedure of a union computes the hash of every value of the union.
proof fn lemma_union_agrees(
    env: &Env,
    ids: &LayoutIds,
    mix: Mixers,
    g: FunctionId,
    union_layout: UnionModel,
    ctx: Option<UnionModel>,
    seed: u64,
    value: Datum,
    fuel: nat,
)
    requires
        sound(env, ids, LayoutModel::Union(union_layout), ctx),
        hashes(env, ids, g, LayoutModel::Union(union_layout)),
        hash_of(mix, env.ptr_bytes, LayoutModel::Union(union_layout), ctx, seed, value) is Some,
        fuel >= cost(value),
    ensures
        run_function(env.functions(), mix, g as int, seed, value, fuel) == hash_of(
            mix,
            env.ptr_bytes,
            LayoutModel::Union(union_layout),
            ctx,
            seed,
            value,
        ),
    decreases cost(value), 1int, 0int,
{
    let own = Some(union_layout);
    let layout = LayoutModel::Union(union_layout);
    assert(union_hashable(union_layout));
    assert(linked_union(env, ids, union_layout));
    match union_layout {
        UnionModel::NonRecursive(tags) => {
            let tag = value->Tagged_0;
            let vals = value->Tagged_1;
            assert(cost(value) == 16 + costs(vals, vals.len() as int));
            assert(crate::shape::tags_hashable(tags, None));
            assert(fields_hashable(tags[tag as int], None));
            assert(linked_fields(env, ids, tags[tag as int], None));
            let callee = law_tag_selects_variant(env, ids, mix, g, tags, seed, tag, vals, fuel);
            lemma_variant_agrees(
                env,
                ids,
                mix,
                union_layout,
                callee,
                tags[tag as int],
                None,
                seed,
                vals,
                (fuel - 3) as nat,
                cost(value),
            );
        },
        UnionModel::Recursive(tags) => {
            let pointee = *value->Pointer_0;
            let tag = pointee->Tagged_0;
            let vals = pointee->Tagged_1;
            assert(cost(value) == 8 + cost(pointee));
            assert(cost(pointee) == 16 + costs(vals, vals.len() as int));
            assert(crate::shape::tags_hashable(tags, own));
            assert(fields_hashable(tags[tag as int], own));
            assert(linked_fields(env, ids, tags[tag as int], own));
            let callee = law_pointer_tag_selects_variant(
                env,
                ids,
                mix,
                g,
                union_layout,
                seed,
                tag,
                vals,
                fuel,
            );
            lemma_variant_agrees(
                env,
                ids,
                mix,
                union_layout,
                callee,
                tags[tag as int],
                own,
                seed,
                vals,
                (fuel - 3) as nat,
                cost(value),
            );
        },
        UnionModel::NullableWrapped { other_tags, .. } => {
            if value is Null {
                law_null_leaves_seed(env, ids, mix, g, union_layout, seed, fuel);
            } else {
                let pointee = *value->Pointer_0;
                let tag = pointee->Tagged_0;
                let vals = pointee->Tagged_1;
                assert(cost(value) == 8 + cost(pointee));
                assert(cost(pointee) == 16 + costs(vals, vals.len() as int));
                assert(crate::shape::tags_hashable(other_tags, own));
                assert(fields_hashable(other_tags[tag as int], own));
                assert(linked_fields(env, ids, other_tags[tag as int], own));
                let callee = law_pointer_tag_selects_variant(
                    env,
                    ids,
                    mix,
                    g,
                    union_layout,
                    seed,
                    tag,
                    vals,
                    fuel,
                );
                lemma_variant_agrees(
                    env,
                    ids,
                    mix,
                    union_layout,
                    callee,
                    other_tags[tag as int],
                    own,
                    seed,
                    vals,
                    (fuel - 4) as nat,
                    cost(value),
                );
            }
        },
        UnionModel::NullableUnwrapped { other_fields, .. } => {
            if value is Null {
                law_null_leaves_seed(env, ids, mix, g, union_layout, seed, fuel);
            } else {
                let pointee = *value->Pointer_0;
                let vals = pointee->Struct_0;
                assert(cost(value) == 8 + cost(pointee));
                assert(cost(pointee) == 8 + costs(vals, vals.len() as int));
                assert(fields_hashable(other_fields, own));
                assert(linked_fields(env, ids, other_fields, own));
                let callee = law_unwrapped_hashes_fields(
                    env,
                    ids,
                    mix,
                    g,
                    union_layout,
                    seed,
                    vals,
                    fuel,
                );
                lemma_variant_agrees(
                    env,
                    ids,
                    mix,
                    union_layout,
                    callee,
                    other_fields,
                    own,
                    seed,
                    vals,
                    (fuel - 3) as nat,
                    cost(value),
                );
            }
        },
        UnionModel::NonNullableUnwrapped(fields) => {
            let pointee = *value->Pointer_0;
            let vals = pointee->Struct_0;
            assert(cost(value) == 8 + cost(pointee));
            assert(cost(pointee) == 8 + costs(vals, vals.len() as int));
            assert(fields_hashable(fields, own));
            assert(linked_fields(env, ids, fields, own));
            let callee = law_unwrapped_hashes_fields(
                env,
                ids,
                mix,
                g,
                union_layout,
                seed,
                vals,
                fuel,
            );
            lemma_variant_agrees(
                env,
                ids,
                mix,
                union_layout,
                callee,
                fields,
                own,
                seed,
                vals,
                (fuel - 2) as nat,
                cost(value),
            );
        },
    }
}

/// The hash procedure of a layout computes the hash of every value of the
/// layout: run on a seed and a value with enough calls and jumps allowed,
/// it returns [`hash_of`] for them, provided the procedures are linked, as
/// `generic_hash` leaves them for an unambiguous layout.
pub proof fn law_procedure_computes_hash(
    env: &Env,
    ids: &LayoutIds,
    mix: Mixers,
    g: FunctionId,
    layout: LayoutModel,
    ctx: Option<UnionModel>,
    seed: u64,
    value: Datum,
    fuel: nat,
)
    requires
        sound(env, ids, layout, ctx),
        names(env, ids).proc_for(g, layout),
        hash_of(mix, env.ptr_bytes, layout, ctx, seed, value) is Some,
        fuel >= cost(value),
    ensures
        run_function(env.functions(), mix, g as int, seed, value, fuel) == hash_of(
            mix,
            env.ptr_bytes,
            layout,
            ctx,
            seed,
            value,
        ),
    decreases cost(value), 2int, 0int,
{
    assert(env.complete(g as int));
    assert(hashes(env, ids, g, layout));
    assert(proc_shape(names(env, ids), env.ptr_bytes, env.blocks(g as int), layout));
    match layout {
        LayoutModel::Struct(fields) => {
            let vals = value->Struct_0;
            assert(value is Struct);
            assert(hash_of(mix, env.ptr_bytes, layout, ctx, seed, value) == hash_of_fields(
                mix,
                env.ptr_bytes,
                fields,
                ctx,
                seed,
                vals,
            ));
            assert(vals.len() == fields.len());
            assert(fields_hashable(fields, ctx));
            assert(cost(value) == 8 + costs(vals, vals.len() as int));
            law_struct_folds_fields(env, ids, mix, g, fields, seed, vals, fuel);
            lemma_fields_agree(env, ids, mix, g, fields, ctx, vals, 0, seed, (fuel - 1) as nat);
        },
        LayoutModel::Builtin(BuiltinModel::List(element)) => {
            let elements = value->List_0;
            assert(value is List);
            assert(elements.len() <= u64::MAX);
            assert(hash_of(mix, env.ptr_bytes, layout, ctx, seed, value) == fold_list(
                mix,
                env.ptr_bytes,
                *element,
                ctx,
                seed,
                elements,
                0,
            ));
            assert(cost(value) == 8 + elements.len() + costs(elements, elements.len() as int));
            law_list_folds_elements(env, ids, mix, g, *element, seed, elements, fuel);
            lemma_elements_agree(
                env,
                ids,
                mix,
                g,
                *element,
                ctx,
                elements,
                0,
                seed,
                (fuel - 3) as nat,
            );
        },
        LayoutModel::Union(union_layout) => {
            lemma_union_agrees(env, ids, mix, g, union_layout, ctx, seed, value, fuel);
        },
        _ => {},
    }
}

/// What `generic_hash` emits for a struct, a union or a list computes the
/// hash of every value of the layout: the procedure that the emitted call
/// names returns [`hash_of`], provided the module was closed and the
/// procedures are linked, as `generic_hash` leaves them for an unambiguous
/// layout and as those of a layout without recursive pointers always are.
pub proof fn law_generic_hash_computes_hash(
    old_env: &Env,
    old_ids: &LayoutIds,
    env: &Env,
    ids: &LayoutIds,
    layout: LayoutModel,
    seed_v: crate::ir::Value,
    val_v: crate::ir::Value,
    r: crate::ir::Value,
    mix: Mixers,
    seed: u64,
    value: Datum,
    fuel: nat,
) -> (callee: FunctionId)
    requires
        crate::build_hash::hashed(old_env, old_ids, env, ids, layout, None, seed_v, val_v, r),
        closed(env),
        hashable(layout, None),
        crate::shape::code_len(layout) == 1,
        linked(env, ids, layout, None) || pointer_free(layout),
        hash_of(mix, env.ptr_bytes, layout, None, seed, value) is Some,
        fuel >= cost(value),
    ensures
        env.here()[old_env.here().len() as int] == (Op::Call { callee, seed: seed_v, value: val_v }),
        hashes(env, ids, callee, layout),
        run_function(env.functions(), mix, callee as int, seed, value, fuel) == hash_of(
            mix,
            env.ptr_bytes,
            layout,
            None,
            seed,
            value,
        ),
{
    let op = env.here()[old_env.here().len() as int];
    let callee = op->Call_callee;
    if pointer_free(layout) {
        law_pointer_free_is_linked(env, ids, layout, None);
    }
    assert(names(env, ids).proc_for(callee, layout));
    law_procedure_computes_hash(env, ids, mix, callee, layout, None, seed, value, fuel);
    callee
}

/// Computes the hash of a sample value by the rules alone, with the two
/// mixing primitives given as functions; `None` where the value is not a
/// value of the layout.
#[verifier::loop_isolation(false)]
pub fn hash_data<MB: Fn(u64, &Vec<u8>, u64) -> u64, MS: Fn(u64, &Vec<u8>) -> u64>(
    mix_bytes: &MB,
    mix_string: &MS,
    ptr_bytes: u32,
    layout: &Layout,
    when_recursive: WhenRecursive<'_>,
    seed: u64,
    value: &Data,
) -> (r: Option<u64>)
    requires
        mixers_ok(*mix_bytes, *mix_string),
    ensures
        r == hash_of(
            mixers_of(*mix_bytes, *mix_string),
            ptr_bytes,
            layout@,
            when_recursive@,
            seed,
            value@,
        ),
    decreases *value, (if layout@ is RecursivePointer {
            3int
        } else {
            2int
        }),
{
    let ghost m = mixers_of(*mix_bytes, *mix_string);
    proof {
        reveal_with_fuel(data_model, 3);
        assert(usize::MAX <= u64::MAX);
    }
    match layout {
        Layout::Builtin(builtin) => match builtin {
            Builtin::Int128
            | Builtin::Int64
            | Builtin::Int32
            | Builtin::Int16
            | Builtin::Int8
            | Builtin::Int1
            | Builtin::Usize
            | Builtin::Float128
            | Builtin::Float64
            | Builtin::Float32
            | Builtin::Float16 => match value {
                Data::Bytes(bytes) => {
                    let width = builtin.stack_size(ptr_bytes) as u64;
                    let r = mix_bytes(seed, bytes, width);
                    proof {
                        assert(call_ensures(*mix_bytes, (seed, bytes, width), r));
                        assert(bytes_mix_to(*mix_bytes, seed, bytes@, width, r));
                        assert((m.bytes)(seed, bytes@, width) == r);
                    }
                    Some(r)
                },
                _ => None,
            },
            Builtin::Str => match value {
                Data::Bytes(bytes) => {
                    let r = mix_string(seed, bytes);
                    proof {
                        assert(call_ensures(*mix_string, (seed, bytes), r));
                        assert(string_mixes_to(*mix_string, seed, bytes@, r));
                        assert((m.string)(seed, bytes@) == r);
                    }
                    Some(r)
                },
                _ => None,
            },
            Builtin::List(element) => match value {
                Data::List(elements) => {
                    let mut s = seed;
                    let mut k: usize = 0;
                    while k < elements.len()
                        invariant
                            k <= elements@.len(),
                            mixers_ok(*mix_bytes, *mix_string),
                            m == mixers_of(*mix_bytes, *mix_string),
                            value == &Data::List(*elements),
                            fold_list(
                                m,
                                ptr_bytes,
                                element@,
                                when_recursive@,
                                seed,
                                data_models(*elements),
                                0,
                            ) == fold_list(
                                m,
                                ptr_bytes,
                                element@,
                                when_recursive@,
                                s,
                                data_models(*elements),
                                k as int,
                            ),
                        decreases elements@.len() - k,
                    {
                        assert(data_models(*elements)[k as int] == elements[k as int]@);
                        match hash_data(
                            mix_bytes,
                            mix_string,
                            ptr_bytes,
                            element,
                            when_recursive,
                            s,
                            &elements[k],
                        ) {
                            None => {
                                return None;
                            },
                            Some(next) => {
                                s = next;
                            },
                        }
                        k += 1;
                    }
                    Some(s)
                },
                _ => None,
            },
            Builtin::EmptyStr | Builtin::EmptyList | Builtin::EmptyDict | Builtin::EmptySet => Some(
                seed,
            ),
            Builtin::Dict | Builtin::SetLayout => None,
        },
        Layout::Struct(fields) => match value {
            Data::Struct(vals) => hash_fields(
                mix_bytes,
                mix_string,
                ptr_bytes,
                fields,
                when_recursive,
                seed,
                vals,
            ),
            _ => None,
        },
        Layout::Union(union_layout) => {
            let own = WhenRecursive::Loop(union_layout);
            match union_layout {
                UnionLayout::NonRecursive(tags) => match value {
                    Data::Tagged(tag, vals) => if *tag < tags.len() as u64 {
                        assert(tags_model(*tags)[*tag as int] == fields_model(tags[*tag as int]));
                        hash_fields(
                            mix_bytes,
                            mix_string,
                            ptr_bytes,
                            &tags[*tag as usize],
                            WhenRecursive::Unreachable,
                            seed,
                            vals,
                        )
                    } else {
                        None
                    },
                    _ => None,
                },
                UnionLayout::Recursive(tags) => match value {
                    Data::Pointer(pointee) => match &**pointee {
                        Data::Tagged(tag, vals) => if *tag < tags.len() as u64 {
                            assert(tags_model(*tags)[*tag as int] == fields_model(tags[*tag as int]));
                            hash_fields(
                                mix_bytes,
                                mix_string,
                                ptr_bytes,
                                &tags[*tag as usize],
                                own,
                                seed,
                                vals,
                            )
                        } else {
                            None
                        },
                        _ => None,
                    },
                    _ => None,
                },
                UnionLayout::NonNullableUnwrapped(fields) => match value {
                    Data::Pointer(pointee) => match &**pointee {
                        Data::Struct(vals) => hash_fields(
                            mix_bytes,
                            mix_string,
                            ptr_bytes,
                            fields,
                            own,
                            seed,
                            vals,
                        ),
                        _ => None,
                    },
                    _ => None,
                },
                UnionLayout::NullableWrapped { other_tags, .. } => match value {
                    Data::Null => Some(seed),
                    Data::Pointer(pointee) => match &**pointee {
                        Data::Tagged(tag, vals) => if *tag < other_tags.len() as u64 {
                            assert(tags_model(*other_tags)[*tag as int] == fields_model(
                                other_tags[*tag as int],
                            ));
                            hash_fields(
                                mix_bytes,
                                mix_string,
                                ptr_bytes,
                                &other_tags[*tag as usize],
                                own,
                                seed,
                                vals,
                            )
                        } else {
                            None
                        },
                        _ => None,
                    },
                    _ => None,
                },
                UnionLayout::NullableUnwrapped { other_fields, .. } => match value {
                    Data::Null => Some(seed),
                    Data::Pointer(pointee) => match &**pointee {
                        Data::Struct(vals) => hash_fields(
                            mix_bytes,
                            mix_string,
                            ptr_bytes,
                            other_fields,
                            own,
                            seed,
                            vals,
                        ),
                        _ => None,
                    },
                    _ => None,
                },
            }
        },
        Layout::RecursivePointer => match when_recursive {
            WhenRecursive::Unreachable => None,
            WhenRecursive::Loop(union_layout) => {
                let layout = Layout::Union(crate::layout::union_clone(union_layout));
                hash_data(mix_bytes, mix_string, ptr_bytes, &layout, when_recursive, seed, value)
            },
        },
        Layout::FunctionPointer | Layout::Closure => None,
    }
}

/// Folds the seed over the fields of a struct, in declared order.
#[verifier::loop_isolation(false)]
fn hash_fields<MB: Fn(u64, &Vec<u8>, u64) -> u64, MS: Fn(u64, &Vec<u8>) -> u64>(
    mix_bytes: &MB,
    mix_string: &MS,
    ptr_bytes: u32,
    fields: &Vec<Layout>,
    when_recursive: WhenRecursive<'_>,
    seed: u64,
    vals: &Vec<Data>,
) -> (r: Option<u64>)
    requires
        mixers_ok(*mix_bytes, *mix_string),
    ensures
        r == hash_of_fields(
            mixers_of(*mix_bytes, *mix_string),
            ptr_bytes,
            fields_model(*fields),
            when_recursive@,
            seed,
            data_models(*vals),
        ),
    decreases *vals, 1int,
{
    if vals.len() != fields.len() {
        return None;
    }
    let ghost m = mixers_of(*mix_bytes, *mix_string);
    let mut s = seed;
    let mut i: usize = 0;
    while i < vals.len()
        invariant
            i <= vals@.len(),
            vals@.len() == fields@.len(),
            mixers_ok(*mix_bytes, *mix_string),
            m == mixers_of(*mix_bytes, *mix_string),
            fold_struct(
                m,
                ptr_bytes,
                fields_model(*fields),
                when_recursive@,
                seed,
                data_models(*vals),
                0,
            ) == fold_struct(
                m,
                ptr_bytes,
                fields_model(*fields),
                when_recursive@,
                s,
                data_models(*vals),
                i as int,
            ),
        decreases vals@.len() - i,
    {
        assert(data_models(*vals)[i as int] == vals[i as int]@);
        assert(fields_model(*fields)[i as int] == fields[i as int]@);
        match hash_data(mix_bytes, mix_string, ptr_bytes, &fields[i], when_recursive, s, &vals[i]) {
            None => {
                return None;
            },
            Some(next) => {
                s = next;
            },
        }
        i += 1;
    }
    Some(s)
}

} // verus!
