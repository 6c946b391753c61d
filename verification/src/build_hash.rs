//! Emitting the code that hashes a value of a given layout.

use vstd::prelude::*;
use vstd::pervasive::unreached;
use bumpalo::collections::Vec as BumpVec;
use bumpalo::Bump;
use crate::bump::{
    cases_as_slice, cases_limit, cases_of, cases_pop, cases_push, cases_with_capacity_in,
};
use crate::env::Env;
use crate::ir::{BasicBlock, BasicType, FnName, FunctionId, PhiValue, Value};
use crate::layout::{
    fields_clone, fields_model, tags_model, union_clone, Builtin,
    BuiltinModel, Layout, LayoutModel, UnionLayout, UnionModel,
};
use crate::layout_ids::LayoutIds;
use crate::linking::{
    lemma_on_track_completed, lemma_on_track_kept, lemma_struct_pointers_linked,
    lemma_within_element, lemma_within_field, lemma_within_union_any, lemma_within_variant, linked,
    added_within, on_track, tracks, unambiguous, variants, Top,
};
use crate::lemmas::{
    branches_built, branches_ready, branches_upto, lemma_added_complete_trans,
    lemma_branches_kept, lemma_branches_step, lemma_emits_trans, lemma_fields_code_kept,
    lemma_fields_code_len_nonneg, lemma_generated_kept, lemma_layout_code_kept,
    lemma_list_blocks_kept, lemma_union_blocks_kept, lemma_union_complete,
};
use crate::measure::{
    effort, fields_size, layout_size, lemma_field_smaller, lemma_registered_kept,
    lemma_tag_smaller, registered, tags_size, union_size,
};
use crate::reject::{check_layout, law_rejection_decides_hashable, rejection, HashError};
use crate::shape::{
    code_len, code_result, fields_code_at, fields_code_len, fields_hashable, fields_seed,
    generated, hashable, inst, layout_code_at, list_blocks, names, ptr_to_struct_at, struct_proc,
    tags_hashable, union_blocks, union_hashable,
};

verus! {

/// What a recursive pointer stands for where code is being generated.
#[derive(Clone, Copy, Debug)]
pub enum WhenRecursive<'a> {
    /// No recursive union encloses this place.
    Unreachable,
    /// The fields of this recursive union are being hashed.
    Loop(&'a UnionLayout),
}

impl<'a> View for WhenRecursive<'a> {
    type V = Option<UnionModel>;

    open spec fn view(&self) -> Option<UnionModel> {
        match self {
            WhenRecursive::Unreachable => None,
            WhenRecursive::Loop(union_layout) => Some(union_layout@),
        }
    }
}

/// Code can be emitted: the builder stands in an open block, the module is
/// as code generation keeps it, and the union that a recursive pointer
/// stands for has its procedure.
pub open spec fn ready(env: &Env, ids: &LayoutIds, ctx: Option<UnionModel>) -> bool {
    &&& env.positioned()
    &&& generated(env, ids)
    &&& ctx matches Some(u) ==> union_hashable(u) && registered(
        names(env, ids),
        LayoutModel::Union(u),
    )
}

/// What held of the union that a recursive pointer stands for still holds
/// after the module and the table of layout ids grew.
pub(crate) proof fn lemma_ready_kept(
    old_env: &Env,
    old_ids: &LayoutIds,
    env: &Env,
    ids: &LayoutIds,
    ctx: Option<UnionModel>,
)
    requires
        ctx matches Some(u) ==> union_hashable(u) && registered(
            names(old_env, old_ids),
            LayoutModel::Union(u),
        ),
        names(old_env, old_ids).kept_by(names(env, ids)),
        ready(env, ids, None),
    ensures
        ready(env, ids, ctx),
{
    if let Some(u) = ctx {
        lemma_registered_kept(names(old_env, old_ids), names(env, ids), LayoutModel::Union(u));
    }
}

/// Every hash procedure of the module is complete: none is still being
/// generated.
pub open spec fn closed(env: &Env) -> bool {
    forall|g: int|
        env.has_function(g) && (#[trigger] env.functions()[g]).name is GenericHash ==> env.complete(g)
}

/// `env` and `ids` are `old_env` and `old_ids` after the code that hashes
/// `val`, a value of `layout`, into `seed` was emitted where the builder
/// stands, with `r` the seed that comes out:
/// - the instructions that hash the value were appended where the builder
///   stands, complete procedures may have been added, and nothing else has
///   changed;
/// - every layout has the id it had;
/// - code can be emitted as before;
/// - the appended instructions are the code for the layout;
/// - `r` is their result, or the seed itself where there are none;
/// - a layout that had its procedure got no other: nothing was generated;
/// - only a struct, a union or a list has procedures generated.
pub open spec fn hashed(
    old_env: &Env,
    old_ids: &LayoutIds,
    env: &Env,
    ids: &LayoutIds,
    layout: LayoutModel,
    ctx: Option<UnionModel>,
    seed: Value,
    val: Value,
    r: Value,
) -> bool {
    &&& old_env.emits(env, code_len(layout))
    &&& old_ids.kept_by(ids)
    &&& ready(env, ids, ctx)
    &&& layout_code_at(
        names(env, ids),
        env.ptr_bytes,
        env.here(),
        env.at().index,
        old_env.here().len() as int,
        layout,
        ctx,
        seed,
        val,
    )
    &&& r == code_result(layout, env.at().index, old_env.here().len() as int, seed)
    &&& code_len(layout) == 1 && registered(names(old_env, old_ids), layout)
        ==> env.functions().len() == old_env.functions().len() && ids@ == old_ids@
    &&& code_len(layout) != 1 ==> env.functions().len() == old_env.functions().len()
}

/// A layout that has its hash procedure is found again: its id is the one
/// in the procedure's name.
pub(crate) proof fn lemma_registered_found(
    env: &Env,
    old_ids: &LayoutIds,
    ids: &LayoutIds,
    id: usize,
    layout: LayoutModel,
)
    requires
        registered(names(env, old_ids), layout),
        old_ids.kept_by(ids),
        ids.wf(),
        ids.names(id, layout),
    ensures
        env.has_name(FnName::GenericHash(id)),
        old_ids.contains(layout),
{
    let g = choose|g: usize| names(env, old_ids).proc_for(g, layout);
    let i = env.functions()[g as int].name->GenericHash_0;
    assert(ids@[i as int] == old_ids@[i as int]);
    assert(i == id);
    assert(env.has_function(g as int) && env.functions()[g as int].name == FnName::GenericHash(id));
    assert(old_ids@[i as int] == layout);
}

/// The type in which values of `layout` are held.
pub fn basic_type_from_layout(layout_ids: &mut LayoutIds, layout: &Layout) -> (ty: BasicType)
    requires
        old(layout_ids).wf(),
    ensures
        final(layout_ids).wf(),
        old(layout_ids).kept_by(final(layout_ids)),
        ty matches BasicType::Layout(id) && final(layout_ids).names(id, layout@),
        old(layout_ids).grown_by(final(layout_ids), layout@),
{
    BasicType::Layout(layout_ids.get(layout))
}

/// The type of pointers to values of `layout`.
pub fn pointer_type_from_layout(layout_ids: &mut LayoutIds, layout: &Layout) -> (ty: BasicType)
    requires
        old(layout_ids).wf(),
    ensures
        final(layout_ids).wf(),
        old(layout_ids).kept_by(final(layout_ids)),
        ty matches BasicType::LayoutPointer(id) && final(layout_ids).names(id, layout@),
        old(layout_ids).grown_by(final(layout_ids), layout@),
{
    BasicType::LayoutPointer(layout_ids.get(layout))
}

/// A module to generate into: one procedure, called `FnName::Other(0)`,
/// with the builder at the end of its only block, and no layout that has
/// an id yet.
pub fn start<'a>(arena: &'a Bump, ptr_bytes: u32) -> (r: (Env<'a>, LayoutIds))
    ensures
        ready(&r.0, &r.1, None),
        closed(&r.0),
        forall|layout: LayoutModel| #[trigger] linked(&r.0, &r.1, layout, None),
        r.0.ptr_bytes == ptr_bytes,
        r.0.functions().len() == 1,
        r.0.functions()[0].name == FnName::Other(0),
        r.0.at() == (BasicBlock { function: 0, index: 0 }),
        r.0.blocks(0).len() == 1,
        r.0.here().len() == 0,
        r.1@.len() == 0,
{
    let mut env = Env::new(arena, ptr_bytes);
    let host = env.build_header_help(FnName::Other(0), BasicType::I64);
    let entry = env.append_basic_block(host);
    env.position_at_end(entry);
    let layout_ids = LayoutIds::new();
    proof {
        assert forall|layout: LayoutModel| #[trigger] linked(&env, &layout_ids, layout, None) by {
            crate::linking::law_nothing_generated_is_linked(&env, &layout_ids, layout, None);
        }
    }
    (env, layout_ids)
}

/// Emits the code that hashes `val`, a value of `layout`, into `seed`, if
/// the layout can be hashed, and says why not if it cannot; then nothing is
/// emitted.
pub fn try_generic_hash<'a>(
    env: &mut Env<'a>,
    layout_ids: &mut LayoutIds,
    seed: Value,
    val: Value,
    layout: &Layout,
) -> (r: Result<Value, HashError>)
    requires
        ready(old(env), old(layout_ids), None),
    ensures
        match rejection(layout@, None) {
            None => r matches Ok(v) && hashed(
                old(env),
                old(layout_ids),
                final(env),
                final(layout_ids),
                layout@,
                None,
                seed,
                val,
                v,
            ) && (closed(old(env)) ==> closed(final(env))) && added_within(
                old(env),
                old(layout_ids),
                final(env),
                final(layout_ids),
                layout@,
            ) && (unambiguous(layout@) && linked(
                old(env),
                old(layout_ids),
                layout@,
                None,
            ) ==> linked(final(env), final(layout_ids), layout@, None)),
            Some(e) => {
                &&& r == Err::<Value, HashError>(e)
                &&& *final(env) == *old(env)
                &&& final(layout_ids)@ == old(layout_ids)@
            },
        },
{
    proof {
        law_rejection_decides_hashable(layout@, None);
    }
    match check_layout(layout, WhenRecursive::Unreachable) {
        Err(e) => Err(e),
        Ok(()) => Ok(generic_hash(env, layout_ids, seed, val, layout)),
    }
}

/// Emits the code that hashes `val`, a value of `layout`, into `seed`, and
/// returns the seed that comes out. Where the layout is a struct, a union
/// or a list, its hash procedure is generated first unless the module has
/// it already, and with it those of its parts that the module lacks. No
/// other procedure is added, and none at all for another kind of layout;
/// only the layout and its parts get an id.
pub fn generic_hash<'a>(
    env: &mut Env<'a>,
    layout_ids: &mut LayoutIds,
    seed: Value,
    val: Value,
    layout: &Layout,
) -> (r: Value)
    requires
        ready(old(env), old(layout_ids), None),
        hashable(layout@, None),
    ensures
        hashed(old(env), old(layout_ids), final(env), final(layout_ids), layout@, None, seed, val, r),
        closed(old(env)) ==> closed(final(env)),
        added_within(old(env), old(layout_ids), final(env), final(layout_ids), layout@),
        unambiguous(layout@) && linked(old(env), old(layout_ids), layout@, None) ==> linked(
            final(env),
            final(layout_ids),
            layout@,
            None,
        ),
{
    // NOTE: C and Zig use this value for their initial HashMap seed: 0xc70f6907
    let ghost top = Top {
        layout: layout@,
        start: old(env).functions().len(),
        ids_start: old(layout_ids)@.len(),
        strict: unambiguous(layout@) && linked(old(env), old(layout_ids), layout@, None),
    };
    let r = build_hash_layout(
        env,
        layout_ids,
        seed,
        val,
        layout,
        WhenRecursive::Unreachable,
        Ghost(top),
    );
    proof {
        if closed(old(env)) {
            let f = old(env).at().function as int;
            assert forall|g: int|
                env.has_function(g) && (#[trigger] env.functions()[g]).name
                    is GenericHash implies env.complete(g) by {
                if g < old(env).functions().len() {
                    if g != f {
                        assert(env.functions()[g] == old(env).functions()[g]);
                        assert(old(env).complete(g));
                    } else {
                        assert(old(env).functions()[f].name is GenericHash);
                        assert(old(env).complete(f));
                        assert(old(env).blocks(f)[old(env).at().index as int].terminator is Some);
                    }
                }
            }
        }
    }
    r
}

fn build_hash_layout<'a>(
    env: &mut Env<'a>,
    layout_ids: &mut LayoutIds,
    seed: Value,
    val: Value,
    layout: &Layout,
    when_recursive: WhenRecursive<'_>,
    Ghost(top): Ghost<Top>,
) -> (r: Value)
    requires
        on_track(old(env), old(layout_ids), top),
        tracks(top, layout@, when_recursive@),
        ready(old(env), old(layout_ids), when_recursive@),
        hashable(layout@, when_recursive@),
    ensures
        on_track(final(env), final(layout_ids), top),
        hashed(
            old(env),
            old(layout_ids),
            final(env),
            final(layout_ids),
            layout@,
            when_recursive@,
            seed,
            val,
            r,
        ),
    decreases effort(names(old(env), old(layout_ids)), layout@), 8int,
{
    let ghost env0 = *env;
    let ghost ids0 = *layout_ids;
    match layout {
        Layout::Builtin(builtin) => hash_builtin(
            env,
            layout_ids,
            seed,
            val,
            layout,
            builtin,
            when_recursive,
            Ghost(top),
        ),
        Layout::Struct(fields) => build_hash_struct(
            env,
            layout_ids,
            fields,
            when_recursive,
            seed,
            val,
            Ghost(top),
        ),
        Layout::Union(union_layout) => {
            proof {
                lemma_within_union_any(top.layout, None, union_layout@, when_recursive@, None);
            }
            let r = build_hash_tag(env, layout_ids, union_layout, seed, val, Ghost(top));
            proof {
                lemma_ready_kept(&env0, &ids0, env, layout_ids, when_recursive@);
            }
            r
        },
        Layout::RecursivePointer => match when_recursive {
            WhenRecursive::Unreachable => unreached(),
            WhenRecursive::Loop(union_layout) => {
                let layout = Layout::Union(union_clone(union_layout));
                let bt = basic_type_from_layout(layout_ids, &layout);
                let ghost ids1 = *layout_ids;
                // cast the i64 pointer to a pointer to block of memory
                let field_cast = env.build_bitcast(val, bt);
                proof {
                    lemma_generated_kept(&env0, &ids0, env, layout_ids, env0.at().function as int);
                    lemma_on_track_kept(&env0, &ids0, env, layout_ids, env0.at().function as int, top);
                    lemma_registered_kept(names(&env0, &ids0), names(env, layout_ids), layout@);
                }
                let ghost env1 = *env;
                let r = build_hash_tag(env, layout_ids, union_layout, seed, field_cast, Ghost(top));
                proof {
                    lemma_emits_trans(&env0, &env1, env, 1, 1);
                    lemma_ready_kept(&env0, &ids0, env, layout_ids, when_recursive@);
                    assert(env.here()[env0.here().len() as int] == env1.here()[env0.here().len() as int]);
                }
                r
            },
        },
        Layout::FunctionPointer | Layout::Closure => unreached(),
    }
}

fn append_hash_layout<'a>(
    env: &mut Env<'a>,
    layout_ids: &mut LayoutIds,
    seed: Value,
    val: Value,
    layout: &Layout,
    when_recursive: WhenRecursive<'_>,
    Ghost(top): Ghost<Top>,
) -> (r: Value)
    requires
        on_track(old(env), old(layout_ids), top),
        tracks(top, layout@, when_recursive@),
        ready(old(env), old(layout_ids), when_recursive@),
        hashable(layout@, when_recursive@),
    ensures
        on_track(final(env), final(layout_ids), top),
        hashed(
            old(env),
            old(layout_ids),
            final(env),
            final(layout_ids),
            layout@,
            when_recursive@,
            seed,
            val,
            r,
        ),
    decreases effort(names(old(env), old(layout_ids)), layout@), 9int,
{
    build_hash_layout(env, layout_ids, seed, val, layout, when_recursive, Ghost(top))
}

fn hash_builtin<'a>(
    env: &mut Env<'a>,
    layout_ids: &mut LayoutIds,
    seed: Value,
    val: Value,
    layout: &Layout,
    builtin: &Builtin,
    when_recursive: WhenRecursive<'_>,
    Ghost(top): Ghost<Top>,
) -> (r: Value)
    requires
        on_track(old(env), old(layout_ids), top),
        tracks(top, layout@, when_recursive@),
        ready(old(env), old(layout_ids), when_recursive@),
        layout@ == LayoutModel::Builtin(builtin@),
        hashable(layout@, when_recursive@),
    ensures
        on_track(final(env), final(layout_ids), top),
        hashed(
            old(env),
            old(layout_ids),
            final(env),
            final(layout_ids),
            layout@,
            when_recursive@,
            seed,
            val,
            r,
        ),
    decreases effort(names(old(env), old(layout_ids)), layout@), 7int,
{
    let ptr_bytes = env.ptr_bytes;
    let ghost env0 = *env;
    let ghost ids0 = *layout_ids;
    match builtin {
        Builtin::Int128
        | Builtin::Int64
        | Builtin::Int32
        | Builtin::Int16
        | Builtin::Int8
        | Builtin::Int1
        | Builtin::Float64
        | Builtin::Float32
        | Builtin::Float128
        | Builtin::Float16
        | Builtin::Usize => {
            let hash_bytes = store_and_use_as_u8_ptr(env, layout_ids, val, layout);
            let ghost env1 = *env;
            let r = hash_bitcode_fn(env, seed, hash_bytes, builtin.stack_size(ptr_bytes));
            proof {
                lemma_emits_trans(&env0, &env1, env, 3, 1);
                lemma_generated_kept(&env0, &ids0, env, layout_ids, env0.at().function as int);
                lemma_on_track_kept(&env0, &ids0, env, layout_ids, env0.at().function as int, top);
                if let Some(u) = when_recursive@ {
                    lemma_registered_kept(
                        names(&env0, &ids0),
                        names(env, layout_ids),
                        LayoutModel::Union(u),
                    );
                }
            }
            r
        },
        Builtin::Str => {
            // let zig deal with big vs small string
            let as_int = env.str_to_i128(val);
            let ghost env1 = *env;
            let r = env.call_dict_hash_str(seed, as_int);
            proof {
                lemma_emits_trans(&env0, &env1, env, 1, 1);
                lemma_generated_kept(&env0, &ids0, env, layout_ids, env0.at().function as int);
                lemma_on_track_kept(&env0, &ids0, env, layout_ids, env0.at().function as int, top);
                if let Some(u) = when_recursive@ {
                    lemma_registered_kept(
                        names(&env0, &ids0),
                        names(env, layout_ids),
                        LayoutModel::Union(u),
                    );
                }
            }
            r
        },
        Builtin::EmptyStr | Builtin::EmptyDict | Builtin::EmptyList | Builtin::EmptySet => {
            hash_empty_collection(seed)
        },
        Builtin::Dict => unreached(),
        Builtin::SetLayout => unreached(),
        Builtin::List(element_layout) => build_hash_list(
            env,
            layout_ids,
            layout,
            element_layout,
            when_recursive,
            seed,
            val,
            Ghost(top),
        ),
    }
}

fn build_hash_struct<'a>(
    env: &mut Env<'a>,
    layout_ids: &mut LayoutIds,
    field_layouts: &Vec<Layout>,
    when_recursive: WhenRecursive<'_>,
    seed: Value,
    value: Value,
    Ghost(top): Ghost<Top>,
) -> (r: Value)
    requires
        on_track(old(env), old(layout_ids), top),
        tracks(top, LayoutModel::Struct(fields_model(*field_layouts)), when_recursive@),
        ready(old(env), old(layout_ids), when_recursive@),
        fields_hashable(fields_model(*field_layouts), when_recursive@),
    ensures
        on_track(final(env), final(layout_ids), top),
        hashed(
            old(env),
            old(layout_ids),
            final(env),
            final(layout_ids),
            LayoutModel::Struct(fields_model(*field_layouts)),
            when_recursive@,
            seed,
            value,
            r,
        ),
    decreases layout_size(LayoutModel::Struct(fields_model(*field_layouts))), 6int,
{
    let ghost env0 = *env;
    let ghost ids0 = *layout_ids;
    let block = env.get_insert_block().unwrap();

    let struct_layout = Layout::Struct(fields_clone(field_layouts));
    let id = layout_ids.get(&struct_layout);
    let ghost ids1 = *layout_ids;
    proof {
        lemma_generated_kept(&env0, &ids0, env, layout_ids, -1);
        lemma_on_track_kept(&env0, &ids0, env, layout_ids, -1, top);
        if registered(names(&env0, &ids0), struct_layout@) {
            lemma_registered_found(&env0, &ids0, &ids1, id, struct_layout@);
        }
    }

    let function = match env.get_function(FnName::GenericHash(id)) {
        Some(function_value) => function_value,
        None => {
            let arg_type = basic_type_from_layout(layout_ids, &struct_layout);
            let function_value = env.build_header_help(FnName::GenericHash(id), arg_type);
            proof {
                assert(!env0.has_name(FnName::GenericHash(id)));
                assert forall|h: int| env0.has_function(h) implies (#[trigger] env0.functions()[h]).name
                    != FnName::GenericHash(id) by {}
                lemma_generated_kept(&env0, &ids0, env, layout_ids, -1);
                lemma_on_track_kept(&env0, &ids0, env, layout_ids, -1, top);
                if let Some(u) = when_recursive@ {
                    lemma_registered_kept(
                        names(&env0, &ids0),
                        names(env, layout_ids),
                        LayoutModel::Union(u),
                    );
                }
            }
            build_hash_struct_help(env, layout_ids, function_value, when_recursive, field_layouts, Ghost(top));
            function_value
        },
    };

    let ghost env1 = *env;
    env.position_at_end(block);
    let ghost env2 = *env;
    let r = env.build_call(function, seed, value);
    proof {
        lemma_generated_kept(&env1, layout_ids, env, layout_ids, env0.at().function as int);
        lemma_on_track_kept(&env1, layout_ids, env, layout_ids, env0.at().function as int, top);
        lemma_ready_kept(&env0, &ids0, env, layout_ids, when_recursive@);
        assert forall|g: int| env0.functions().len() <= g < env.functions().len() implies #[trigger] env.complete(
            g,
        ) by {
            assert(env1.complete(g));
            assert(env.functions()[g] == env1.functions()[g]);
        }
    }
    r
}

fn build_hash_struct_help<'a>(
    env: &mut Env<'a>,
    layout_ids: &mut LayoutIds,
    parent: FunctionId,
    when_recursive: WhenRecursive<'_>,
    field_layouts: &Vec<Layout>,
    Ghost(top): Ghost<Top>,
)
    requires
        on_track(old(env), old(layout_ids), top),
        tracks(top, LayoutModel::Struct(fields_model(*field_layouts)), when_recursive@),
        generated(old(env), old(layout_ids)),
        when_recursive@ matches Some(u) ==> union_hashable(u) && registered(
            names(old(env), old(layout_ids)),
            LayoutModel::Union(u),
        ),
        old(env).has_function(parent as int),
        old(env).blocks(parent as int).len() == 0,
        names(old(env), old(layout_ids)).proc_for(
            parent,
            LayoutModel::Struct(fields_model(*field_layouts)),
        ),
        fields_hashable(fields_model(*field_layouts), when_recursive@),
    ensures
        on_track(final(env), final(layout_ids), top),
        old(env).others_kept(final(env), parent as int),
        old(env).added_complete(final(env)),
        old(layout_ids).kept_by(final(layout_ids)),
        generated(final(env), final(layout_ids)),
        final(env).complete(parent as int),
    decreases layout_size(LayoutModel::Struct(fields_model(*field_layouts))), 5int,
{
    let ghost env0 = *env;
    let ghost ids0 = *layout_ids;
    // Add args to scope
    let seed = Value::Param(0);
    let value = Value::Param(1);

    let entry = env.append_basic_block(parent);
    env.position_at_end(entry);
    proof {
        lemma_generated_kept(&env0, &ids0, env, layout_ids, parent as int);
        lemma_on_track_kept(&env0, &ids0, env, layout_ids, parent as int, top);
        lemma_ready_kept(&env0, &ids0, env, layout_ids, when_recursive@);
    }
    let ghost env1 = *env;

    let result = hash_struct(env, layout_ids, seed, value, when_recursive, field_layouts, Ghost(top));
    let ghost env2 = *env;
    let ghost ids2 = *layout_ids;

    env.build_return(result);
    proof {
        let fields = fields_model(*field_layouts);
        lemma_fields_code_kept(
            names(&env2, &ids2),
            names(env, layout_ids),
            env.ptr_bytes,
            env2.here(),
            env.insts(parent as int, 0),
            0,
            fields,
            when_recursive@,
            fields.len() as int,
        );
        assert(struct_proc(names(env, layout_ids), env.ptr_bytes, env.blocks(parent as int), fields, None));
        lemma_generated_kept(&env2, &ids2, env, layout_ids, parent as int);
        assert forall|i: int| 0 <= i < fields.len() implies #[trigger] crate::linking::pointer_linked(
            names(env, layout_ids),
            env.insts(parent as int, 0),
            fields_code_len(fields, i) + 1,
            fields[i],
            when_recursive@,
        ) by {
            lemma_struct_pointers_linked(
                names(env, layout_ids),
                env.ptr_bytes,
                env.insts(parent as int, 0),
                fields,
                when_recursive@,
                i,
            );
        }
        lemma_on_track_completed(
            &env2,
            &ids2,
            env,
            layout_ids,
            parent as int,
            LayoutModel::Struct(fields),
            when_recursive@,
            top,
        );
        assert forall|g: int| env0.functions().len() <= g < env.functions().len() implies #[trigger] env.complete(
            g,
        ) by {
            assert(env2.complete(g));
            assert(env.functions()[g] == env2.functions()[g]);
        }
    }
}

fn hash_struct<'a>(
    env: &mut Env<'a>,
    layout_ids: &mut LayoutIds,
    seed: Value,
    value: Value,
    when_recursive: WhenRecursive<'_>,
    field_layouts: &Vec<Layout>,
    Ghost(top): Ghost<Top>,
) -> (r: Value)
    requires
        on_track(old(env), old(layout_ids), top),
        tracks(top, LayoutModel::Struct(fields_model(*field_layouts)), when_recursive@),
        ready(old(env), old(layout_ids), when_recursive@),
        old(env).here().len() == 0,
        seed == Value::Param(0),
        value == Value::Param(1),
        fields_hashable(fields_model(*field_layouts), when_recursive@),
    ensures
        on_track(final(env), final(layout_ids), top),
        old(env).emits(
            final(env),
            fields_code_len(fields_model(*field_layouts), field_layouts@.len() as int),
        ),
        old(layout_ids).kept_by(final(layout_ids)),
        ready(final(env), final(layout_ids), when_recursive@),
        fields_code_at(
            names(final(env), final(layout_ids)),
            final(env).ptr_bytes,
            final(env).here(),
            final(env).at().index,
            fields_model(*field_layouts),
            when_recursive@,
            field_layouts@.len() as int,
        ),
        r == fields_seed(
            fields_model(*field_layouts),
            final(env).at().index,
            field_layouts@.len() as int,
        ),
    decreases layout_size(LayoutModel::Struct(fields_model(*field_layouts))), 4int,
{
    let ghost env0 = *env;
    let ghost ids0 = *layout_ids;
    let ghost fields = fields_model(*field_layouts);
    let ghost ctx = when_recursive@;
    let ghost b = env.at().index;
    let mut seed = seed;
    let mut index: usize = 0;
    while index < field_layouts.len()
        invariant
            index <= field_layouts@.len(),
            fields == fields_model(*field_layouts),
            ctx == when_recursive@,
            b == env0.at().index,
            env0.here().len() == 0,
            value == Value::Param(1),
            fields_hashable(fields, ctx),
            on_track(env, layout_ids, top),
            tracks(top, LayoutModel::Struct(fields), ctx),
            env0.emits(env, fields_code_len(fields, index as int)),
            ids0.kept_by(layout_ids),
            ready(env, layout_ids, ctx),
            fields_code_at(names(env, layout_ids), env.ptr_bytes, env.here(), b, fields, ctx, index as int),
            seed == fields_seed(fields, b, index as int),
        decreases field_layouts@.len() - index,
    {
        let ghost env1 = *env;
        let ghost ids1 = *layout_ids;
        let ghost p = fields_code_len(fields, index as int);
        proof {
            lemma_fields_code_len_nonneg(fields, index as int);
            lemma_field_smaller(fields, fields.len() as int, index as int);
            lemma_within_field(top.layout, fields, ctx, index as int);
        }
        let field_layout = &field_layouts[index];
        assert(field_layout@ == fields[index as int]);

        let field = env.build_extract_value(value, index as u32);
        let ghost env2 = *env;
        proof {
            lemma_generated_kept(&env1, &ids1, env, layout_ids, env0.at().function as int);
            lemma_on_track_kept(&env1, &ids1, env, layout_ids, env0.at().function as int, top);
            if let Some(u) = ctx {
                lemma_registered_kept(
                    names(&env1, &ids1),
                    names(env, layout_ids),
                    LayoutModel::Union(u),
                );
            }
        }

        if let Layout::RecursivePointer = field_layout {
            match when_recursive {
                WhenRecursive::Unreachable => {
                    unreached::<()>();
                },
                WhenRecursive::Loop(union_layout) => {
                    let field_layout = Layout::Union(union_clone(union_layout));
                    let bt = basic_type_from_layout(layout_ids, &field_layout);
                    let ghost ids3 = *layout_ids;
                    // cast the i64 pointer to a pointer to block of memory
                    let field_cast = env.build_bitcast(field, bt);
                    let ghost env3 = *env;
                    proof {
                        lemma_generated_kept(&env2, &ids1, env, layout_ids, env0.at().function as int);
                        lemma_on_track_kept(&env2, &ids1, env, layout_ids, env0.at().function as int, top);
                        lemma_registered_kept(
                            names(&env1, &ids1),
                            names(env, layout_ids),
                            field_layout@,
                        );
                        lemma_within_union_any(top.layout, None, union_layout@, None, ctx);
                    }
                    seed =
                    append_hash_layout(
                        env,
                        layout_ids,
                        seed,
                        field_cast,
                        &field_layout,
                        when_recursive,
                        Ghost(top),
                    );
                    proof {
                        lemma_emits_trans(&env2, &env3, env, 1, 1);
                    }
                },
            }
        } else {
            seed = append_hash_layout(env, layout_ids, seed, field, field_layout, when_recursive, Ghost(top));
        }
        proof {
            lemma_emits_trans(&env1, &env2, env, 1, code_len(fields[index as int]));
            lemma_emits_trans(&env0, &env1, env, p, 1 + code_len(fields[index as int]));
            lemma_fields_code_kept(
                names(&env1, &ids1),
                names(env, layout_ids),
                env.ptr_bytes,
                env1.here(),
                env.here(),
                b,
                fields,
                ctx,
                index as int,
            );
            assert(env.here()[p] == env2.here()[p]);
        }
        index += 1;
    }
    seed
}

fn build_hash_tag<'a>(
    env: &mut Env<'a>,
    layout_ids: &mut LayoutIds,
    union_layout: &UnionLayout,
    seed: Value,
    value: Value,
    Ghost(top): Ghost<Top>,
) -> (r: Value)
    requires
        on_track(old(env), old(layout_ids), top),
        tracks(top, LayoutModel::Union(union_layout@), None),
        ready(old(env), old(layout_ids), None),
        union_hashable(union_layout@),
    ensures
        on_track(final(env), final(layout_ids), top),
        hashed(
            old(env),
            old(layout_ids),
            final(env),
            final(layout_ids),
            LayoutModel::Union(union_layout@),
            None,
            seed,
            value,
            r,
        ),
    decreases effort(names(old(env), old(layout_ids)), LayoutModel::Union(union_layout@)), 6int,
{
    let ghost env0 = *env;
    let ghost ids0 = *layout_ids;
    let block = env.get_insert_block().unwrap();

    let layout = Layout::Union(union_clone(union_layout));
    let id = layout_ids.get(&layout);
    let ghost ids1 = *layout_ids;
    proof {
        lemma_generated_kept(&env0, &ids0, env, layout_ids, -1);
        lemma_on_track_kept(&env0, &ids0, env, layout_ids, -1, top);
        if registered(names(&env0, &ids0), layout@) {
            lemma_registered_found(&env0, &ids0, &ids1, id, layout@);
        }
    }

    let function = match env.get_function(FnName::GenericHash(id)) {
        Some(function_value) => function_value,
        None => {
            proof {
                assert(!env0.has_name(FnName::GenericHash(id)));
                assert forall|h: int| env0.has_function(h) implies (#[trigger] env0.functions()[h]).name
                    != FnName::GenericHash(id) by {}
                if registered(names(&env0, &ids0), layout@) {
                    lemma_registered_found(&env0, &ids0, &ids1, id, layout@);
                }
            }
            let arg_type = basic_type_from_layout(layout_ids, &layout);
            let function_value = env.build_header_help(FnName::GenericHash(id), arg_type);
            proof {
                lemma_generated_kept(&env0, &ids0, env, layout_ids, -1);
                lemma_on_track_kept(&env0, &ids0, env, layout_ids, -1, top);
            }
            build_hash_tag_help(env, layout_ids, function_value, union_layout, Ghost(top));
            function_value
        },
    };

    let ghost env1 = *env;
    env.position_at_end(block);
    let r = env.build_call(function, seed, value);
    proof {
        lemma_generated_kept(&env1, layout_ids, env, layout_ids, env0.at().function as int);
        lemma_on_track_kept(&env1, layout_ids, env, layout_ids, env0.at().function as int, top);
        assert forall|g: int| env0.functions().len() <= g < env.functions().len() implies #[trigger] env.complete(
            g,
        ) by {
            assert(env1.complete(g));
            assert(env.functions()[g] == env1.functions()[g]);
        }
    }
    r
}

fn build_hash_tag_help<'a>(
    env: &mut Env<'a>,
    layout_ids: &mut LayoutIds,
    parent: FunctionId,
    union_layout: &UnionLayout,
    Ghost(top): Ghost<Top>,
)
    requires
        on_track(old(env), old(layout_ids), top),
        tracks(top, LayoutModel::Union(union_layout@), None),
        generated(old(env), old(layout_ids)),
        old(env).has_function(parent as int),
        old(env).blocks(parent as int).len() == 0,
        names(old(env), old(layout_ids)).proc_for(parent, LayoutModel::Union(union_layout@)),
        union_hashable(union_layout@),
    ensures
        on_track(final(env), final(layout_ids), top),
        old(env).others_kept(final(env), parent as int),
        old(env).added_complete(final(env)),
        old(layout_ids).kept_by(final(layout_ids)),
        generated(final(env), final(layout_ids)),
        final(env).complete(parent as int),
    decreases layout_size(LayoutModel::Union(union_layout@)), 5int,
{
    let ghost env0 = *env;
    let ghost ids0 = *layout_ids;
    // Add args to scope
    let seed = Value::Param(0);
    let value = Value::Param(1);

    let entry = env.append_basic_block(parent);
    env.position_at_end(entry);
    proof {
        lemma_generated_kept(&env0, &ids0, env, layout_ids, parent as int);
        lemma_on_track_kept(&env0, &ids0, env, layout_ids, parent as int, top);
    }

    let result = hash_tag(env, layout_ids, parent, seed, value, union_layout, Ghost(top));
    let ghost env2 = *env;
    let ghost ids2 = *layout_ids;

    env.build_return(result);
    proof {
        lemma_union_blocks_kept(
            names(&env2, &ids2),
            names(env, layout_ids),
            env2.blocks(parent as int),
            env.blocks(parent as int),
            union_layout@,
        );
        assert(env.complete(parent as int)) by {
            lemma_union_complete(
                names(env, layout_ids),
                env.blocks(parent as int),
                union_layout@,
            );
        }
        lemma_generated_kept(&env2, &ids2, env, layout_ids, parent as int);
        lemma_on_track_completed(
            &env2,
            &ids2,
            env,
            layout_ids,
            parent as int,
            LayoutModel::Union(union_layout@),
            None,
            top,
        );
        assert forall|g: int| env0.functions().len() <= g < env.functions().len() implies #[trigger] env.complete(
            g,
        ) by {
            if g != parent {
                assert(env2.complete(g));
                assert(env.functions()[g] == env2.functions()[g]);
            }
        }
    }
}

/// The blocks that decode the tag of a union value, hash the fields of the
/// variant it holds and bring the seeds of all variants together.
#[verifier::rlimit(60)]
fn hash_tag<'a>(
    env: &mut Env<'a>,
    layout_ids: &mut LayoutIds,
    parent: FunctionId,
    seed: Value,
    tag: Value,
    union_layout: &UnionLayout,
    Ghost(top): Ghost<Top>,
) -> (r: Value)
    requires
        on_track(old(env), old(layout_ids), top),
        tracks(top, LayoutModel::Union(union_layout@), None),
        ready(old(env), old(layout_ids), None),
        old(env).at() == (BasicBlock { function: parent, index: 0 }),
        old(env).blocks(parent as int).len() == 1,
        old(env).block(parent as int, 0).phis@.len() == 0,
        old(env).here().len() == 0,
        seed == Value::Param(0),
        tag == Value::Param(1),
        names(old(env), old(layout_ids)).proc_for(parent, LayoutModel::Union(union_layout@)),
        union_hashable(union_layout@),
    ensures
        on_track(final(env), final(layout_ids), top),
        old(env).others_kept(final(env), parent as int),
        old(env).added_complete(final(env)),
        old(layout_ids).kept_by(final(layout_ids)),
        ready(final(env), final(layout_ids), None),
        final(env).at() == (BasicBlock { function: parent, index: 1 }),
        union_blocks(
            names(final(env), final(layout_ids)),
            final(env).blocks(parent as int),
            union_layout@,
        ),
        r == (Value::Phi { block: 1, index: 0 }),
    decreases layout_size(LayoutModel::Union(union_layout@)), 4int,
{
    let ghost env0 = *env;
    let ghost ids0 = *layout_ids;
    let ghost f = parent as int;
    let ghost u = union_layout@;

    let entry_block = env.get_insert_block().unwrap();

    let merge_block = env.append_basic_block(parent);
    env.position_at_end(merge_block);

    let merge_phi = env.build_phi(BasicType::I64);

    env.position_at_end(entry_block);
    proof {
        assert(!env.complete(f)) by {
            assert(env.blocks(f)[1].terminator is None);
        }
        lemma_generated_kept(&env0, &ids0, env, layout_ids, f);
        lemma_on_track_kept(&env0, &ids0, env, layout_ids, f, top);
        assert(registered(names(env, layout_ids), LayoutModel::Union(u))) by {
            assert(names(env, layout_ids).proc_for(parent, LayoutModel::Union(u)));
        }
    }
    match union_layout {
        UnionLayout::NonRecursive(tags) => {
            // SAFETY we know that non-recursive tags cannot be NULL
            let tag_id = nonrec_tag_id(env, tag);
            proof {
                lemma_generated_kept(&env0, &ids0, env, layout_ids, f);
                lemma_on_track_kept(&env0, &ids0, env, layout_ids, f, top);
            }
            let ghost env1 = *env;
            let mut cases = hash_inline_branches(
                env,
                layout_ids,
                parent,
                merge_block,
                merge_phi,
                seed,
                tag,
                union_layout,
                tags,
                Ghost(top),
            );
            let ghost env2 = *env;

            env.position_at_end(entry_block);

            let default = cases_pop(&mut cases).unwrap().1;

            env.build_switch(
                tag_id,
                BasicBlock { function: parent, index: default },
                cases_as_slice(&cases),
            );
            proof {
                lemma_added_complete_trans(&env0, &env1, &env2, f);
                lemma_added_complete_trans(&env0, &env2, env, f);
                lemma_generated_kept(&env2, layout_ids, env, layout_ids, f);
                lemma_on_track_kept(&env2, layout_ids, env, layout_ids, f, top);
                lemma_branches_kept(&env2, env, layout_ids, f, 2, tags_model(*tags), false);
                assert(env.blocks(f)[0].insts@ =~= seq![
                    crate::ir::Op::ComplexBitcast(Value::Param(1), BasicType::I64),
                ]);
                assert(env.blocks(f)[1].phis@[0].incoming@ =~= Seq::new(
                    tags_model(*tags).len(),
                    |j: int| (inst((2 + j) as usize, 1), (2 + j) as usize),
                ));
            }
        },
        UnionLayout::Recursive(tags) => {
            // SAFETY recursive tag unions are not NULL
            let tag_id = rec_tag_id_unsafe(env, tag);
            proof {
                lemma_generated_kept(&env0, &ids0, env, layout_ids, f);
                lemma_on_track_kept(&env0, &ids0, env, layout_ids, f, top);
            }
            let ghost env1 = *env;
            let mut cases = hash_pointer_branches(
                env,
                layout_ids,
                parent,
                merge_block,
                merge_phi,
                seed,
                tag,
                union_layout,
                tags,
                Ghost(top),
            );
            let ghost env2 = *env;

            env.position_at_end(entry_block);

            let default = cases_pop(&mut cases).unwrap().1;

            env.build_switch(
                tag_id,
                BasicBlock { function: parent, index: default },
                cases_as_slice(&cases),
            );
            proof {
                lemma_added_complete_trans(&env0, &env1, &env2, f);
                lemma_added_complete_trans(&env0, &env2, env, f);
                lemma_generated_kept(&env2, layout_ids, env, layout_ids, f);
                lemma_on_track_kept(&env2, layout_ids, env, layout_ids, f, top);
                lemma_branches_kept(&env2, env, layout_ids, f, 2, tags_model(*tags), true);
                assert(env.blocks(f)[0].insts@ =~= seq![
                    crate::ir::Op::Bitcast(Value::Param(1), BasicType::I64Pointer),
                    crate::ir::Op::Load(inst(0, 0)),
                ]);
                assert(env.blocks(f)[1].phis@[0].incoming@ =~= Seq::new(
                    tags_model(*tags).len(),
                    |j: int| (inst((2 + j) as usize, 2), (2 + j) as usize),
                ));
            }
        },
        UnionLayout::NullableUnwrapped { other_fields, .. } => {
            let is_null = env.build_is_null(tag);

            let hash_null_block = env.append_basic_block(parent);
            let hash_other_block = env.append_basic_block(parent);

            env.build_conditional_branch(is_null, hash_null_block, hash_other_block);

            {
                env.position_at_end(hash_null_block);

                let answer = hash_null(seed);

                env.add_incoming(merge_phi, answer, hash_null_block);
                env.build_unconditional_branch(merge_block);
            }

            {
                env.position_at_end(hash_other_block);
                proof {
                    assert(!env.complete(f)) by {
                        assert(env.blocks(f)[1].terminator is None);
                    }
                    lemma_generated_kept(&env0, &ids0, env, layout_ids, f);
                    lemma_on_track_kept(&env0, &ids0, env, layout_ids, f, top);
                    assert(registered(names(env, layout_ids), LayoutModel::Union(u))) by {
                        assert(names(env, layout_ids).proc_for(parent, LayoutModel::Union(u)));
                    }
                    let fields = fields_model(*other_fields);
                    assert(union_size(u) == 2 + fields_size(fields, fields.len() as int));
                    assert(layout_size(LayoutModel::Struct(fields)) < layout_size(
                        LayoutModel::Union(u),
                    ));
                    assert(variants(u)[0] == fields);
                    lemma_within_variant(top.layout, u, None, 0);
                }
                let ghost env1 = *env;

                let answer = hash_ptr_to_struct(
                    env,
                    layout_ids,
                    union_layout,
                    other_fields,
                    seed,
                    tag,
                    Ghost(top),
                );
                let ghost env3 = *env;
                let ghost ids3 = *layout_ids;

                env.add_incoming(merge_phi, answer, hash_other_block);
                env.build_unconditional_branch(merge_block);
                proof {
                    lemma_added_complete_trans(&env0, &env1, &env3, f);
                    lemma_added_complete_trans(&env0, &env3, env, f);
                    lemma_generated_kept(&env3, &ids3, env, layout_ids, f);
                    lemma_on_track_kept(&env3, &ids3, env, layout_ids, f, top);
                    assert(env.blocks(f)[0].insts@ =~= seq![crate::ir::Op::IsNull(Value::Param(1))]);
                    assert(env.blocks(f)[1].phis@[0].incoming@ =~= seq![
                        (Value::Param(0), 2usize),
                        (inst(3, 2), 3usize),
                    ]);
                    assert(env.blocks(f)[3].insts@ =~= env3.here());
                }
            }
        },
        UnionLayout::NullableWrapped { other_tags, .. } => {
            let is_null = env.build_is_null(tag);

            let hash_null_block = env.append_basic_block(parent);
            let hash_other_block = env.append_basic_block(parent);

            env.build_conditional_branch(is_null, hash_null_block, hash_other_block);

            {
                env.position_at_end(hash_null_block);

                let answer = hash_null(seed);

                env.add_incoming(merge_phi, answer, hash_null_block);
                env.build_unconditional_branch(merge_block);
            }

            {
                env.position_at_end(hash_other_block);

                // SAFETY recursive tag unions are not NULL
                let tag_id = rec_tag_id_unsafe(env, tag);
                proof {
                    assert(!env.complete(f)) by {
                        assert(env.blocks(f)[1].terminator is None);
                    }
                    lemma_generated_kept(&env0, &ids0, env, layout_ids, f);
                    lemma_on_track_kept(&env0, &ids0, env, layout_ids, f, top);
                }
                let ghost env1 = *env;

                let mut cases = hash_pointer_branches(
                    env,
                    layout_ids,
                    parent,
                    merge_block,
                    merge_phi,
                    seed,
                    tag,
                    union_layout,
                    other_tags,
                    Ghost(top),
                );
                let ghost env2 = *env;

                env.position_at_end(hash_other_block);

                let default = cases_pop(&mut cases).unwrap().1;

                env.build_switch(
                    tag_id,
                    BasicBlock { function: parent, index: default },
                    cases_as_slice(&cases),
                );
                proof {
                    lemma_added_complete_trans(&env0, &env1, &env2, f);
                    lemma_added_complete_trans(&env0, &env2, env, f);
                    lemma_generated_kept(&env2, layout_ids, env, layout_ids, f);
                    lemma_on_track_kept(&env2, layout_ids, env, layout_ids, f, top);
                    lemma_branches_kept(&env2, env, layout_ids, f, 4, tags_model(*other_tags), true);
                    assert(env.blocks(f)[0].insts@ =~= seq![crate::ir::Op::IsNull(Value::Param(1))]);
                    assert(env.blocks(f)[3].insts@ =~= seq![
                        crate::ir::Op::Bitcast(Value::Param(1), BasicType::I64Pointer),
                        crate::ir::Op::Load(inst(3, 0)),
                    ]);
                    assert(env.blocks(f)[1].phis@[0].incoming@ =~= seq![(Value::Param(0), 2usize)]
                        + Seq::new(
                        tags_model(*other_tags).len(),
                        |j: int| (inst((4 + j) as usize, 2), (4 + j) as usize),
                    ));
                }
            }
        },
        UnionLayout::NonNullableUnwrapped(field_layouts) => {
            let ghost env1 = *env;
            proof {
                assert(variants(u)[0] == fields_model(*field_layouts));
                lemma_within_variant(top.layout, u, None, 0);
            }
            let answer = hash_ptr_to_struct(env, layout_ids, union_layout, field_layouts, seed, tag, Ghost(top));
            let ghost env3 = *env;
            let ghost ids3 = *layout_ids;

            env.add_incoming(merge_phi, answer, entry_block);
            env.build_unconditional_branch(merge_block);
            proof {
                lemma_added_complete_trans(&env0, &env1, &env3, f);
                lemma_added_complete_trans(&env0, &env3, env, f);
                lemma_generated_kept(&env3, &ids3, env, layout_ids, f);
                lemma_on_track_kept(&env3, &ids3, env, layout_ids, f, top);
                assert(env.blocks(f)[1].phis@[0].incoming@ =~= seq![(inst(0, 2), 0usize)]);
                assert(env.blocks(f)[0].insts@ =~= env3.here());
            }
        },
    }

    let ghost env9 = *env;
    env.position_at_end(merge_block);
    proof {
        lemma_added_complete_trans(&env0, &env9, env, f);
        lemma_generated_kept(&env9, layout_ids, env, layout_ids, f);
        lemma_on_track_kept(&env9, layout_ids, env, layout_ids, f, top);
    }

    merge_phi.as_basic_value()
}

/// One branch block per variant of a union whose variants lie behind the
/// pointer: each loads its variant's struct, hashes it, hands its seed to
/// the join point and goes there. Returns the table that sends tag id `j`
/// to the block of variant `j`.
fn hash_pointer_branches<'a>(
    env: &mut Env<'a>,
    layout_ids: &mut LayoutIds,
    parent: FunctionId,
    merge_block: BasicBlock,
    merge_phi: PhiValue,
    seed: Value,
    tag: Value,
    union_layout: &UnionLayout,
    tags: &Vec<Vec<Layout>>,
    Ghost(top): Ghost<Top>,
) -> (cases: BumpVec<'a, (u64, usize)>)
    requires
        on_track(old(env), old(layout_ids), top),
        tracks(top, LayoutModel::Union(union_layout@), None),
        branches_ready(old(env), old(layout_ids), parent, merge_block, merge_phi, union_layout@),
        seed == Value::Param(0),
        tag == Value::Param(1),
        tags_hashable(tags_model(*tags), Some(union_layout@)),
        tags_size(tags_model(*tags), tags@.len() as int) <= union_size(union_layout@),
        variants(union_layout@) == tags_model(*tags),
        !(union_layout@ is NonRecursive),
    ensures
        on_track(final(env), final(layout_ids), top),
        branches_built(
            old(env),
            old(layout_ids),
            final(env),
            final(layout_ids),
            parent,
            merge_phi,
            tags_model(*tags),
            true,
        ),
        cases_of(&cases) == Seq::new(
            tags@.len(),
            |j: int| (j as u64, (old(env).blocks(parent as int).len() + j) as usize),
        ),
    decreases layout_size(LayoutModel::Union(union_layout@)), 3int,
{
    let ghost env0 = *env;
    let ghost ids0 = *layout_ids;
    let ghost f = parent as int;
    let ghost first = env.blocks(f).len() as int;
    let ghost all = tags_model(*tags);
    let arena = env.arena;
    let mut cases = cases_with_capacity_in(tags.len(), arena);

    let mut tag_id: usize = 0;
    while tag_id < tags.len()
        invariant
            tag_id <= tags@.len(),
            f == parent as int,
            first == env0.blocks(f).len(),
            all == tags_model(*tags),
            seed == Value::Param(0),
            tag == Value::Param(1),
            branches_ready(&env0, &ids0, parent, merge_block, merge_phi, union_layout@),
            tags_hashable(all, Some(union_layout@)),
            tags_size(all, all.len() as int) <= union_size(union_layout@),
            branches_ready(env, layout_ids, parent, merge_block, merge_phi, union_layout@),
            on_track(env, layout_ids, top),
            tracks(top, LayoutModel::Union(union_layout@), None),
            variants(union_layout@) == all,
            !(union_layout@ is NonRecursive),
            branches_upto(&env0, &ids0, env, layout_ids, parent, merge_phi, all, true, tag_id as int),
            cases_limit(&cases) == tags@.len(),
            cases_of(&cases) == Seq::new(tag_id as nat, |j: int| (j as u64, (first + j) as usize)),
        decreases tags@.len() - tag_id,
    {
        let ghost env1 = *env;
        let ghost ids1 = *layout_ids;
        let field_layouts = &tags[tag_id];
        proof {
            lemma_tag_smaller(all, all.len() as int, tag_id as int);
            assert(fields_model(*field_layouts) == all[tag_id as int]);
            lemma_within_variant(top.layout, union_layout@, None, tag_id as int);
        }
        let block = env.append_basic_block(parent);
        env.position_at_end(block);
        let ghost env15 = *env;
        proof {
            assert(!env.complete(f)) by {
                assert(env.blocks(f)[1].terminator is None);
            }
            lemma_generated_kept(&env1, &ids1, env, layout_ids, f);
            lemma_on_track_kept(&env1, &ids1, env, layout_ids, f, top);
            assert(registered(names(env, layout_ids), LayoutModel::Union(union_layout@))) by {
                assert(names(env, layout_ids).proc_for(parent, LayoutModel::Union(union_layout@)));
            }
        }

        let answer = hash_ptr_to_struct(env, layout_ids, union_layout, field_layouts, seed, tag, Ghost(top));
        let ghost env2 = *env;
        let ghost ids2 = *layout_ids;

        env.add_incoming(merge_phi, answer, block);
        env.build_unconditional_branch(merge_block);

        cases_push(&mut cases, (tag_id as u64, block.index));
        proof {
            lemma_added_complete_trans(&env1, &env15, &env2, f);
            lemma_added_complete_trans(&env1, &env2, env, f);
            lemma_generated_kept(&env2, &ids2, env, layout_ids, f);
            lemma_on_track_kept(&env2, &ids2, env, layout_ids, f, top);
            lemma_branches_step(
                &env0,
                &ids0,
                &env1,
                &ids1,
                env,
                layout_ids,
                parent,
                merge_phi,
                all,
                true,
                tag_id as int,
            );
            assert(cases_of(&cases) =~= Seq::new(
                (tag_id + 1) as nat,
                |j: int| (j as u64, (first + j) as usize),
            ));
        }
        tag_id += 1;
    }
    cases
}

/// One branch block per variant of a union whose variants are stored
/// inline: each reads the union's memory as its variant's struct, hashes
/// it, hands its seed to the join point and goes there. Returns the table
/// that sends tag id `j` to the block of variant `j`.
fn hash_inline_branches<'a>(
    env: &mut Env<'a>,
    layout_ids: &mut LayoutIds,
    parent: FunctionId,
    merge_block: BasicBlock,
    merge_phi: PhiValue,
    seed: Value,
    tag: Value,
    union_layout: &UnionLayout,
    tags: &Vec<Vec<Layout>>,
    Ghost(top): Ghost<Top>,
) -> (cases: BumpVec<'a, (u64, usize)>)
    requires
        on_track(old(env), old(layout_ids), top),
        tracks(top, LayoutModel::Union(union_layout@), None),
        branches_ready(old(env), old(layout_ids), parent, merge_block, merge_phi, union_layout@),
        seed == Value::Param(0),
        tag == Value::Param(1),
        tags_hashable(tags_model(*tags), None),
        tags_size(tags_model(*tags), tags@.len() as int) <= union_size(union_layout@),
        variants(union_layout@) == tags_model(*tags),
        union_layout@ is NonRecursive,
    ensures
        on_track(final(env), final(layout_ids), top),
        branches_built(
            old(env),
            old(layout_ids),
            final(env),
            final(layout_ids),
            parent,
            merge_phi,
            tags_model(*tags),
            false,
        ),
        cases_of(&cases) == Seq::new(
            tags@.len(),
            |j: int| (j as u64, (old(env).blocks(parent as int).len() + j) as usize),
        ),
    decreases layout_size(LayoutModel::Union(union_layout@)), 3int,
{
    let ghost env0 = *env;
    let ghost ids0 = *layout_ids;
    let ghost f = parent as int;
    let ghost first = env.blocks(f).len() as int;
    let ghost all = tags_model(*tags);
    let arena = env.arena;
    let mut cases = cases_with_capacity_in(tags.len(), arena);

    let mut tag_id: usize = 0;
    while tag_id < tags.len()
        invariant
            tag_id <= tags@.len(),
            f == parent as int,
            first == env0.blocks(f).len(),
            all == tags_model(*tags),
            seed == Value::Param(0),
            tag == Value::Param(1),
            branches_ready(&env0, &ids0, parent, merge_block, merge_phi, union_layout@),
            tags_hashable(all, None),
            tags_size(all, all.len() as int) <= union_size(union_layout@),
            branches_ready(env, layout_ids, parent, merge_block, merge_phi, union_layout@),
            on_track(env, layout_ids, top),
            tracks(top, LayoutModel::Union(union_layout@), None),
            variants(union_layout@) == all,
            union_layout@ is NonRecursive,
            branches_upto(&env0, &ids0, env, layout_ids, parent, merge_phi, all, false, tag_id as int),
            cases_limit(&cases) == tags@.len(),
            cases_of(&cases) == Seq::new(tag_id as nat, |j: int| (j as u64, (first + j) as usize)),
        decreases tags@.len() - tag_id,
    {
        let ghost env1 = *env;
        let ghost ids1 = *layout_ids;
        let field_layouts = &tags[tag_id];
        proof {
            lemma_tag_smaller(all, all.len() as int, tag_id as int);
            assert(fields_model(*field_layouts) == all[tag_id as int]);
            lemma_within_variant(top.layout, union_layout@, None, tag_id as int);
        }
        let block = env.append_basic_block(parent);
        env.position_at_end(block);

        let struct_layout = Layout::Struct(fields_clone(field_layouts));

        let wrapper_type = basic_type_from_layout(layout_ids, &struct_layout);

        let as_struct = env.cast_block_of_memory_to_tag(tag, wrapper_type);
        let ghost env15 = *env;
        proof {
            assert(!env.complete(f)) by {
                assert(env.blocks(f)[1].terminator is None);
            }
            lemma_generated_kept(&env1, &ids1, env, layout_ids, f);
            lemma_on_track_kept(&env1, &ids1, env, layout_ids, f, top);
        }

        let answer = build_hash_struct(
            env,
            layout_ids,
            field_layouts,
            WhenRecursive::Unreachable,
            seed,
            as_struct,
            Ghost(top),
        );
        let ghost env2 = *env;
        let ghost ids2 = *layout_ids;

        env.add_incoming(merge_phi, answer, block);
        env.build_unconditional_branch(merge_block);

        cases_push(&mut cases, (tag_id as u64, block.index));
        proof {
            lemma_added_complete_trans(&env1, &env15, &env2, f);
            lemma_added_complete_trans(&env1, &env2, env, f);
            lemma_generated_kept(&env2, &ids2, env, layout_ids, f);
            lemma_on_track_kept(&env2, &ids2, env, layout_ids, f, top);
            assert(env2.here()[0] == env15.here()[0]);
            lemma_branches_step(
                &env0,
                &ids0,
                &env1,
                &ids1,
                env,
                layout_ids,
                parent,
                merge_phi,
                all,
                false,
                tag_id as int,
            );
            assert(cases_of(&cases) =~= Seq::new(
                (tag_id + 1) as nat,
                |j: int| (j as u64, (first + j) as usize),
            ));
        }
        tag_id += 1;
    }
    cases
}

fn build_hash_list<'a>(
    env: &mut Env<'a>,
    layout_ids: &mut LayoutIds,
    layout: &Layout,
    element_layout: &Layout,
    when_recursive: WhenRecursive<'_>,
    seed: Value,
    value: Value,
    Ghost(top): Ghost<Top>,
) -> (r: Value)
    requires
        on_track(old(env), old(layout_ids), top),
        tracks(top, LayoutModel::Builtin(BuiltinModel::List(Box::new(element_layout@))), when_recursive@),
        ready(old(env), old(layout_ids), when_recursive@),
        layout@ == LayoutModel::Builtin(BuiltinModel::List(Box::new(element_layout@))),
        hashable(element_layout@, when_recursive@),
    ensures
        on_track(final(env), final(layout_ids), top),
        hashed(
            old(env),
            old(layout_ids),
            final(env),
            final(layout_ids),
            layout@,
            when_recursive@,
            seed,
            value,
            r,
        ),
    decreases 1 + layout_size(element_layout@), 6int,
{
    let ghost env0 = *env;
    let ghost ids0 = *layout_ids;
    let block = env.get_insert_block().unwrap();

    let id = layout_ids.get(layout);
    let ghost ids1 = *layout_ids;
    proof {
        lemma_generated_kept(&env0, &ids0, env, layout_ids, -1);
        lemma_on_track_kept(&env0, &ids0, env, layout_ids, -1, top);
        if registered(names(&env0, &ids0), layout@) {
            lemma_registered_found(&env0, &ids0, &ids1, id, layout@);
        }
    }

    let function = match env.get_function(FnName::GenericHash(id)) {
        Some(function_value) => function_value,
        None => {
            let arg_type = basic_type_from_layout(layout_ids, layout);
            let function_value = env.build_header_help(FnName::GenericHash(id), arg_type);
            proof {
                assert(!env0.has_name(FnName::GenericHash(id)));
                assert forall|h: int| env0.has_function(h) implies (#[trigger] env0.functions()[h]).name
                    != FnName::GenericHash(id) by {}
                lemma_generated_kept(&env0, &ids0, env, layout_ids, -1);
                lemma_on_track_kept(&env0, &ids0, env, layout_ids, -1, top);
                lemma_ready_kept(&env0, &ids0, env, layout_ids, when_recursive@);
            }
            build_hash_list_help(env, layout_ids, function_value, when_recursive, element_layout, Ghost(top));
            function_value
        },
    };

    let ghost env1 = *env;
    env.position_at_end(block);
    let r = env.build_call(function, seed, value);
    proof {
        lemma_generated_kept(&env1, layout_ids, env, layout_ids, env0.at().function as int);
        lemma_on_track_kept(&env1, layout_ids, env, layout_ids, env0.at().function as int, top);
        lemma_ready_kept(&env0, &ids0, env, layout_ids, when_recursive@);
        assert forall|g: int| env0.functions().len() <= g < env.functions().len() implies #[trigger] env.complete(
            g,
        ) by {
            assert(env1.complete(g));
            assert(env.functions()[g] == env1.functions()[g]);
        }
    }
    r
}

fn build_hash_list_help<'a>(
    env: &mut Env<'a>,
    layout_ids: &mut LayoutIds,
    parent: FunctionId,
    when_recursive: WhenRecursive<'_>,
    element_layout: &Layout,
    Ghost(top): Ghost<Top>,
)
    requires
        on_track(old(env), old(layout_ids), top),
        tracks(top, LayoutModel::Builtin(BuiltinModel::List(Box::new(element_layout@))), when_recursive@),
        generated(old(env), old(layout_ids)),
        when_recursive@ matches Some(u) ==> union_hashable(u) && registered(
            names(old(env), old(layout_ids)),
            LayoutModel::Union(u),
        ),
        old(env).has_function(parent as int),
        old(env).blocks(parent as int).len() == 0,
        names(old(env), old(layout_ids)).proc_for(
            parent,
            LayoutModel::Builtin(BuiltinModel::List(Box::new(element_layout@))),
        ),
        hashable(element_layout@, when_recursive@),
    ensures
        on_track(final(env), final(layout_ids), top),
        old(env).others_kept(final(env), parent as int),
        old(env).added_complete(final(env)),
        old(layout_ids).kept_by(final(layout_ids)),
        generated(final(env), final(layout_ids)),
        final(env).complete(parent as int),
    decreases 1 + layout_size(element_layout@), 5int,
{
    let ghost env0 = *env;
    let ghost ids0 = *layout_ids;
    // Add args to scope
    let seed = Value::Param(0);
    let value = Value::Param(1);

    let entry = env.append_basic_block(parent);
    env.position_at_end(entry);
    proof {
        lemma_generated_kept(&env0, &ids0, env, layout_ids, parent as int);
        lemma_on_track_kept(&env0, &ids0, env, layout_ids, parent as int, top);
        lemma_ready_kept(&env0, &ids0, env, layout_ids, when_recursive@);
    }

    let result = hash_list(env, layout_ids, parent, seed, value, when_recursive, element_layout, Ghost(top));
    let ghost env2 = *env;
    let ghost ids2 = *layout_ids;

    env.build_return(result);
    proof {
        lemma_list_blocks_kept(
            names(&env2, &ids2),
            names(env, layout_ids),
            env.ptr_bytes,
            env2.blocks(parent as int),
            env.blocks(parent as int),
            element_layout@,
            when_recursive@,
        );
        lemma_generated_kept(&env2, &ids2, env, layout_ids, parent as int);
        lemma_on_track_completed(
            &env2,
            &ids2,
            env,
            layout_ids,
            parent as int,
            LayoutModel::Builtin(BuiltinModel::List(Box::new(element_layout@))),
            when_recursive@,
            top,
        );
        assert forall|g: int| env0.functions().len() <= g < env.functions().len() implies #[trigger] env.complete(
            g,
        ) by {
            assert(env2.complete(g));
            assert(env.functions()[g] == env2.functions()[g]);
        }
    }
}

fn hash_list<'a>(
    env: &mut Env<'a>,
    layout_ids: &mut LayoutIds,
    parent: FunctionId,
    seed: Value,
    value: Value,
    when_recursive: WhenRecursive<'_>,
    element_layout: &Layout,
    Ghost(top): Ghost<Top>,
) -> (r: Value)
    requires
        on_track(old(env), old(layout_ids), top),
        tracks(top, LayoutModel::Builtin(BuiltinModel::List(Box::new(element_layout@))), when_recursive@),
        ready(old(env), old(layout_ids), when_recursive@),
        old(env).at() == (BasicBlock { function: parent, index: 0 }),
        old(env).blocks(parent as int).len() == 1,
        old(env).block(parent as int, 0).phis@.len() == 0,
        old(env).here().len() == 0,
        seed == Value::Param(0),
        value == Value::Param(1),
        hashable(element_layout@, when_recursive@),
    ensures
        on_track(final(env), final(layout_ids), top),
        old(env).others_kept(final(env), parent as int),
        old(env).added_complete(final(env)),
        old(layout_ids).kept_by(final(layout_ids)),
        ready(final(env), final(layout_ids), when_recursive@),
        final(env).at() == (BasicBlock { function: parent, index: 1 }),
        list_blocks(
            names(final(env), final(layout_ids)),
            final(env).ptr_bytes,
            final(env).blocks(parent as int),
            element_layout@,
            when_recursive@,
        ),
        r == inst(1, 0),
    decreases 1 + layout_size(element_layout@), 4int,
{
    let ghost env0 = *env;
    let ghost ids0 = *layout_ids;
    let ghost f = parent as int;
    // hash of a list is the hash of its elements
    let done_block = env.append_basic_block(parent);
    let loop_block = env.append_basic_block(parent);

    let ptr_type = pointer_type_from_layout(layout_ids, element_layout);

    let (length, ptr) = env.load_list(value, ptr_type);

    let result = env.build_alloca(BasicType::I64);
    env.build_store(result, seed);

    let is_empty = env.build_int_compare(length, Value::ConstInt(0));
    let ghost env1 = *env;
    assert(env1.insts(f, 0).len() == 5);
    assert(env0.others_kept(&env1, f));

    env.build_conditional_branch(is_empty, done_block, loop_block);

    env.position_at_end(loop_block);

    let (index, element) = env.incrementing_elem_loop_begin(parent, ptr, length);
    let seed = env.build_load(result);
    let ghost env2 = *env;
    let ghost ids2 = *layout_ids;
    proof {
        assert(env0.others_kept(&env2, f));
        assert(!env2.complete(f)) by {
            assert(env2.blocks(f)[3].terminator is None);
        }
        lemma_generated_kept(&env0, &ids0, env, layout_ids, f);
        lemma_within_element(top.layout, element_layout@, when_recursive@);
        lemma_on_track_kept(&env0, &ids0, env, layout_ids, f, top);
        lemma_ready_kept(&env0, &ids0, env, layout_ids, when_recursive@);
    }

    let answer = append_hash_layout(
        env,
        layout_ids,
        seed,
        element,
        element_layout,
        when_recursive,
        Ghost(top),
    );
    let ghost env3 = *env;
    let ghost ids3 = *layout_ids;

    env.build_store(result, answer);
    let ghost env4 = *env;

    env.incrementing_elem_loop_end(parent, index, length);

    env.build_unconditional_branch(done_block);

    env.position_at_end(done_block);

    let r = env.build_load(result);
    proof {
        assert(env0.others_kept(env, f));
        assert(!env.complete(f)) by {
            assert(env.blocks(f)[1].terminator is None);
        }
        lemma_generated_kept(&env3, &ids3, env, layout_ids, f);
        lemma_on_track_kept(&env3, &ids3, env, layout_ids, f, top);
        lemma_ready_kept(&env0, &ids0, env, layout_ids, when_recursive@);
        assert forall|g: int| env0.functions().len() <= g < env.functions().len() implies #[trigger] env.complete(
            g,
        ) by {
            assert(env3.complete(g));
            assert(env.functions()[g] == env3.functions()[g]);
        }
        lemma_layout_code_kept(
            names(&env3, &ids3),
            names(env, layout_ids),
            env.ptr_bytes,
            env3.here(),
            env.blocks(f)[3].insts@,
            3,
            3,
            element_layout@,
            when_recursive@,
            inst(3, 2),
            inst(3, 1),
        );
        assert(env.blocks(f)[1].insts@ =~= seq![crate::ir::Op::Load(inst(0, 2))]);
    }
    r
}

fn hash_null(seed: Value) -> (r: Value)
    ensures
        r == seed,
{
    seed
}

fn hash_empty_collection(seed: Value) -> (r: Value)
    ensures
        r == seed,
{
    seed
}

fn hash_ptr_to_struct<'a>(
    env: &mut Env<'a>,
    layout_ids: &mut LayoutIds,
    union_layout: &UnionLayout,
    field_layouts: &Vec<Layout>,
    seed: Value,
    tag: Value,
    Ghost(top): Ghost<Top>,
) -> (r: Value)
    requires
        on_track(old(env), old(layout_ids), top),
        tracks(top, LayoutModel::Struct(fields_model(*field_layouts)), Some(union_layout@)),
        ready(old(env), old(layout_ids), Some(union_layout@)),
        seed == Value::Param(0),
        tag == Value::Param(1),
        fields_hashable(fields_model(*field_layouts), Some(union_layout@)),
    ensures
        on_track(final(env), final(layout_ids), top),
        old(env).emits(final(env), 3),
        old(layout_ids).kept_by(final(layout_ids)),
        ready(final(env), final(layout_ids), Some(union_layout@)),
        ptr_to_struct_at(
            names(final(env), final(layout_ids)),
            final(env).here(),
            final(env).at().index,
            old(env).here().len() as int,
            fields_model(*field_layouts),
        ),
        r == inst(final(env).at().index, old(env).here().len() as int + 2),
    decreases layout_size(LayoutModel::Struct(fields_model(*field_layouts))), 7int,
{
    let ghost env0 = *env;
    let ghost ids0 = *layout_ids;
    let struct_layout = Layout::Struct(fields_clone(field_layouts));

    let wrapper_type = pointer_type_from_layout(layout_ids, &struct_layout);

    // cast the opaque pointer to a pointer of the correct shape
    let struct_ptr = env.build_bitcast(tag, wrapper_type);
    let ghost env1 = *env;

    let struct_value = env.build_load(struct_ptr);
    let ghost env2 = *env;
    proof {
        lemma_emits_trans(&env0, &env1, env, 1, 1);
        lemma_generated_kept(&env0, &ids0, env, layout_ids, env0.at().function as int);
        lemma_on_track_kept(&env0, &ids0, env, layout_ids, env0.at().function as int, top);
        lemma_ready_kept(&env0, &ids0, env, layout_ids, Some(union_layout@));
    }

    let r = build_hash_struct(
        env,
        layout_ids,
        field_layouts,
        WhenRecursive::Loop(union_layout),
        seed,
        struct_value,
        Ghost(top),
    );
    proof {
        lemma_emits_trans(&env0, &env2, env, 2, 1);
        assert(env.here()[env0.here().len() as int] == env1.here()[env0.here().len() as int]);
        assert(env.here()[env0.here().len() as int + 1] == env2.here()[env0.here().len() as int + 1]);
    }
    r
}

fn store_and_use_as_u8_ptr<'a>(
    env: &mut Env<'a>,
    layout_ids: &mut LayoutIds,
    value: Value,
    layout: &Layout,
) -> (ptr: Value)
    requires
        old(env).positioned(),
        old(layout_ids).wf(),
    ensures
        old(env).emits(final(env), 3),
        final(env).functions().len() == old(env).functions().len(),
        final(layout_ids).wf(),
        old(layout_ids).kept_by(final(layout_ids)),
        old(layout_ids).grown_by(final(layout_ids), layout@),
        final(env).here()[old(env).here().len() as int] matches crate::ir::Op::Alloca(ty)
            && names(final(env), final(layout_ids)).type_of(ty, layout@),
        final(env).here()[old(env).here().len() as int + 1] == (crate::ir::Op::Store {
            ptr: old(env).next_value(),
            value,
        }),
        final(env).here()[old(env).here().len() as int + 2] == crate::ir::Op::Bitcast(
            old(env).next_value(),
            BasicType::I8Pointer,
        ),
        ptr == inst(old(env).at().index, old(env).here().len() as int + 2),
{
    let ghost env0 = *env;
    let basic_type = basic_type_from_layout(layout_ids, layout);
    let alloc = env.build_alloca(basic_type);
    let ghost env1 = *env;
    env.build_store(alloc, value);
    let ghost env2 = *env;
    let r = env.build_bitcast(alloc, BasicType::I8Pointer);
    proof {
        lemma_emits_trans(&env0, &env1, &env2, 1, 1);
        lemma_emits_trans(&env0, &env2, env, 2, 1);
    }
    r
}

fn hash_bitcode_fn<'a>(env: &mut Env<'a>, seed: Value, buffer: Value, width: u32) -> (r: Value)
    requires
        old(env).positioned(),
    ensures
        old(env).emits_op(
            final(env),
            crate::ir::Op::CallDictHash { seed, buffer, num_bytes: Value::ConstInt(width as u64) },
        ),
        r == old(env).next_value(),
{
    let num_bytes = Value::ConstInt(width as u64);
    env.call_dict_hash(seed, buffer, num_bytes)
}

/// The tag id of a union that is stored inline.
fn nonrec_tag_id<'a>(env: &mut Env<'a>, tag: Value) -> (r: Value)
    requires
        old(env).positioned(),
    ensures
        old(env).emits_op(final(env), crate::ir::Op::ComplexBitcast(tag, BasicType::I64)),
        r == old(env).next_value(),
{
    env.complex_bitcast(tag, BasicType::I64)
}

/// The tag id behind the pointer of a union. The pointer must not be null:
/// the caller emits this only where that is known.
fn rec_tag_id_unsafe<'a>(env: &mut Env<'a>, tag: Value) -> (r: Value)
    requires
        old(env).positioned(),
    ensures
        old(env).emits(final(env), 2),
        final(env).functions().len() == old(env).functions().len(),
        final(env).here()[old(env).here().len() as int] == crate::ir::Op::Bitcast(
            tag,
            BasicType::I64Pointer,
        ),
        final(env).here()[old(env).here().len() as int + 1] == crate::ir::Op::Load(
            old(env).next_value(),
        ),
        r == inst(old(env).at().index, old(env).here().len() as int + 1),
{
    let ghost env0 = *env;
    let ptr = env.build_bitcast(tag, BasicType::I64Pointer);
    let ghost env1 = *env;
    let r = env.build_load(ptr);
    proof {
        lemma_emits_trans(&env0, &env1, env, 1, 1);
    }
    r
}

} // verus!
