//! Which procedure a recursive pointer is handed to: procedures are
//! generated once per layout and shared, so the procedure of a struct or
//! list with a recursive pointer belongs to the recursive union under
//! which it was generated.

use vstd::prelude::*;
use crate::env::Env;
use crate::ir::{FnName, FunctionId, Op};
use crate::layout::{BuiltinModel, LayoutModel, UnionModel};
use crate::layout_ids::LayoutIds;
use crate::laws::lemma_fields_code_nth;
use crate::shape::{fields_code_at, fields_code_len, generated, names, Names};

verus! {

/// Whether the code at `p` that hashes a recursive pointer hands it to the
/// procedure of the union that `ctx` names. Nothing is asked of the code
/// for another layout.
pub open spec fn pointer_linked(
    names: Names,
    insts: Seq<Op>,
    p: int,
    layout: LayoutModel,
    ctx: Option<UnionModel>,
) -> bool {
    layout is RecursivePointer ==> {
        &&& ctx matches Some(union_layout)
        &&& insts[p + 1] matches Op::Call { callee, .. }
        &&& names.proc_for(callee, LayoutModel::Union(union_layout))
    }
}

/// Whether, in the complete procedures that hash `layout` and its parts,
/// every recursive pointer is handed to the procedure of the union that
/// encloses it: of `ctx` outside any union of `layout`.
pub open spec fn linked(
    env: &Env,
    ids: &LayoutIds,
    layout: LayoutModel,
    ctx: Option<UnionModel>,
) -> bool
    decreases layout, 0int,
{
    match layout {
        LayoutModel::Builtin(BuiltinModel::List(element)) => {
            &&& forall|g: FunctionId|
                names(env, ids).proc_for(g, layout) && env.complete(g as int)
                    ==> #[trigger] pointer_linked(
                    names(env, ids),
                    env.insts(g as int, 3),
                    3,
                    *element,
                    ctx,
                )
            &&& linked(env, ids, *element, ctx)
        },
        LayoutModel::Struct(fields) => linked_fields(env, ids, fields, ctx),
        LayoutModel::Union(union_layout) => linked_union(env, ids, union_layout),
        _ => true,
    }
}

/// Whether the procedure of the struct with these fields, and those of the
/// fields, are linked.
pub open spec fn linked_fields(
    env: &Env,
    ids: &LayoutIds,
    fields: Seq<LayoutModel>,
    ctx: Option<UnionModel>,
) -> bool
    decreases fields, 0int,
{
    &&& forall|g: FunctionId, i: int|
        names(env, ids).proc_for(g, LayoutModel::Struct(fields)) && env.complete(g as int) && 0 <= i
            < fields.len() ==> #[trigger] pointer_linked(
            names(env, ids),
            env.insts(g as int, 0),
            fields_code_len(fields, i) + 1,
            fields[i],
            ctx,
        )
    &&& forall|i: int| 0 <= i < fields.len() ==> linked(env, ids, #[trigger] fields[i], ctx)
}

/// What a recursive pointer stands for in the fields of a union's variants.
pub open spec fn own_ctx(union_layout: UnionModel) -> Option<UnionModel> {
    if union_layout is NonRecursive {
        None
    } else {
        Some(union_layout)
    }
}

/// The field lists of the structs that a union's variants are hashed as.
pub open spec fn variants(union_layout: UnionModel) -> Seq<Seq<LayoutModel>> {
    match union_layout {
        UnionModel::NonRecursive(tags) => tags,
        UnionModel::Recursive(tags) => tags,
        UnionModel::NonNullableUnwrapped(fields) => seq![fields],
        UnionModel::NullableWrapped { other_tags, .. } => other_tags,
        UnionModel::NullableUnwrapped { other_fields, .. } => seq![other_fields],
    }
}

/// Whether the procedures of the variants of a union are linked, to the
/// union itself where it is recursive.
pub open spec fn linked_union(env: &Env, ids: &LayoutIds, union_layout: UnionModel) -> bool
    decreases union_layout, 0int,
{
    match union_layout {
        UnionModel::NonRecursive(tags) => forall|j: int|
            0 <= j < tags.len() ==> linked_fields(env, ids, #[trigger] tags[j], None),
        UnionModel::Recursive(tags) => forall|j: int|
            0 <= j < tags.len() ==> linked_fields(env, ids, #[trigger] tags[j], Some(union_layout)),
        UnionModel::NonNullableUnwrapped(fields) => linked_fields(
            env,
            ids,
            fields,
            Some(union_layout),
        ),
        UnionModel::NullableWrapped { other_tags, .. } => forall|j: int|
            0 <= j < other_tags.len() ==> linked_fields(
                env,
                ids,
                #[trigger] other_tags[j],
                Some(union_layout),
            ),
        UnionModel::NullableUnwrapped { other_fields, .. } => linked_fields(
            env,
            ids,
            other_fields,
            Some(union_layout),
        ),
    }
}

/// Whether a struct or list has a recursive pointer among its own fields
/// or as its element.
pub open spec fn has_direct_pointer(layout: LayoutModel) -> bool {
    match layout {
        LayoutModel::Builtin(BuiltinModel::List(element)) => *element is RecursivePointer,
        LayoutModel::Struct(fields) => exists|i: int|
            0 <= i < fields.len() && #[trigger] fields[i] is RecursivePointer,
        _ => false,
    }
}

/// Whether `layout` is hashed, with `c` standing for the recursive pointer,
/// in the course of hashing `t` where `ct` stands for it. A union is
/// hashed the same whatever stands for the recursive pointer outside it.
pub open spec fn within(
    t: LayoutModel,
    ct: Option<UnionModel>,
    layout: LayoutModel,
    c: Option<UnionModel>,
) -> bool
    decreases t, 0int,
{
    ||| t == layout && (ct == c || t is Union)
    ||| match t {
        LayoutModel::Builtin(BuiltinModel::List(element)) => within(*element, ct, layout, c),
        LayoutModel::Struct(fields) => within_fields(fields, ct, layout, c),
        LayoutModel::Union(union_layout) => within_union(union_layout, layout, c),
        _ => false,
    }
}

/// Whether `layout` is hashed in the course of hashing one of the fields.
pub open spec fn within_fields(
    fields: Seq<LayoutModel>,
    ct: Option<UnionModel>,
    layout: LayoutModel,
    c: Option<UnionModel>,
) -> bool
    decreases fields, 0int,
{
    exists|i: int| 0 <= i < fields.len() && within(#[trigger] fields[i], ct, layout, c)
}

/// Whether `layout` is hashed in the course of hashing the struct of a
/// variant with these fields.
pub open spec fn within_struct(
    fields: Seq<LayoutModel>,
    ct: Option<UnionModel>,
    layout: LayoutModel,
    c: Option<UnionModel>,
) -> bool
    decreases fields, 1int,
{
    ||| LayoutModel::Struct(fields) == layout && ct == c
    ||| within_fields(fields, ct, layout, c)
}

/// Whether `layout` is hashed in the course of hashing a variant of the union.
pub open spec fn within_union(
    union_layout: UnionModel,
    layout: LayoutModel,
    c: Option<UnionModel>,
) -> bool
    decreases union_layout, 0int,
{
    match union_layout {
        UnionModel::NonRecursive(tags) => exists|j: int|
            0 <= j < tags.len() && within_struct(#[trigger] tags[j], None, layout, c),
        UnionModel::Recursive(tags) => exists|j: int|
            0 <= j < tags.len() && within_struct(#[trigger] tags[j], Some(union_layout), layout, c),
        UnionModel::NonNullableUnwrapped(fields) => within_struct(
            fields,
            Some(union_layout),
            layout,
            c,
        ),
        UnionModel::NullableWrapped { other_tags, .. } => exists|j: int|
            0 <= j < other_tags.len() && within_struct(
                #[trigger] other_tags[j],
                Some(union_layout),
                layout,
                c,
            ),
        UnionModel::NullableUnwrapped { other_fields, .. } => within_struct(
            other_fields,
            Some(union_layout),
            layout,
            c,
        ),
    }
}

/// Whether `s`, wherever it is hashed in the course of hashing `t`, is
/// hashed with `c` standing for the recursive pointer.
pub open spec fn only_under(
    t: LayoutModel,
    ct: Option<UnionModel>,
    s: LayoutModel,
    c: Option<UnionModel>,
) -> bool
    decreases t, 0int,
{
    &&& t == s && !(t is Union) ==> ct == c
    &&& match t {
        LayoutModel::Builtin(BuiltinModel::List(element)) => only_under(*element, ct, s, c),
        LayoutModel::Struct(fields) => only_under_fields(fields, ct, s, c),
        LayoutModel::Union(union_layout) => only_under_union(union_layout, s, c),
        _ => true,
    }
}

/// Whether `s`, wherever it is hashed in the course of hashing one of the
/// fields, is hashed with `c` standing for the recursive pointer.
pub open spec fn only_under_fields(
    fields: Seq<LayoutModel>,
    ct: Option<UnionModel>,
    s: LayoutModel,
    c: Option<UnionModel>,
) -> bool
    decreases fields, 0int,
{
    forall|i: int| 0 <= i < fields.len() ==> only_under(#[trigger] fields[i], ct, s, c)
}

/// Whether `s`, wherever it is hashed in the course of hashing the struct of a
/// variant with these fields, is hashed with `c` standing for the recursive
/// pointer.
pub open spec fn only_under_struct(
    fields: Seq<LayoutModel>,
    ct: Option<UnionModel>,
    s: LayoutModel,
    c: Option<UnionModel>,
) -> bool
    decreases fields, 1int,
{
    &&& LayoutModel::Struct(fields) == s ==> ct == c
    &&& only_under_fields(fields, ct, s, c)
}

/// Whether `s`, wherever it is hashed in the course of hashing a variant of the
/// union, is hashed with `c` standing for the recursive pointer.
pub open spec fn only_under_union(
    union_layout: UnionModel,
    s: LayoutModel,
    c: Option<UnionModel>,
) -> bool
    decreases union_layout, 0int,
{
    match union_layout {
        UnionModel::NonRecursive(tags) => forall|j: int|
            0 <= j < tags.len() ==> only_under_struct(#[trigger] tags[j], None, s, c),
        UnionModel::Recursive(tags) => forall|j: int|
            0 <= j < tags.len() ==> only_under_struct(
                #[trigger] tags[j],
                Some(union_layout),
                s,
                c,
            ),
        UnionModel::NonNullableUnwrapped(fields) => only_under_struct(
            fields,
            Some(union_layout),
            s,
            c,
        ),
        UnionModel::NullableWrapped { other_tags, .. } => forall|j: int|
            0 <= j < other_tags.len() ==> only_under_struct(
                #[trigger] other_tags[j],
                Some(union_layout),
                s,
                c,
            ),
        UnionModel::NullableUnwrapped { other_fields, .. } => only_under_struct(
            other_fields,
            Some(union_layout),
            s,
            c,
        ),
    }
}

/// Whether no struct or list with a recursive pointer of its own is hashed
/// under two recursive unions in the course of hashing `t`: then the one
/// procedure that it gets serves every place where it occurs.
pub open spec fn unambiguous(t: LayoutModel) -> bool {
    forall|s: LayoutModel, c: Option<UnionModel>|
        #[trigger] within(t, None, s, c) && has_direct_pointer(s) ==> only_under(t, None, s, c)
}

/// What is hashed in the course of hashing a part is hashed in the course
/// of hashing the whole.
pub(crate) proof fn lemma_within_trans(
    t: LayoutModel,
    ct: Option<UnionModel>,
    m: LayoutModel,
    cm: Option<UnionModel>,
    layout: LayoutModel,
    c: Option<UnionModel>,
)
    requires
        within(t, ct, m, cm),
        within(m, cm, layout, c),
    ensures
        within(t, ct, layout, c),
    decreases t, 0int,
{
    if t == m && (ct == cm || t is Union) {
    } else {
        match t {
            LayoutModel::Builtin(BuiltinModel::List(element)) => {
                lemma_within_trans(*element, ct, m, cm, layout, c);
            },
            LayoutModel::Struct(fields) => {
                lemma_within_fields_trans(fields, ct, m, cm, layout, c);
            },
            LayoutModel::Union(union_layout) => {
                let own = Some(union_layout);
                assert(within_union(union_layout, m, cm));
                match union_layout {
                    UnionModel::NonRecursive(tags) => {
                        let j = choose|j: int|
                            0 <= j < tags.len() && within_struct(
                                #[trigger] tags[j],
                                None,
                                m,
                                cm,
                            );
                        lemma_within_struct_trans(tags[j], None, m, cm, layout, c);
                    },
                    UnionModel::Recursive(tags) => {
                        let j = choose|j: int|
                            0 <= j < tags.len() && within_struct(#[trigger] tags[j], own, m, cm);
                        lemma_within_struct_trans(tags[j], own, m, cm, layout, c);
                    },
                    UnionModel::NonNullableUnwrapped(fields) => {
                        lemma_within_struct_trans(fields, own, m, cm, layout, c);
                    },
                    UnionModel::NullableWrapped { other_tags, .. } => {
                        let j = choose|j: int|
                            0 <= j < other_tags.len() && within_struct(
                                #[trigger] other_tags[j],
                                own,
                                m,
                                cm,
                            );
                        lemma_within_struct_trans(other_tags[j], own, m, cm, layout, c);
                    },
                    UnionModel::NullableUnwrapped { other_fields, .. } => {
                        lemma_within_struct_trans(
                            other_fields,
                            own,
                            m,
                            cm,
                            layout,
                            c,
                        );
                    },
                }
                assert(within_union(union_layout, layout, c));
            },
            _ => {},
        }
    }
}

proof fn lemma_within_fields_trans(
    fields: Seq<LayoutModel>,
    ct: Option<UnionModel>,
    m: LayoutModel,
    cm: Option<UnionModel>,
    layout: LayoutModel,
    c: Option<UnionModel>,
)
    requires
        within_fields(fields, ct, m, cm),
        within(m, cm, layout, c),
    ensures
        within_fields(fields, ct, layout, c),
    decreases fields, 0int,
{
    let i = choose|i: int| 0 <= i < fields.len() && within(#[trigger] fields[i], ct, m, cm);
    lemma_within_trans(fields[i], ct, m, cm, layout, c);
}

proof fn lemma_within_struct_trans(
    fields: Seq<LayoutModel>,
    ct: Option<UnionModel>,
    m: LayoutModel,
    cm: Option<UnionModel>,
    layout: LayoutModel,
    c: Option<UnionModel>,
)
    requires
        within_struct(fields, ct, m, cm),
        within(m, cm, layout, c),
    ensures
        within_struct(fields, ct, layout, c),
    decreases fields, 1int,
{
    if LayoutModel::Struct(fields) == m && ct == cm {
        assert(within(LayoutModel::Struct(fields), ct, layout, c));
    } else {
        lemma_within_fields_trans(fields, ct, m, cm, layout, c);
    }
}

/// A field of a struct is hashed where the struct is.
pub(crate) proof fn lemma_within_field(
    t: LayoutModel,
    fields: Seq<LayoutModel>,
    ctx: Option<UnionModel>,
    i: int,
)
    requires
        within(t, None, LayoutModel::Struct(fields), ctx),
        0 <= i < fields.len(),
    ensures
        within(t, None, fields[i], ctx),
{
    assert(within(fields[i], ctx, fields[i], ctx));
    assert(within_fields(fields, ctx, fields[i], ctx));
    assert(within(LayoutModel::Struct(fields), ctx, fields[i], ctx));
    lemma_within_trans(t, None, LayoutModel::Struct(fields), ctx, fields[i], ctx);
}

/// The element of a list is hashed where the list is.
pub(crate) proof fn lemma_within_element(
    t: LayoutModel,
    element: LayoutModel,
    ctx: Option<UnionModel>,
)
    requires
        within(t, None, LayoutModel::Builtin(BuiltinModel::List(Box::new(element))), ctx),
    ensures
        within(t, None, element, ctx),
{
    let list = LayoutModel::Builtin(BuiltinModel::List(Box::new(element)));
    assert(within(element, ctx, element, ctx));
    assert(within(list, ctx, element, ctx));
    lemma_within_trans(t, None, list, ctx, element, ctx);
}

/// The struct of a variant is hashed where its union is, with the union
/// standing for the recursive pointer if it is recursive.
pub(crate) proof fn lemma_within_variant(
    t: LayoutModel,
    union_layout: UnionModel,
    ctx: Option<UnionModel>,
    j: int,
)
    requires
        within(t, None, LayoutModel::Union(union_layout), ctx),
        0 <= j < variants(union_layout).len(),
    ensures
        within(
            t,
            None,
            LayoutModel::Struct(variants(union_layout)[j]),
            own_ctx(union_layout),
        ),
{
    let fields = variants(union_layout)[j];
    let own = own_ctx(union_layout);
    let s = LayoutModel::Struct(fields);
    assert(within_struct(fields, own, s, own));
    match union_layout {
        UnionModel::NonRecursive(tags) => {
            assert(within_struct(tags[j], None, s, own));
        },
        UnionModel::Recursive(tags) => {
            assert(within_struct(tags[j], own, s, own));
        },
        UnionModel::NonNullableUnwrapped(_) => {},
        UnionModel::NullableWrapped { other_tags, .. } => {
            assert(within_struct(other_tags[j], own, s, own));
        },
        UnionModel::NullableUnwrapped { .. } => {},
    }
    assert(within_union(union_layout, s, own));
    assert(within(LayoutModel::Union(union_layout), ctx, s, own));
    lemma_within_trans(t, None, LayoutModel::Union(union_layout), ctx, s, own);
}

/// Whether the recursive pointers of procedure `f`, the complete procedure
/// of the struct or list `s`, are handed to the procedure of the union `c`.
pub open spec fn proc_pointers_linked(
    env: &Env,
    ids: &LayoutIds,
    f: int,
    s: LayoutModel,
    c: Option<UnionModel>,
) -> bool {
    match s {
        LayoutModel::Struct(fields) => forall|i: int|
            0 <= i < fields.len() ==> #[trigger] pointer_linked(
                names(env, ids),
                env.insts(f, 0),
                fields_code_len(fields, i) + 1,
                fields[i],
                c,
            ),
        LayoutModel::Builtin(BuiltinModel::List(element)) => pointer_linked(
            names(env, ids),
            env.insts(f, 3),
            3,
            *element,
            c,
        ),
        _ => true,
    }
}

/// What a step of code generation has done to the complete procedures: all
/// but `f` were complete before and are as they were, and `f`, if it is
/// complete now, is the procedure of `s` with its recursive pointers handed
/// to the procedure of the union `c`.
pub open spec fn completes(
    old_env: &Env,
    old_ids: &LayoutIds,
    env: &Env,
    ids: &LayoutIds,
    f: int,
    s: LayoutModel,
    c: Option<UnionModel>,
) -> bool {
    &&& generated(old_env, old_ids)
    &&& names(old_env, old_ids).kept_by(names(env, ids))
    &&& forall|g: int|
        env.has_function(g) && #[trigger] env.complete(g) && g != f ==> old_env.has_function(g)
            && old_env.complete(g) && env.functions()[g] == old_env.functions()[g]
    &&& env.has_function(f) && env.complete(f) ==> names(env, ids).proc_for(f as usize, s) && (
    has_direct_pointer(s) ==> proc_pointers_linked(env, ids, f, s, c))
}

/// Whether procedure `g` is complete and the procedure of `layout` after
/// the step, and so was before it unless it is `f`.
proof fn lemma_proc_was(
    old_env: &Env,
    old_ids: &LayoutIds,
    env: &Env,
    ids: &LayoutIds,
    f: int,
    s: LayoutModel,
    c: Option<UnionModel>,
    g: FunctionId,
    layout: LayoutModel,
)
    requires
        completes(old_env, old_ids, env, ids, f, s, c),
        names(env, ids).proc_for(g, layout),
        env.complete(g as int),
    ensures
        g != f ==> names(old_env, old_ids).proc_for(g, layout) && old_env.complete(g as int)
            && env.insts(g as int, 0) == old_env.insts(g as int, 0) && env.insts(g as int, 3)
            == old_env.insts(g as int, 3),
        g == f ==> layout == s,
{
    if g != f {
        assert(env.has_function(g as int));
        assert(env.functions()[g as int] == old_env.functions()[g as int]);
        assert(old_env.functions()[g as int].name is GenericHash);
    }
}

/// Procedures that were linked are linked after a step that completed at
/// most one procedure, if that one serves every place where its layout
/// occurs.
pub(crate) proof fn lemma_linked_transfer(
    old_env: &Env,
    old_ids: &LayoutIds,
    env: &Env,
    ids: &LayoutIds,
    f: int,
    s: LayoutModel,
    c: Option<UnionModel>,
    layout: LayoutModel,
    ctx: Option<UnionModel>,
)
    requires
        completes(old_env, old_ids, env, ids, f, s, c),
        linked(old_env, old_ids, layout, ctx),
        env.has_function(f) && env.complete(f) && has_direct_pointer(s) ==> only_under(
            layout,
            ctx,
            s,
            c,
        ),
    ensures
        linked(env, ids, layout, ctx),
    decreases layout, 0int,
{
    match layout {
        LayoutModel::Builtin(BuiltinModel::List(element)) => {
            lemma_linked_transfer(old_env, old_ids, env, ids, f, s, c, *element, ctx);
            assert forall|g: FunctionId|
                names(env, ids).proc_for(g, layout) && env.complete(g as int) implies #[trigger] pointer_linked(
                names(env, ids),
                env.insts(g as int, 3),
                3,
                *element,
                ctx,
            ) by {
                lemma_proc_was(old_env, old_ids, env, ids, f, s, c, g, layout);
                if g != f {
                    assert(pointer_linked(
                        names(old_env, old_ids),
                        old_env.insts(g as int, 3),
                        3,
                        *element,
                        ctx,
                    ));
                }
            }
        },
        LayoutModel::Struct(fields) => {
            lemma_linked_fields_transfer(old_env, old_ids, env, ids, f, s, c, fields, ctx);
        },
        LayoutModel::Union(union_layout) => {
            let own = Some(union_layout);
            assert(linked_union(old_env, old_ids, union_layout));
            if env.has_function(f) && env.complete(f) && has_direct_pointer(s) {
                assert(only_under_union(union_layout, s, c));
            }
            match union_layout {
                UnionModel::NonRecursive(tags) => {
                    assert forall|j: int| 0 <= j < tags.len() implies linked_fields(
                        env,
                        ids,
                        #[trigger] tags[j],
                        None,
                    ) by {
                        assert(linked_fields(old_env, old_ids, tags[j], None));
                        if env.has_function(f) && env.complete(f) && has_direct_pointer(s) {
                            assert(only_under_struct(tags[j], None, s, c));
                        }
                        lemma_linked_fields_transfer(
                            old_env,
                            old_ids,
                            env,
                            ids,
                            f,
                            s,
                            c,
                            tags[j],
                            None,
                        );
                    }
                },
                UnionModel::Recursive(tags) => {
                    assert forall|j: int| 0 <= j < tags.len() implies linked_fields(
                        env,
                        ids,
                        #[trigger] tags[j],
                        own,
                    ) by {
                        assert(linked_fields(old_env, old_ids, tags[j], own));
                        if env.has_function(f) && env.complete(f) && has_direct_pointer(s) {
                            assert(only_under_struct(tags[j], own, s, c));
                        }
                        lemma_linked_fields_transfer(
                            old_env,
                            old_ids,
                            env,
                            ids,
                            f,
                            s,
                            c,
                            tags[j],
                            own,
                        );
                    }
                },
                UnionModel::NonNullableUnwrapped(fields) => {
                    lemma_linked_fields_transfer(old_env, old_ids, env, ids, f, s, c, fields, own);
                },
                UnionModel::NullableWrapped { other_tags, .. } => {
                    assert forall|j: int| 0 <= j < other_tags.len() implies linked_fields(
                        env,
                        ids,
                        #[trigger] other_tags[j],
                        own,
                    ) by {
                        assert(linked_fields(old_env, old_ids, other_tags[j], own));
                        if env.has_function(f) && env.complete(f) && has_direct_pointer(s) {
                            assert(only_under_struct(other_tags[j], own, s, c));
                        }
                        lemma_linked_fields_transfer(
                            old_env,
                            old_ids,
                            env,
                            ids,
                            f,
                            s,
                            c,
                            other_tags[j],
                            own,
                        );
                    }
                },
                UnionModel::NullableUnwrapped { other_fields, .. } => {
                    lemma_linked_fields_transfer(
                        old_env,
                        old_ids,
                        env,
                        ids,
                        f,
                        s,
                        c,
                        other_fields,
                        own,
                    );
                },
            }
            assert(linked_union(env, ids, union_layout));
        },
        _ => {},
    }
}

proof fn lemma_linked_fields_transfer(
    old_env: &Env,
    old_ids: &LayoutIds,
    env: &Env,
    ids: &LayoutIds,
    f: int,
    s: LayoutModel,
    c: Option<UnionModel>,
    fields: Seq<LayoutModel>,
    ctx: Option<UnionModel>,
)
    requires
        completes(old_env, old_ids, env, ids, f, s, c),
        linked_fields(old_env, old_ids, fields, ctx),
        env.has_function(f) && env.complete(f) && has_direct_pointer(s) ==> only_under_struct(
            fields,
            ctx,
            s,
            c,
        ),
    ensures
        linked_fields(env, ids, fields, ctx),
    decreases fields, 1int,
{
    let layout = LayoutModel::Struct(fields);
    assert forall|i: int| 0 <= i < fields.len() implies linked(env, ids, #[trigger] fields[i], ctx) by {
        assert(linked(old_env, old_ids, fields[i], ctx));
        if env.has_function(f) && env.complete(f) && has_direct_pointer(s) {
            assert(only_under_fields(fields, ctx, s, c));
            assert(only_under(fields[i], ctx, s, c));
        }
        lemma_linked_transfer(old_env, old_ids, env, ids, f, s, c, fields[i], ctx);
    }
    assert forall|g: FunctionId, i: int|
        names(env, ids).proc_for(g, layout) && env.complete(g as int) && 0 <= i
            < fields.len() implies #[trigger] pointer_linked(
        names(env, ids),
        env.insts(g as int, 0),
        fields_code_len(fields, i) + 1,
        fields[i],
        ctx,
    ) by {
        lemma_proc_was(old_env, old_ids, env, ids, f, s, c, g, layout);
        if g != f {
            assert(pointer_linked(
                names(old_env, old_ids),
                old_env.insts(g as int, 0),
                fields_code_len(fields, i) + 1,
                fields[i],
                ctx,
            ));
        } else if fields[i] is RecursivePointer {
            assert(has_direct_pointer(s));
            assert(ctx == c);
            assert(pointer_linked(
                names(env, ids),
                env.insts(f, 0),
                fields_code_len(fields, i) + 1,
                fields[i],
                c,
            ));
        }
    }
}

/// In a module without a hash procedure, every layout is linked.
pub proof fn law_nothing_generated_is_linked(
    env: &Env,
    ids: &LayoutIds,
    layout: LayoutModel,
    ctx: Option<UnionModel>,
)
    requires
        forall|g: int| env.has_function(g) ==> !((#[trigger] env.functions()[g]).name is GenericHash),
    ensures
        linked(env, ids, layout, ctx),
    decreases layout, 0int,
{
    match layout {
        LayoutModel::Builtin(BuiltinModel::List(element)) => {
            law_nothing_generated_is_linked(env, ids, *element, ctx);
            assert forall|g: FunctionId|
                names(env, ids).proc_for(g, layout) && env.complete(g as int) implies #[trigger] pointer_linked(
                names(env, ids),
                env.insts(g as int, 3),
                3,
                *element,
                ctx,
            ) by {
                assert(env.functions()[g as int].name is GenericHash);
            }
        },
        LayoutModel::Struct(fields) => {
            lemma_nothing_generated_fields(env, ids, fields, ctx);
        },
        LayoutModel::Union(union_layout) => {
            let own = Some(union_layout);
            match union_layout {
                UnionModel::NonRecursive(tags) => {
                    assert forall|j: int| 0 <= j < tags.len() implies linked_fields(
                        env,
                        ids,
                        #[trigger] tags[j],
                        None,
                    ) by {
                        lemma_nothing_generated_fields(env, ids, tags[j], None);
                    }
                },
                UnionModel::Recursive(tags) => {
                    assert forall|j: int| 0 <= j < tags.len() implies linked_fields(
                        env,
                        ids,
                        #[trigger] tags[j],
                        own,
                    ) by {
                        lemma_nothing_generated_fields(env, ids, tags[j], own);
                    }
                },
                UnionModel::NonNullableUnwrapped(fields) => {
                    lemma_nothing_generated_fields(env, ids, fields, own);
                },
                UnionModel::NullableWrapped { other_tags, .. } => {
                    assert forall|j: int| 0 <= j < other_tags.len() implies linked_fields(
                        env,
                        ids,
                        #[trigger] other_tags[j],
                        own,
                    ) by {
                        lemma_nothing_generated_fields(env, ids, other_tags[j], own);
                    }
                },
                UnionModel::NullableUnwrapped { other_fields, .. } => {
                    lemma_nothing_generated_fields(
                        env,
                        ids,
                        other_fields,
                        own,
                    );
                },
            }
            assert(linked_union(env, ids, union_layout));
        },
        _ => {},
    }
}

proof fn lemma_nothing_generated_fields(
    env: &Env,
    ids: &LayoutIds,
    fields: Seq<LayoutModel>,
    ctx: Option<UnionModel>,
)
    requires
        forall|g: int| env.has_function(g) ==> !((#[trigger] env.functions()[g]).name is GenericHash),
    ensures
        linked_fields(env, ids, fields, ctx),
    decreases fields, 1int,
{
    assert forall|i: int| 0 <= i < fields.len() implies linked(env, ids, #[trigger] fields[i], ctx) by {
        law_nothing_generated_is_linked(env, ids, fields[i], ctx);
    }
    assert forall|g: FunctionId, i: int|
        names(env, ids).proc_for(g, LayoutModel::Struct(fields)) && env.complete(g as int) && 0 <= i
            < fields.len() implies #[trigger] pointer_linked(
        names(env, ids),
        env.insts(g as int, 0),
        fields_code_len(fields, i) + 1,
        fields[i],
        ctx,
    ) by {
        assert(env.functions()[g as int].name is GenericHash);
    }
}

/// The code that hashes the fields of a struct hands every recursive
/// pointer among them to the procedure of the union it was emitted for.
pub(crate) proof fn lemma_struct_pointers_linked(
    names: Names,
    ptr_bytes: u32,
    insts: Seq<Op>,
    fields: Seq<LayoutModel>,
    ctx: Option<UnionModel>,
    i: int,
)
    requires
        fields_code_at(names, ptr_bytes, insts, 0, fields, ctx, fields.len() as int),
        0 <= i < fields.len(),
        fields[i] is RecursivePointer ==> ctx is Some,
    ensures
        pointer_linked(names, insts, fields_code_len(fields, i) + 1, fields[i], ctx),
{
    lemma_fields_code_nth(names, ptr_bytes, insts, 0, fields, ctx, fields.len() as int, i);
}

/// A union is hashed in the same places whatever stands for the recursive
/// pointer outside it.
pub(crate) proof fn lemma_within_union_any(
    t: LayoutModel,
    ct: Option<UnionModel>,
    union_layout: UnionModel,
    c1: Option<UnionModel>,
    c2: Option<UnionModel>,
)
    requires
        within(t, ct, LayoutModel::Union(union_layout), c1),
    ensures
        within(t, ct, LayoutModel::Union(union_layout), c2),
    decreases t, 0int,
{
    let layout = LayoutModel::Union(union_layout);
    if t == layout {
    } else {
        match t {
            LayoutModel::Builtin(BuiltinModel::List(element)) => {
                lemma_within_union_any(*element, ct, union_layout, c1, c2);
            },
            LayoutModel::Struct(fields) => {
                lemma_within_fields_union_any(fields, ct, union_layout, c1, c2);
            },
            LayoutModel::Union(outer) => {
                let own = Some(outer);
                assert(within_union(outer, layout, c1));
                match outer {
                    UnionModel::NonRecursive(tags) => {
                        let j = choose|j: int|
                            0 <= j < tags.len() && within_struct(
                                #[trigger] tags[j],
                                None,
                                layout,
                                c1,
                            );
                        lemma_within_fields_union_any(tags[j], None, union_layout, c1, c2);
                        assert(within_struct(tags[j], None, layout, c2));
                    },
                    UnionModel::Recursive(tags) => {
                        let j = choose|j: int|
                            0 <= j < tags.len() && within_struct(#[trigger] tags[j], own, layout, c1);
                        lemma_within_fields_union_any(tags[j], own, union_layout, c1, c2);
                        assert(within_struct(tags[j], own, layout, c2));
                    },
                    UnionModel::NonNullableUnwrapped(fields) => {
                        lemma_within_fields_union_any(fields, own, union_layout, c1, c2);
                        assert(within_struct(fields, own, layout, c2));
                    },
                    UnionModel::NullableWrapped { other_tags, .. } => {
                        let j = choose|j: int|
                            0 <= j < other_tags.len() && within_struct(
                                #[trigger] other_tags[j],
                                own,
                                layout,
                                c1,
                            );
                        lemma_within_fields_union_any(other_tags[j], own, union_layout, c1, c2);
                        assert(within_struct(other_tags[j], own, layout, c2));
                    },
                    UnionModel::NullableUnwrapped { other_fields, .. } => {
                        lemma_within_fields_union_any(other_fields, own, union_layout, c1, c2);
                        assert(within_struct(other_fields, own, layout, c2));
                    },
                }
                assert(within_union(outer, layout, c2));
            },
            _ => {},
        }
    }
}

proof fn lemma_within_fields_union_any(
    fields: Seq<LayoutModel>,
    ct: Option<UnionModel>,
    union_layout: UnionModel,
    c1: Option<UnionModel>,
    c2: Option<UnionModel>,
)
    requires
        within_struct(fields, ct, LayoutModel::Union(union_layout), c1),
    ensures
        within_fields(fields, ct, LayoutModel::Union(union_layout), c2),
    decreases fields, 0int,
{
    let layout = LayoutModel::Union(union_layout);
    assert(within_fields(fields, ct, layout, c1));
    let i = choose|i: int| 0 <= i < fields.len() && within(#[trigger] fields[i], ct, layout, c1);
    lemma_within_union_any(fields[i], ct, union_layout, c1, c2);
}

/// What one call of `generic_hash` is about: the layout it was asked to
/// hash, how many procedures the module had and how many layouts had an id
/// when it began, and whether it keeps the procedures linked.
pub ghost struct Top {
    pub layout: LayoutModel,
    pub start: nat,
    pub ids_start: nat,
    pub strict: bool,
}

/// Whether `s` is hashed, with something standing for the recursive
/// pointer, in the course of hashing `layout` where `ctx` stands for it.
pub open spec fn hashed_within(layout: LayoutModel, ctx: Option<UnionModel>, s: LayoutModel) -> bool {
    exists|c: Option<UnionModel>| within(layout, ctx, s, c)
}

/// Whether every procedure that `env` has and `old_env` has not is the hash
/// procedure of a layout that is hashed in the course of hashing `layout`,
/// and every id that `ids` has and `old_ids` has not is the id of such a
/// layout.
pub open spec fn added_within(
    old_env: &Env,
    old_ids: &LayoutIds,
    env: &Env,
    ids: &LayoutIds,
    layout: LayoutModel,
) -> bool {
    &&& forall|g: int|
        old_env.functions().len() <= g < env.functions().len() ==> {
            &&& (#[trigger] env.functions()[g]).name matches FnName::GenericHash(id)
            &&& id < ids@.len()
            &&& hashed_within(layout, None, ids@[id as int])
        }
    &&& forall|i: int|
        old_ids@.len() <= i < ids@.len() ==> hashed_within(layout, None, #[trigger] ids@[i])
}

/// Whether every procedure added since the call began is the hash
/// procedure of a layout that is hashed in the course of hashing its
/// layout, and every id given since is the id of such a layout.
pub open spec fn rooted(env: &Env, ids: &LayoutIds, top: Top) -> bool {
    &&& forall|g: int|
        top.start <= g < env.functions().len() ==> {
            &&& (#[trigger] env.functions()[g]).name matches FnName::GenericHash(id)
            &&& id < ids@.len()
            &&& hashed_within(top.layout, None, ids@[id as int])
        }
    &&& forall|i: int|
        top.ids_start <= i < ids@.len() ==> hashed_within(top.layout, None, #[trigger] ids@[i])
}

/// What code generation keeps of the call it works for: it has added hash
/// procedures and ids for layouts of the call only, and if the call keeps
/// the procedures linked, its layout is unambiguous and they are.
pub open spec fn on_track(env: &Env, ids: &LayoutIds, top: Top) -> bool {
    &&& rooted(env, ids, top)
    &&& top.strict ==> unambiguous(top.layout) && linked(env, ids, top.layout, None)
}

/// Whether `layout`, with `ctx` standing for the recursive pointer, and
/// the union of `ctx` are hashed in the course of hashing the call's layout.
pub open spec fn tracks(top: Top, layout: LayoutModel, ctx: Option<UnionModel>) -> bool {
    &&& within(top.layout, None, layout, ctx)
    &&& ctx matches Some(w) ==> within(top.layout, None, LayoutModel::Union(w), None)
}

/// Code generation stays on track over a step that completes no procedure
/// and adds hash procedures and ids for layouts of the call only.
pub(crate) proof fn lemma_on_track_kept(
    old_env: &Env,
    old_ids: &LayoutIds,
    env: &Env,
    ids: &LayoutIds,
    f: int,
    top: Top,
)
    requires
        generated(old_env, old_ids),
        on_track(old_env, old_ids, top),
        old_env.others_kept(env, f),
        old_ids.kept_by(ids),
        forall|g: int|
            env.has_function(g) && (g == f || g >= old_env.functions().len())
                ==> !#[trigger] env.complete(g),
        forall|g: int|
            old_env.functions().len() <= g < env.functions().len() ==> {
                &&& (#[trigger] env.functions()[g]).name matches FnName::GenericHash(id)
                &&& id < ids@.len()
                &&& hashed_within(top.layout, None, ids@[id as int])
            },
        forall|i: int|
            old_ids@.len() <= i < ids@.len() ==> hashed_within(
                top.layout,
                None,
                #[trigger] ids@[i],
            ),
    ensures
        on_track(env, ids, top),
{
    lemma_rooted_kept(old_env, old_ids, env, ids, f, top);
    if top.strict {
        let t = top.layout;
        assert(names(old_env, old_ids).kept_by(names(env, ids)));
        assert forall|g: int|
            env.has_function(g) && #[trigger] env.complete(g) && g != -1 implies old_env.has_function(g)
            && old_env.complete(g) && env.functions()[g] == old_env.functions()[g] by {
            assert(env.functions()[g] == old_env.functions()[g]);
        }
        lemma_linked_transfer(old_env, old_ids, env, ids, -1, t, None, t, None);
    }
}

/// The procedures and ids added since the call began are still those of
/// layouts of the call after a step that added such procedures and ids
/// only.
proof fn lemma_rooted_kept(
    old_env: &Env,
    old_ids: &LayoutIds,
    env: &Env,
    ids: &LayoutIds,
    f: int,
    top: Top,
)
    requires
        generated(old_env, old_ids),
        rooted(old_env, old_ids, top),
        old_env.others_kept(env, f),
        old_ids.kept_by(ids),
        forall|g: int|
            old_env.functions().len() <= g < env.functions().len() ==> {
                &&& (#[trigger] env.functions()[g]).name matches FnName::GenericHash(id)
                &&& id < ids@.len()
                &&& hashed_within(top.layout, None, ids@[id as int])
            },
        forall|i: int|
            old_ids@.len() <= i < ids@.len() ==> hashed_within(
                top.layout,
                None,
                #[trigger] ids@[i],
            ),
    ensures
        rooted(env, ids, top),
{
    assert forall|g: int| top.start <= g < env.functions().len() implies {
        &&& (#[trigger] env.functions()[g]).name matches FnName::GenericHash(id)
        &&& id < ids@.len()
        &&& hashed_within(top.layout, None, ids@[id as int])
    } by {
        if g < old_env.functions().len() {
            assert(env.functions()[g].name == old_env.functions()[g].name);
            let id = old_env.functions()[g].name->GenericHash_0;
            assert(ids@[id as int] == old_ids@[id as int]);
        }
    }
    assert forall|i: int| top.ids_start <= i < ids@.len() implies hashed_within(
        top.layout,
        None,
        #[trigger] ids@[i],
    ) by {
        if i < old_ids@.len() {
            assert(ids@[i] == old_ids@[i]);
        }
    }
}

/// Code generation stays on track over the step that completes procedure
/// `f`, the procedure of `s`, whose recursive pointers are handed to the
/// procedure of the union `c` under which `s` is hashed.
pub(crate) proof fn lemma_on_track_completed(
    old_env: &Env,
    old_ids: &LayoutIds,
    env: &Env,
    ids: &LayoutIds,
    f: int,
    s: LayoutModel,
    c: Option<UnionModel>,
    top: Top,
)
    requires
        generated(old_env, old_ids),
        on_track(old_env, old_ids, top),
        old_env.others_kept(env, f),
        env.functions().len() == old_env.functions().len(),
        old_ids.kept_by(ids),
        env.has_function(f),
        names(env, ids).proc_for(f as usize, s),
        has_direct_pointer(s) ==> proc_pointers_linked(env, ids, f, s, c),
        within(top.layout, None, s, c),
        forall|i: int|
            old_ids@.len() <= i < ids@.len() ==> hashed_within(
                top.layout,
                None,
                #[trigger] ids@[i],
            ),
    ensures
        on_track(env, ids, top),
{
    lemma_rooted_kept(old_env, old_ids, env, ids, f, top);
    if top.strict {
        let t = top.layout;
        assert(names(old_env, old_ids).kept_by(names(env, ids)));
        assert forall|g: int|
            env.has_function(g) && #[trigger] env.complete(g) && g != f implies old_env.has_function(g)
            && old_env.complete(g) && env.functions()[g] == old_env.functions()[g] by {
            assert(env.functions()[g] == old_env.functions()[g]);
        }
        lemma_linked_transfer(old_env, old_ids, env, ids, f, s, c, t, None);
    }
}

} // verus!
