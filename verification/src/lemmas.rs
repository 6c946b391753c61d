//! Emitted code stays what it is while the module and the table of layout
//! ids grow.

use vstd::prelude::*;
use crate::env::Env;
use crate::ir::{BasicBlock, Block, BlockId, FnName, FunctionId, Op, PhiValue, Value};
use crate::layout::{LayoutModel, UnionModel};
use crate::layout_ids::LayoutIds;
use crate::shape::{
    fields_code_at, fields_code_len, fields_seed, generated, inline_branch, inst, layout_code_at,
    list_blocks, names, pointer_branch, proc_shape, union_blocks, union_hashable, union_proc,
    Names,
};

verus! {

/// `long` starts with all of `short`.
pub open spec fn extends(short: Seq<Op>, long: Seq<Op>) -> bool {
    &&& short.len() <= long.len()
    &&& forall|k: int| 0 <= k < short.len() ==> long[k] == short[k]
}

/// Appending in one place twice is appending there once.
pub(crate) proof fn lemma_emits_trans(a: &Env, b: &Env, c: &Env, n: int, m: int)
    requires
        a.emits(b, n),
        b.emits(c, m),
        0 <= n,
        0 <= m,
    ensures
        a.emits(c, n + m),
{
    let f = a.at().function as int;
    assert forall|g: int| a.functions().len() <= g < c.functions().len() implies #[trigger] c.complete(
        g,
    ) by {
        if g < b.functions().len() {
            assert(b.complete(g));
            assert(c.functions()[g] == b.functions()[g]);
        }
    }
}

/// The procedures that were added are still complete after steps that
/// left them alone.
pub(crate) proof fn lemma_added_complete_trans(a: &Env, b: &Env, c: &Env, f: int)
    requires
        a.functions().len() <= b.functions().len(),
        a.added_complete(b),
        b.added_complete(c),
        b.others_kept(c, f),
        f < a.functions().len(),
    ensures
        a.added_complete(c),
{
    assert forall|g: int| a.functions().len() <= g < c.functions().len() implies #[trigger] c.complete(
        g,
    ) by {
        if g < b.functions().len() {
            assert(b.complete(g));
            assert(c.functions()[g] == b.functions()[g]);
        }
    }
}

/// No code has a negative length.
pub(crate) proof fn lemma_fields_code_len_nonneg(fields: Seq<LayoutModel>, n: int)
    ensures
        0 <= fields_code_len(fields, n),
    decreases n,
{
    if n > 0 {
        lemma_fields_code_len_nonneg(fields, n - 1);
    }
}

/// Code that hashes a value is still that after more was emitted behind it
/// and more names became known.
pub(crate) proof fn lemma_layout_code_kept(
    n1: Names,
    n2: Names,
    ptr_bytes: u32,
    insts1: Seq<Op>,
    insts2: Seq<Op>,
    b: BlockId,
    p: int,
    layout: LayoutModel,
    ctx: Option<UnionModel>,
    seed: Value,
    val: Value,
)
    requires
        n1.kept_by(n2),
        extends(insts1, insts2),
        layout_code_at(n1, ptr_bytes, insts1, b, p, layout, ctx, seed, val),
    ensures
        layout_code_at(n2, ptr_bytes, insts2, b, p, layout, ctx, seed, val),
        layout_code_at(n2, ptr_bytes, insts2, b, p, layout, None, seed, val),
{
}

/// The code for the fields of a struct is still that after more was
/// emitted behind it and more names became known.
pub(crate) proof fn lemma_fields_code_kept(
    n1: Names,
    n2: Names,
    ptr_bytes: u32,
    insts1: Seq<Op>,
    insts2: Seq<Op>,
    b: BlockId,
    fields: Seq<LayoutModel>,
    ctx: Option<UnionModel>,
    n: int,
)
    requires
        n1.kept_by(n2),
        extends(insts1, insts2),
        fields_code_at(n1, ptr_bytes, insts1, b, fields, ctx, n),
    ensures
        fields_code_at(n2, ptr_bytes, insts2, b, fields, ctx, n),
        fields_code_at(n2, ptr_bytes, insts2, b, fields, None, n),
    decreases n,
{
    if n > 0 {
        lemma_fields_code_kept(n1, n2, ptr_bytes, insts1, insts2, b, fields, ctx, n - 1);
        lemma_fields_code_len_nonneg(fields, n - 1);
        let p = fields_code_len(fields, n - 1);
        lemma_layout_code_kept(
            n1,
            n2,
            ptr_bytes,
            insts1,
            insts2,
            b,
            p + 1,
            fields[n - 1],
            ctx,
            fields_seed(fields, b, n - 1),
            crate::shape::inst(b, p),
        );
    }
}

/// The body of a hash procedure is still the code for its layout after
/// more names became known.
pub(crate) proof fn lemma_proc_shape_kept(
    n1: Names,
    n2: Names,
    ptr_bytes: u32,
    blocks: Seq<Block>,
    layout: LayoutModel,
)
    requires
        n1.kept_by(n2),
        proc_shape(n1, ptr_bytes, blocks, layout),
    ensures
        proc_shape(n2, ptr_bytes, blocks, layout),
{
    match layout {
        LayoutModel::Struct(fields) => {
            lemma_fields_code_kept(
                n1,
                n2,
                ptr_bytes,
                blocks[0].insts@,
                blocks[0].insts@,
                0,
                fields,
                None,
                fields.len() as int,
            );
        },
        LayoutModel::Union(union_layout) => {
            lemma_union_proc_kept(n1, n2, blocks, union_layout);
        },
        LayoutModel::Builtin(crate::layout::BuiltinModel::List(element)) => {
            lemma_layout_code_kept(
                n1,
                n2,
                ptr_bytes,
                blocks[3].insts@,
                blocks[3].insts@,
                3,
                3,
                *element,
                None,
                crate::shape::inst(3, 2),
                crate::shape::inst(3, 1),
            );
        },
        _ => {},
    }
}

/// The body of a union's hash procedure is still that after more names
/// became known.
pub(crate) proof fn lemma_union_proc_kept(n1: Names, n2: Names, blocks: Seq<Block>, union_layout: UnionModel)
    requires
        n1.kept_by(n2),
        union_proc(n1, blocks, union_layout),
    ensures
        union_proc(n2, blocks, union_layout),
{
}

/// Code generation's state holds after a step that kept every procedure
/// but `f`, where `f` and the procedures that the step added have their own
/// names and, once complete, are the code for their layouts.
pub(crate) proof fn lemma_generated_kept(
    old_env: &Env,
    old_ids: &LayoutIds,
    env: &Env,
    ids: &LayoutIds,
    f: int,
)
    requires
        generated(old_env, old_ids),
        old_env.others_kept(env, f),
        old_ids.kept_by(ids),
        ids.wf(),
        forall|g: int, h: int|
            old_env.functions().len() <= g < env.functions().len() && env.has_function(h) && g != h
                ==> (#[trigger] env.functions()[g]).name != (#[trigger] env.functions()[h]).name,
        forall|g: int|
            old_env.functions().len() <= g < env.functions().len() ==> ((
            #[trigger] env.functions()[g]).name matches FnName::GenericHash(id) ==> id < ids@.len()
                && env.functions()[g].param_type == crate::ir::BasicType::Layout(id)),
        forall|g: int|
            env.has_function(g) && (g == f || g >= old_env.functions().len())
                && #[trigger] env.complete(g) ==> (env.functions()[g].name
                matches FnName::GenericHash(id) ==> proc_shape(
                names(env, ids),
                env.ptr_bytes,
                env.blocks(g),
                ids@[id as int],
            )),
    ensures
        generated(env, ids),
{
    let n1 = names(old_env, old_ids);
    let n2 = names(env, ids);
    assert(n1.kept_by(n2));
    assert forall|g: int| env.has_function(g) && #[trigger] env.complete(g) implies (env.functions()[g].name
        matches FnName::GenericHash(id) ==> proc_shape(
        n2,
        env.ptr_bytes,
        env.blocks(g),
        ids@[id as int],
    )) by {
        if g < old_env.functions().len() && g != f {
            assert(env.functions()[g] == old_env.functions()[g]);
            assert(old_env.complete(g));
            if let FnName::GenericHash(id) = env.functions()[g].name {
                lemma_proc_shape_kept(
                    n1,
                    n2,
                    env.ptr_bytes,
                    env.blocks(g),
                    old_ids@[id as int],
                );
            }
        }
    }
    assert forall|g: int, h: int|
        env.has_function(g) && env.has_function(h) && g != h implies (#[trigger] env.functions()[g]).name
        != (#[trigger] env.functions()[h]).name by {
        if g < old_env.functions().len() && h < old_env.functions().len() {
            assert(env.functions()[g].name == old_env.functions()[g].name);
            assert(env.functions()[h].name == old_env.functions()[h].name);
        }
    }
}

/// Whether two lists of blocks are the same but for what block 1 ends in.
pub open spec fn same_but_return(before: Seq<Block>, after: Seq<Block>) -> bool {
    &&& after.len() == before.len()
    &&& forall|c: int| 0 <= c < before.len() && c != 1 ==> after[c] == before[c]
    &&& before.len() > 1 ==> after[1].phis == before[1].phis && after[1].insts == before[1].insts
}

/// The blocks of a list's hash procedure are still that after block 1 got
/// its terminator and more names became known.
pub(crate) proof fn lemma_list_blocks_kept(
    n1: Names,
    n2: Names,
    ptr_bytes: u32,
    before: Seq<Block>,
    after: Seq<Block>,
    element: LayoutModel,
    ctx: Option<UnionModel>,
)
    requires
        n1.kept_by(n2),
        same_but_return(before, after),
        list_blocks(n1, ptr_bytes, before, element, ctx),
    ensures
        list_blocks(n2, ptr_bytes, after, element, ctx),
        list_blocks(n2, ptr_bytes, after, element, None),
{
    lemma_layout_code_kept(
        n1,
        n2,
        ptr_bytes,
        before[3].insts@,
        after[3].insts@,
        3,
        3,
        element,
        ctx,
        crate::shape::inst(3, 2),
        crate::shape::inst(3, 1),
    );
}

/// The blocks of a union's hash procedure are still that after block 1 got
/// its terminator and more names became known.
pub(crate) proof fn lemma_union_blocks_kept(
    n1: Names,
    n2: Names,
    before: Seq<Block>,
    after: Seq<Block>,
    union_layout: UnionModel,
)
    requires
        n1.kept_by(n2),
        same_but_return(before, after),
        union_blocks(n1, before, union_layout),
    ensures
        union_blocks(n2, after, union_layout),
{
}

/// Every block of a union's hash procedure has its terminator.
pub(crate) proof fn lemma_union_complete(names: Names, blocks: Seq<Block>, union_layout: UnionModel)
    requires
        union_proc(names, blocks, union_layout),
    ensures
        blocks.len() > 0,
        forall|b: int| 0 <= b < blocks.len() ==> (#[trigger] blocks[b]).terminator is Some,
{
    assert forall|b: int| 0 <= b < blocks.len() implies (#[trigger] blocks[b]).terminator is Some by {
        match union_layout {
            UnionModel::NonRecursive(tags) => {
                if b >= 2 {
                    assert(inline_branch(names, blocks[2 + (b - 2)], (2 + (b - 2)) as usize, tags[b - 2]));
                }
            },
            UnionModel::Recursive(tags) => {
                if b >= 2 {
                    assert(pointer_branch(names, blocks[2 + (b - 2)], (2 + (b - 2)) as usize, tags[b - 2]));
                }
            },
            UnionModel::NonNullableUnwrapped(_) => {},
            UnionModel::NullableWrapped { other_tags, .. } => {
                if b >= 4 {
                    assert(pointer_branch(
                        names,
                        blocks[4 + (b - 4)],
                        (4 + (b - 4)) as usize,
                        other_tags[b - 4],
                    ));
                }
            },
            UnionModel::NullableUnwrapped { .. } => {},
        }
    }
}

/// Whether `block`, which is block `b`, is the branch of the variant with
/// the given fields, behind the pointer or inline.
pub open spec fn branch(
    names: Names,
    block: Block,
    b: BlockId,
    fields: Seq<LayoutModel>,
    by_pointer: bool,
) -> bool {
    if by_pointer {
        pointer_branch(names, block, b, fields)
    } else {
        inline_branch(names, block, b, fields)
    }
}

/// The seed that the branch in block `b` hands to the join point.
pub open spec fn branch_answer(b: int, by_pointer: bool) -> (Value, BlockId) {
    (
        inst(
            b as usize,
            if by_pointer {
                2
            } else {
                1
            },
        ),
        b as usize,
    )
}

/// What holds while the branches of a union's hash procedure are emitted:
/// the procedure is `parent`, its block 1 is the join point with one phi
/// node, and that block is still open.
pub open spec fn branches_ready(
    env: &Env,
    ids: &LayoutIds,
    parent: FunctionId,
    merge_block: BasicBlock,
    merge_phi: PhiValue,
    union_layout: UnionModel,
) -> bool {
    &&& generated(env, ids)
    &&& env.has_function(parent as int)
    &&& names(env, ids).proc_for(parent, LayoutModel::Union(union_layout))
    &&& union_hashable(union_layout)
    &&& merge_block == (BasicBlock { function: parent, index: 1 })
    &&& merge_phi == (PhiValue { block: merge_block, index: 0 })
    &&& env.blocks(parent as int).len() >= 2
    &&& env.block(parent as int, 1).phis@.len() == 1
    &&& env.block(parent as int, 1).terminator is None
}

/// `env` is `old_env` after the branches of the first `n` variants were
/// emitted: one new block each, in order, behind the blocks that were
/// there, each handing its seed to the join point.
pub open spec fn branches_upto(
    old_env: &Env,
    old_ids: &LayoutIds,
    env: &Env,
    ids: &LayoutIds,
    parent: FunctionId,
    merge_phi: PhiValue,
    tags: Seq<Seq<LayoutModel>>,
    by_pointer: bool,
    n: int,
) -> bool {
    let f = parent as int;
    let first = old_env.blocks(f).len() as int;
    &&& old_env.others_kept(env, f)
    &&& old_env.added_complete(env)
    &&& old_ids.kept_by(ids)
    &&& env.blocks(f).len() == first + n
    &&& forall|c: int| 0 <= c < first && c != 1 ==> #[trigger] env.blocks(f)[c] == old_env.blocks(f)[c]
    &&& env.block(f, 1).insts == old_env.block(f, 1).insts
    &&& env.incoming(merge_phi) == old_env.incoming(merge_phi) + Seq::new(
        n as nat,
        |j: int| branch_answer(first + j, by_pointer),
    )
    &&& forall|j: int|
        0 <= j < n ==> branch(
            names(env, ids),
            #[trigger] env.blocks(f)[first + j],
            (first + j) as usize,
            tags[j],
            by_pointer,
        )
}

/// The branches of all variants were emitted, and the join point is still
/// open.
pub open spec fn branches_built(
    old_env: &Env,
    old_ids: &LayoutIds,
    env: &Env,
    ids: &LayoutIds,
    parent: FunctionId,
    merge_phi: PhiValue,
    tags: Seq<Seq<LayoutModel>>,
    by_pointer: bool,
) -> bool {
    &&& branches_upto(old_env, old_ids, env, ids, parent, merge_phi, tags, by_pointer, tags.len() as int)
    &&& generated(env, ids)
    &&& env.block(parent as int, 1).phis@.len() == 1
    &&& env.block(parent as int, 1).terminator is None
}

/// One more branch: the branches of `n` variants and then the branch of
/// variant `n` are the branches of `n + 1` variants.
pub(crate) proof fn lemma_branches_step(
    env0: &Env,
    ids0: &LayoutIds,
    env1: &Env,
    ids1: &LayoutIds,
    env2: &Env,
    ids2: &LayoutIds,
    parent: FunctionId,
    merge_phi: PhiValue,
    tags: Seq<Seq<LayoutModel>>,
    by_pointer: bool,
    n: int,
)
    requires
        0 <= n < tags.len(),
        env0.has_function(parent as int),
        env0.blocks(parent as int).len() >= 2,
        merge_phi == (PhiValue { block: BasicBlock { function: parent, index: 1 }, index: 0 }),
        branches_upto(env0, ids0, env1, ids1, parent, merge_phi, tags, by_pointer, n),
        env1.others_kept(env2, parent as int),
        env1.added_complete(env2),
        ids1.kept_by(ids2),
        env2.blocks(parent as int).len() == env1.blocks(parent as int).len() + 1,
        forall|c: int|
            0 <= c < env1.blocks(parent as int).len() && c != 1 ==> #[trigger] env2.blocks(
                parent as int,
            )[c] == env1.blocks(parent as int)[c],
        env2.block(parent as int, 1).insts == env1.block(parent as int, 1).insts,
        env2.incoming(merge_phi) == env1.incoming(merge_phi).push(
            branch_answer(env1.blocks(parent as int).len() as int, by_pointer),
        ),
        branch(
            names(env2, ids2),
            env2.blocks(parent as int)[env1.blocks(parent as int).len() as int],
            env1.blocks(parent as int).len() as usize,
            tags[n],
            by_pointer,
        ),
    ensures
        branches_upto(env0, ids0, env2, ids2, parent, merge_phi, tags, by_pointer, n + 1),
{
    let f = parent as int;
    let first = env0.blocks(f).len() as int;
    let n1 = names(env1, ids1);
    let n2 = names(env2, ids2);
    assert(n1.kept_by(n2));
    assert forall|g: int| env0.functions().len() <= g < env2.functions().len() implies #[trigger] env2.complete(
        g,
    ) by {
        if g < env1.functions().len() {
            assert(env1.complete(g));
            assert(env2.functions()[g] == env1.functions()[g]);
        }
    }
    assert forall|j: int| 0 <= j < n + 1 implies branch(
        n2,
        #[trigger] env2.blocks(f)[first + j],
        (first + j) as usize,
        tags[j],
        by_pointer,
    ) by {
        if j < n {
            assert(branch(n1, env1.blocks(f)[first + j], (first + j) as usize, tags[j], by_pointer));
            assert(env2.blocks(f)[first + j] == env1.blocks(f)[first + j]);
        }
    }
    assert(env2.incoming(merge_phi) =~= env0.incoming(merge_phi) + Seq::new(
        (n + 1) as nat,
        |j: int| branch_answer(first + j, by_pointer),
    ));
}

/// The branches are still the branches after a step that left their blocks
/// alone.
pub(crate) proof fn lemma_branches_kept(
    before: &Env,
    after: &Env,
    ids: &LayoutIds,
    f: int,
    first: int,
    tags: Seq<Seq<LayoutModel>>,
    by_pointer: bool,
)
    requires
        0 <= first,
        before.others_kept(after, f),
        before.has_function(f),
        after.blocks(f).len() == before.blocks(f).len(),
        before.blocks(f).len() == first + tags.len(),
        forall|c: int|
            first <= c < before.blocks(f).len() ==> #[trigger] after.blocks(f)[c] == before.blocks(f)[c],
        forall|j: int|
            0 <= j < tags.len() ==> branch(
                names(before, ids),
                #[trigger] before.blocks(f)[first + j],
                (first + j) as usize,
                tags[j],
                by_pointer,
            ),
    ensures
        forall|j: int|
            0 <= j < tags.len() ==> branch(
                names(after, ids),
                #[trigger] after.blocks(f)[first + j],
                (first + j) as usize,
                tags[j],
                by_pointer,
            ),
{
    let n1 = names(before, ids);
    let n2 = names(after, ids);
    assert(n1.kept_by(n2));
    assert forall|j: int| 0 <= j < tags.len() implies branch(
        n2,
        #[trigger] after.blocks(f)[first + j],
        (first + j) as usize,
        tags[j],
        by_pointer,
    ) by {
        assert(branch(n1, before.blocks(f)[first + j], (first + j) as usize, tags[j], by_pointer));
        assert(after.blocks(f)[first + j] == before.blocks(f)[first + j]);
    }
}

} // verus!
