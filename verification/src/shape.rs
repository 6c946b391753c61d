//! What the emitted code looks like: for every kind of layout, the
//! instructions that hash a value of it, and for every hash procedure, its
//! blocks.

use vstd::prelude::*;
use crate::bump::max_cases;
use crate::env::Env;
use crate::ir::{BasicType, Block, BlockId, FnName, FunctionId, Op, Terminator, Value};
use crate::layout::{BuiltinModel, LayoutModel, UnionModel};
use crate::layout_ids::LayoutIds;

verus! {

/// Whether a builtin layout is a fixed-width number.
pub open spec fn is_scalar(builtin: BuiltinModel) -> bool {
    match builtin {
        BuiltinModel::Int128
        | BuiltinModel::Int64
        | BuiltinModel::Int32
        | BuiltinModel::Int16
        | BuiltinModel::Int8
        | BuiltinModel::Int1
        | BuiltinModel::Usize
        | BuiltinModel::Float128
        | BuiltinModel::Float64
        | BuiltinModel::Float32
        | BuiltinModel::Float16 => true,
        _ => false,
    }
}

/// Whether a builtin layout is one of the empty collections.
pub open spec fn is_empty_collection(builtin: BuiltinModel) -> bool {
    match builtin {
        BuiltinModel::EmptyStr
        | BuiltinModel::EmptyList
        | BuiltinModel::EmptyDict
        | BuiltinModel::EmptySet => true,
        _ => false,
    }
}

/// The number of bytes a fixed-width number takes.
pub open spec fn scalar_width(builtin: BuiltinModel, ptr_bytes: u32) -> u32 {
    match builtin {
        BuiltinModel::Int128 | BuiltinModel::Float128 => 16,
        BuiltinModel::Int64 | BuiltinModel::Float64 => 8,
        BuiltinModel::Int32 | BuiltinModel::Float32 => 4,
        BuiltinModel::Int16 | BuiltinModel::Float16 => 2,
        BuiltinModel::Int8 | BuiltinModel::Int1 => 1,
        _ => ptr_bytes,
    }
}

/// Whether hashing a value of `layout` is defined, given the recursive
/// union, if any, that a recursive pointer stands for.
///
/// Functions, dictionaries and sets are not hashed; a recursive pointer
/// needs its union; a union that is told apart by a tag id has at least one
/// variant.
pub open spec fn hashable(layout: LayoutModel, ctx: Option<UnionModel>) -> bool
    decreases layout,
{
    match layout {
        LayoutModel::Builtin(builtin) => match builtin {
            BuiltinModel::Dict | BuiltinModel::SetLayout => false,
            BuiltinModel::List(element) => hashable(*element, ctx),
            _ => true,
        },
        LayoutModel::Struct(fields) => fields_hashable(fields, ctx),
        LayoutModel::Union(union_layout) => union_hashable(union_layout),
        LayoutModel::RecursivePointer => ctx is Some,
        LayoutModel::FunctionPointer | LayoutModel::Closure => false,
    }
}

/// Whether every field can be hashed, and the fields can be numbered.
pub open spec fn fields_hashable(fields: Seq<LayoutModel>, ctx: Option<UnionModel>) -> bool
    decreases fields,
{
    &&& fields.len() <= u32::MAX
    &&& forall|i: int| 0 <= i < fields.len() ==> hashable(#[trigger] fields[i], ctx)
}

/// Whether there is at least one variant, no more than a case table holds,
/// and every field of every variant can be hashed.
pub open spec fn tags_hashable(tags: Seq<Seq<LayoutModel>>, ctx: Option<UnionModel>) -> bool
    decreases tags,
{
    &&& 0 < tags.len() <= max_cases()
    &&& forall|j: int| 0 <= j < tags.len() ==> fields_hashable(#[trigger] tags[j], ctx)
}

/// Whether a union can be hashed: the fields of its variants are hashed with its
/// own layout standing for the recursive pointer, but for a union that is stored
/// inline, which is not recursive.
pub open spec fn union_hashable(union_layout: UnionModel) -> bool
    decreases union_layout,
{
    match union_layout {
        UnionModel::NonRecursive(tags) => tags_hashable(tags, None),
        UnionModel::Recursive(tags) => tags_hashable(tags, Some(union_layout)),
        UnionModel::NonNullableUnwrapped(fields) => fields_hashable(fields, Some(union_layout)),
        UnionModel::NullableWrapped { other_tags, .. } => tags_hashable(
            other_tags,
            Some(union_layout),
        ),
        UnionModel::NullableUnwrapped { other_fields, .. } => fields_hashable(
            other_fields,
            Some(union_layout),
        ),
    }
}

/// The names under which procedures and layouts are known.
pub ghost struct Names {
    /// The name of each procedure of the module.
    pub procs: Seq<FnName>,
    /// The layout behind each layout id.
    pub layouts: Seq<LayoutModel>,
}

impl Names {
    /// Whether procedure `g` is the hash procedure of `layout`.
    pub open spec fn proc_for(self, g: FunctionId, layout: LayoutModel) -> bool {
        &&& g < self.procs.len()
        &&& self.procs[g as int] matches FnName::GenericHash(id)
        &&& id < self.layouts.len()
        &&& self.layouts[id as int] == layout
    }

    /// Whether `ty` is the type that holds values of `layout`.
    pub open spec fn type_of(self, ty: BasicType, layout: LayoutModel) -> bool {
        &&& ty matches BasicType::Layout(id)
        &&& id < self.layouts.len()
        &&& self.layouts[id as int] == layout
    }

    /// Whether `ty` is the type of pointers to values of `layout`.
    pub open spec fn pointer_to(self, ty: BasicType, layout: LayoutModel) -> bool {
        &&& ty matches BasicType::LayoutPointer(id)
        &&& id < self.layouts.len()
        &&& self.layouts[id as int] == layout
    }

    /// Whether `later` knows everything `self` knows, under the same name.
    pub open spec fn kept_by(self, later: Names) -> bool {
        &&& self.procs.len() <= later.procs.len()
        &&& forall|g: int| 0 <= g < self.procs.len() ==> later.procs[g] == self.procs[g]
        &&& self.layouts.len() <= later.layouts.len()
        &&& forall|i: int| 0 <= i < self.layouts.len() ==> later.layouts[i] == self.layouts[i]
    }
}

/// The names that a module and a table of layout ids give.
pub open spec fn names(env: &Env, ids: &LayoutIds) -> Names {
    Names {
        procs: Seq::new(env.functions().len(), |g: int| env.functions()[g].name),
        layouts: ids@,
    }
}

/// The instruction at `index` of block `block` as an operand.
pub open spec fn inst(block: BlockId, index: int) -> Value {
    Value::Inst { block, index: index as usize }
}

/// How many instructions hash one value of `layout`.
pub open spec fn code_len(layout: LayoutModel) -> int {
    match layout {
        LayoutModel::Builtin(builtin) => if is_scalar(builtin) {
            4
        } else if builtin is Str {
            2
        } else if builtin is List {
            1
        } else {
            0
        },
        LayoutModel::Struct(_) | LayoutModel::Union(_) => 1,
        LayoutModel::RecursivePointer => 2,
        _ => 0,
    }
}

/// The seed that comes out of the instructions that hash one value of
/// `layout` when they start at `p` in block `b`: their last result, or the
/// seed that went in where there are none.
pub open spec fn code_result(layout: LayoutModel, b: BlockId, p: int, seed: Value) -> Value {
    if code_len(layout) == 0 {
        seed
    } else {
        inst(b, p + code_len(layout) - 1)
    }
}

/// Whether `op` calls the hash procedure of `layout` on (`seed`, `value`).
pub open spec fn calls_proc(
    names: Names,
    op: Op,
    layout: LayoutModel,
    seed: Value,
    value: Value,
) -> bool {
    &&& op matches Op::Call { callee, seed: s, value: v }
    &&& s == seed
    &&& v == value
    &&& names.proc_for(callee, layout)
}

/// Whether the instructions from `p` on in block `b` hash `val`, a value of
/// `layout`, into `seed`:
/// - a number is stored to a fresh slot and its bytes are mixed in;
/// - a string is mixed in by the string primitive;
/// - an empty collection takes no instruction;
/// - a struct, union or list is handed to the hash procedure of its layout;
/// - a recursive pointer is cast to its union's type and handed to that
///   union's procedure: the union of `ctx` where that is given.
pub open spec fn layout_code_at(
    names: Names,
    ptr_bytes: u32,
    insts: Seq<Op>,
    b: BlockId,
    p: int,
    layout: LayoutModel,
    ctx: Option<UnionModel>,
    seed: Value,
    val: Value,
) -> bool {
    &&& 0 <= p
    &&& p + code_len(layout) <= insts.len()
    &&& match layout {
        LayoutModel::Builtin(builtin) => if is_scalar(builtin) {
            &&& insts[p] matches Op::Alloca(ty)
            &&& names.type_of(ty, layout)
            &&& insts[p + 1] == (Op::Store { ptr: inst(b, p), value: val })
            &&& insts[p + 2] == Op::Bitcast(inst(b, p), BasicType::I8Pointer)
            &&& insts[p + 3] == (Op::CallDictHash {
                seed,
                buffer: inst(b, p + 2),
                num_bytes: Value::ConstInt(scalar_width(builtin, ptr_bytes) as u64),
            })
        } else if builtin is Str {
            &&& insts[p] == Op::StrToI128(val)
            &&& insts[p + 1] == (Op::CallDictHashStr { seed, string: inst(b, p) })
        } else if builtin is List {
            calls_proc(names, insts[p], layout, seed, val)
        } else {
            true
        },
        LayoutModel::Struct(_) | LayoutModel::Union(_) => calls_proc(
            names,
            insts[p],
            layout,
            seed,
            val,
        ),
        LayoutModel::RecursivePointer => {
            &&& insts[p] matches Op::Bitcast(v, ty)
            &&& v == val
            &&& ty matches BasicType::Layout(id)
            &&& id < names.layouts.len()
            &&& names.layouts[id as int] is Union
            &&& ctx matches Some(u) ==> names.layouts[id as int] == LayoutModel::Union(u)
            &&& calls_proc(names, insts[p + 1], names.layouts[id as int], seed, inst(b, p))
        },
        _ => true,
    }
}

/// How many instructions hash the first `n` fields of a struct.
pub open spec fn fields_code_len(fields: Seq<LayoutModel>, n: int) -> int
    decreases n,
{
    if n <= 0 {
        0
    } else {
        fields_code_len(fields, n - 1) + 1 + code_len(fields[n - 1])
    }
}

/// The seed after the first `n` fields of a struct were hashed in block `b`
/// of its procedure.
pub open spec fn fields_seed(fields: Seq<LayoutModel>, b: BlockId, n: int) -> Value
    decreases n,
{
    if n <= 0 {
        Value::Param(0)
    } else {
        code_result(
            fields[n - 1],
            b,
            fields_code_len(fields, n - 1) + 1,
            fields_seed(fields, b, n - 1),
        )
    }
}

/// Whether block `b`, from its start, hashes the first `n` fields of the
/// struct that is the second parameter: field after field in the order of
/// `fields`, each taken out of the struct and hashed into the seed that the
/// field before it left.
pub open spec fn fields_code_at(
    names: Names,
    ptr_bytes: u32,
    insts: Seq<Op>,
    b: BlockId,
    fields: Seq<LayoutModel>,
    ctx: Option<UnionModel>,
    n: int,
) -> bool
    decreases n,
{
    if n <= 0 {
        true
    } else {
        let p = fields_code_len(fields, n - 1);
        &&& fields_code_at(names, ptr_bytes, insts, b, fields, ctx, n - 1)
        &&& p < insts.len()
        &&& insts[p] == Op::ExtractValue(Value::Param(1), (n - 1) as u32)
        &&& layout_code_at(
            names,
            ptr_bytes,
            insts,
            b,
            p + 1,
            fields[n - 1],
            ctx,
            fields_seed(fields, b, n - 1),
            inst(b, p),
        )
    }
}

/// Whether `blocks` is the body of the hash procedure of a struct with the
/// given fields: one block that folds the seed over the fields in order and
/// returns the last seed.
pub open spec fn struct_proc(
    names: Names,
    ptr_bytes: u32,
    blocks: Seq<Block>,
    fields: Seq<LayoutModel>,
    ctx: Option<UnionModel>,
) -> bool {
    &&& blocks.len() == 1
    &&& blocks[0].phis@.len() == 0
    &&& blocks[0].insts@.len() == fields_code_len(fields, fields.len() as int)
    &&& fields_code_at(names, ptr_bytes, blocks[0].insts@, 0, fields, ctx, fields.len() as int)
    &&& blocks[0].terminator == Some(
        Terminator::Return(fields_seed(fields, 0, fields.len() as int)),
    )
}

/// Whether the three instructions from `p` on in block `b` hash the struct
/// behind the pointer that is the second parameter: the pointer is cast to
/// a pointer to the struct of `fields`, the struct is loaded, and the hash
/// procedure of that struct is called on the seed parameter and the struct.
pub open spec fn ptr_to_struct_at(
    names: Names,
    insts: Seq<Op>,
    b: BlockId,
    p: int,
    fields: Seq<LayoutModel>,
) -> bool {
    &&& 0 <= p
    &&& p + 3 <= insts.len()
    &&& insts[p] matches Op::Bitcast(v, ty)
    &&& v == Value::Param(1)
    &&& names.pointer_to(ty, LayoutModel::Struct(fields))
    &&& insts[p + 1] == Op::Load(inst(b, p))
    &&& calls_proc(names, insts[p + 2], LayoutModel::Struct(fields), Value::Param(0), inst(b, p + 1))
}

/// Whether a block ends in the multiway branch over `n` variants whose
/// blocks are `first`, `first + 1`, ...: tag id `j` goes to block
/// `first + j`, and the last variant's block is the default.
pub open spec fn dispatches(terminator: Option<Terminator>, value: Value, first: int, n: int) -> bool {
    &&& terminator matches Some(Terminator::Switch { value: v, default, cases })
    &&& v == value
    &&& default == first + n - 1
    &&& cases@.len() == n - 1
    &&& forall|j: int| 0 <= j < n - 1 ==> #[trigger] cases@[j] == (j as u64, (first + j) as usize)
}

/// Whether `block` is the join point: one phi node with the given incoming
/// pairs and no instruction.
pub open spec fn merges(block: Block, incoming: Seq<(Value, BlockId)>) -> bool {
    &&& block.phis@.len() == 1
    &&& block.phis@[0].incoming@ == incoming
    &&& block.insts@.len() == 0
}

/// Whether `block`, which is block `b`, is the branch of a variant that is
/// stored inline: the union's memory is read as the struct of `fields`, that
/// struct's hash procedure is called, and control goes to the join point.
pub open spec fn inline_branch(names: Names, block: Block, b: BlockId, fields: Seq<LayoutModel>) -> bool {
    &&& block.phis@.len() == 0
    &&& block.insts@.len() == 2
    &&& block.insts@[0] matches Op::CastBlockOfMemoryToTag(v, ty)
    &&& v == Value::Param(1)
    &&& names.type_of(ty, LayoutModel::Struct(fields))
    &&& calls_proc(
        names,
        block.insts@[1],
        LayoutModel::Struct(fields),
        Value::Param(0),
        inst(b, 0),
    )
    &&& block.terminator == Some(Terminator::Branch(1))
}

/// Whether `block`, which is block `b`, is the branch of a variant that
/// lies behind the pointer: the struct of `fields` is loaded through it and
/// hashed, and control goes to the join point.
pub open spec fn pointer_branch(names: Names, block: Block, b: BlockId, fields: Seq<LayoutModel>) -> bool {
    &&& block.phis@.len() == 0
    &&& block.insts@.len() == 3
    &&& ptr_to_struct_at(names, block.insts@, b, 0, fields)
    &&& block.terminator == Some(Terminator::Branch(1))
}

/// Whether `block` is the branch of the null pointer: nothing is computed
/// and control goes to the join point.
pub open spec fn null_branch(block: Block) -> bool {
    &&& block.phis@.len() == 0
    &&& block.insts@.len() == 0
    &&& block.terminator == Some(Terminator::Branch(1))
}

/// Whether `block` tests the pointer that is the second parameter and goes
/// to block 2 if it is null and to block 3 if it is not.
pub open spec fn null_test(block: Block) -> bool {
    &&& block.phis@.len() == 0
    &&& block.insts@ == seq![Op::IsNull(Value::Param(1))]
    &&& block.terminator == Some(
        Terminator::ConditionalBranch { condition: inst(0, 0), then_block: 2, else_block: 3 },
    )
}

/// Whether `block`, which is block `b`, reads the tag id behind the pointer
/// that is the second parameter and branches on it over `n` variants whose
/// blocks start at `first`.
pub open spec fn pointer_tag_switch(block: Block, b: BlockId, first: int, n: int) -> bool {
    &&& block.phis@.len() == 0
    &&& block.insts@ == seq![
        Op::Bitcast(Value::Param(1), BasicType::I64Pointer),
        Op::Load(inst(b, 0)),
    ]
    &&& dispatches(block.terminator, inst(b, 1), first, n)
}

/// Whether `blocks` is the body of the hash procedure of a union: the tag
/// is decoded as its representation asks, every variant has its own branch
/// that hashes that variant's fields and no others, the null pointer leaves
/// the seed as it is, all branches meet at block 1, and block 1 returns the
/// seed of the branch that was taken.
pub open spec fn union_proc(names: Names, blocks: Seq<Block>, union_layout: UnionModel) -> bool {
    &&& union_blocks(names, blocks, union_layout)
    &&& blocks[1].terminator == Some(Terminator::Return(Value::Phi { block: 1, index: 0 }))
}

/// The blocks of a union's hash procedure, but for the return from block 1.
pub open spec fn union_blocks(names: Names, blocks: Seq<Block>, union_layout: UnionModel) -> bool {
    match union_layout {
        UnionModel::NonRecursive(tags) => {
            &&& blocks.len() == 2 + tags.len()
            &&& blocks[0].phis@.len() == 0
            &&& blocks[0].insts@ == seq![Op::ComplexBitcast(Value::Param(1), BasicType::I64)]
            &&& dispatches(blocks[0].terminator, inst(0, 0), 2, tags.len() as int)
            &&& merges(
                blocks[1],
                Seq::new(tags.len(), |j: int| (inst((2 + j) as usize, 1), (2 + j) as usize)),
            )
            &&& forall|j: int|
                0 <= j < tags.len() ==> inline_branch(
                    names,
                    #[trigger] blocks[2 + j],
                    (2 + j) as usize,
                    tags[j],
                )
        },
        UnionModel::Recursive(tags) => {
            &&& blocks.len() == 2 + tags.len()
            &&& pointer_tag_switch(blocks[0], 0, 2, tags.len() as int)
            &&& merges(
                blocks[1],
                Seq::new(tags.len(), |j: int| (inst((2 + j) as usize, 2), (2 + j) as usize)),
            )
            &&& forall|j: int|
                0 <= j < tags.len() ==> pointer_branch(
                    names,
                    #[trigger] blocks[2 + j],
                    (2 + j) as usize,
                    tags[j],
                )
        },
        UnionModel::NonNullableUnwrapped(fields) => {
            &&& blocks.len() == 2
            &&& pointer_branch(names, blocks[0], 0, fields)
            &&& merges(blocks[1], seq![(inst(0, 2), 0usize)])
        },
        UnionModel::NullableWrapped { other_tags, .. } => {
            &&& blocks.len() == 4 + other_tags.len()
            &&& null_test(blocks[0])
            &&& null_branch(blocks[2])
            &&& pointer_tag_switch(blocks[3], 3, 4, other_tags.len() as int)
            &&& merges(
                blocks[1],
                seq![(Value::Param(0), 2usize)] + Seq::new(
                    other_tags.len(),
                    |j: int| (inst((4 + j) as usize, 2), (4 + j) as usize),
                ),
            )
            &&& forall|j: int|
                0 <= j < other_tags.len() ==> pointer_branch(
                    names,
                    #[trigger] blocks[4 + j],
                    (4 + j) as usize,
                    other_tags[j],
                )
        },
        UnionModel::NullableUnwrapped { other_fields, .. } => {
            &&& blocks.len() == 4
            &&& null_test(blocks[0])
            &&& null_branch(blocks[2])
            &&& pointer_branch(names, blocks[3], 3, other_fields)
            &&& merges(blocks[1], seq![(Value::Param(0), 2usize), (inst(3, 2), 3usize)])
        },
    }
}

/// Whether `blocks` is the body of the hash procedure of a list of
/// `element`s: the seed is put in a slot; an empty list goes straight to
/// the end; otherwise the loop body, once per element and in index order,
/// loads the slot, hashes the element into it and stores the result; the
/// end returns what the slot holds.
pub open spec fn list_proc(
    names: Names,
    ptr_bytes: u32,
    blocks: Seq<Block>,
    element: LayoutModel,
    ctx: Option<UnionModel>,
) -> bool {
    &&& list_blocks(names, ptr_bytes, blocks, element, ctx)
    &&& blocks[1].terminator == Some(Terminator::Return(inst(1, 0)))
}

/// The blocks of a list's hash procedure, but for the return from block 1.
pub open spec fn list_blocks(
    names: Names,
    ptr_bytes: u32,
    blocks: Seq<Block>,
    element: LayoutModel,
    ctx: Option<UnionModel>,
) -> bool {
    let entry = blocks[0];
    let done = blocks[1];
    let body = blocks[3];
    &&& blocks.len() == 5
    &&& entry.phis@.len() == 0
    &&& entry.insts@.len() == 5
    &&& entry.insts@[0] == Op::ListLength(Value::Param(1))
    &&& entry.insts@[1] matches Op::ListPointer(v, ty)
    &&& v == Value::Param(1)
    &&& names.pointer_to(ty, element)
    &&& entry.insts@[2] == Op::Alloca(BasicType::I64)
    &&& entry.insts@[3] == (Op::Store { ptr: inst(0, 2), value: Value::Param(0) })
    &&& entry.insts@[4] == Op::IntCompareEq(inst(0, 0), Value::ConstInt(0))
    &&& entry.terminator == Some(
        Terminator::ConditionalBranch { condition: inst(0, 4), then_block: 1, else_block: 2 },
    )
    &&& done.phis@.len() == 0
    &&& done.insts@ == seq![Op::Load(inst(0, 2))]
    &&& blocks[2].phis@.len() == 0
    &&& blocks[2].insts@.len() == 0
    &&& blocks[2].terminator == Some(Terminator::Branch(3))
    &&& body.phis@.len() == 0
    &&& body.insts@.len() == 4 + code_len(element)
    &&& body.insts@[0] == Op::ElemIndex
    &&& body.insts@[1] == (Op::ElemLoad { ptr: inst(0, 1), index: inst(3, 0) })
    &&& body.insts@[2] == Op::Load(inst(0, 2))
    &&& layout_code_at(names, ptr_bytes, body.insts@, 3, 3, element, ctx, inst(3, 2), inst(3, 1))
    &&& body.insts@[3 + code_len(element)] == (Op::Store {
        ptr: inst(0, 2),
        value: code_result(element, 3, 3, inst(3, 2)),
    })
    &&& body.terminator == Some(
        Terminator::ElemLoopBack { index: inst(3, 0), length: inst(0, 0), body: 3, after: 4 },
    )
    &&& blocks[4].phis@.len() == 0
    &&& blocks[4].insts@.len() == 0
    &&& blocks[4].terminator == Some(Terminator::Branch(1))
}

/// Whether `blocks` is the body of the hash procedure of `layout`.
pub open spec fn proc_shape(
    names: Names,
    ptr_bytes: u32,
    blocks: Seq<Block>,
    layout: LayoutModel,
) -> bool {
    match layout {
        LayoutModel::Struct(fields) => struct_proc(names, ptr_bytes, blocks, fields, None),
        LayoutModel::Union(union_layout) => union_proc(names, blocks, union_layout),
        LayoutModel::Builtin(BuiltinModel::List(element)) => list_proc(
            names,
            ptr_bytes,
            blocks,
            *element,
            None,
        ),
        _ => false,
    }
}

/// The state that code generation keeps: no layout has two ids, no two
/// procedures have one name, every hash procedure is named by an id that
/// exists and takes, beside the seed, a value of the type of the layout with
/// that id, and every hash procedure that is complete is the code for the
/// layout it is named by.
pub open spec fn generated(env: &Env, ids: &LayoutIds) -> bool {
    &&& ids.wf()
    &&& forall|g: int, h: int|
        env.has_function(g) && env.has_function(h) && g != h ==> (#[trigger] env.functions()[g]).name
            != (#[trigger] env.functions()[h]).name
    &&& forall|g: int|
        env.has_function(g) ==> ((#[trigger] env.functions()[g]).name matches FnName::GenericHash(id)
            ==> id < ids@.len() && env.functions()[g].param_type == BasicType::Layout(id))
    &&& forall|g: int|
        env.has_function(g) && #[trigger] env.complete(g) ==> (env.functions()[g].name
            matches FnName::GenericHash(id) ==> proc_shape(
            names(env, ids),
            env.ptr_bytes,
            env.blocks(g),
            ids@[id as int],
        ))
}

} // verus!
