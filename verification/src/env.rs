//! The builder: the module under construction, the place where the next
//! instruction goes, and the operations that emit code there.

use vstd::prelude::*;
use bumpalo::Bump;
use crate::ir::{
    BasicBlock, BasicType, Block, BlockId, FnName, Function, FunctionId, Module, Op, Phi, PhiValue,
    Terminator, Value,
};

verus! {

/// Everything code generation works on.
pub struct Env<'a> {
    /// Where short-lived tables are allocated.
    pub arena: &'a Bump,
    /// The procedures emitted so far.
    pub module: Module,
    /// The block at whose end the next instruction goes, if any.
    pub position: Option<BasicBlock>,
    /// The width of a pointer of the target, in bytes.
    pub ptr_bytes: u32,
}

impl<'a> Env<'a> {
    /// The procedures of the module, in the order in which they were declared.
    pub open spec fn functions(&self) -> Seq<Function> {
        self.module.functions@
    }

    /// Whether `f` is a procedure of the module.
    pub open spec fn has_function(&self, f: int) -> bool {
        0 <= f < self.functions().len()
    }

    /// The blocks of procedure `f`.
    pub open spec fn blocks(&self, f: int) -> Seq<Block> {
        self.functions()[f].blocks@
    }

    /// Whether `b` is a block of procedure `f`.
    pub open spec fn has_block(&self, f: int, b: int) -> bool {
        self.has_function(f) && 0 <= b < self.blocks(f).len()
    }

    /// Block `b` of procedure `f`.
    pub open spec fn block(&self, f: int, b: int) -> Block {
        self.blocks(f)[b]
    }

    /// The instructions of block `b` of procedure `f`.
    pub open spec fn insts(&self, f: int, b: int) -> Seq<Op> {
        self.block(f, b).insts@
    }

    /// Procedure `f` has a block, and every block of it has its terminator.
    pub open spec fn complete(&self, f: int) -> bool {
        &&& self.blocks(f).len() > 0
        &&& forall|b: int| 0 <= b < self.blocks(f).len() ==> (#[trigger] self.blocks(f)[b]).terminator is Some
    }

    /// The block where the next instruction goes.
    pub open spec fn at(&self) -> BasicBlock {
        self.position->0
    }

    /// The builder stands at the end of a block that has no terminator yet.
    pub open spec fn positioned(&self) -> bool {
        &&& self.position is Some
        &&& self.has_block(self.at().function as int, self.at().index as int)
        &&& self.block(self.at().function as int, self.at().index as int).terminator is None
    }

    /// The instructions of the block where the next instruction goes.
    pub open spec fn here(&self) -> Seq<Op> {
        self.insts(self.at().function as int, self.at().index as int)
    }

    /// The value that the next instruction will define.
    pub open spec fn next_value(&self) -> Value {
        Value::Inst { block: self.at().index, index: self.here().len() as usize }
    }

    /// Whether some procedure is called `name`.
    pub open spec fn has_name(&self, name: FnName) -> bool {
        exists|g: int| self.has_function(g) && (#[trigger] self.functions()[g]).name == name
    }

    /// `later` has every procedure of `self` under its name, and every one
    /// but `f` with the body it had.
    pub open spec fn others_kept(&self, later: &Env, f: int) -> bool {
        &&& later.ptr_bytes == self.ptr_bytes
        &&& self.functions().len() <= later.functions().len()
        &&& forall|g: int|
            0 <= g < self.functions().len() ==> (#[trigger] later.functions()[g]).name
                == self.functions()[g].name && later.functions()[g].param_type
                == self.functions()[g].param_type
        &&& forall|g: int|
            0 <= g < self.functions().len() && g != f ==> #[trigger] later.functions()[g]
                == self.functions()[g]
    }

    /// In procedure `f`, `later` has as many blocks as `self`, and every
    /// one but `b` is as it was.
    pub open spec fn blocks_kept(&self, later: &Env, f: int, b: int) -> bool {
        &&& later.blocks(f).len() == self.blocks(f).len()
        &&& forall|c: int|
            0 <= c < self.blocks(f).len() && c != b ==> #[trigger] later.blocks(f)[c]
                == self.blocks(f)[c]
    }

    /// Every procedure that `later` has and `self` has not is complete.
    pub open spec fn added_complete(&self, later: &Env) -> bool {
        forall|g: int|
            self.functions().len() <= g < later.functions().len() ==> #[trigger] later.complete(g)
    }

    /// `later` is `self` after `n` instructions were appended where the
    /// builder stands and any number of complete procedures were added;
    /// nothing else differs.
    pub open spec fn emits(&self, later: &Env, n: int) -> bool {
        let f = self.at().function as int;
        let b = self.at().index as int;
        &&& self.positioned()
        &&& later.position == self.position
        &&& self.others_kept(later, f)
        &&& self.added_complete(later)
        &&& self.blocks_kept(later, f, b)
        &&& later.block(f, b).phis == self.block(f, b).phis
        &&& later.block(f, b).terminator is None
        &&& later.insts(f, b).len() == self.insts(f, b).len() + n
        &&& forall|k: int|
            0 <= k < self.insts(f, b).len() ==> #[trigger] later.insts(f, b)[k] == self.insts(
                f,
                b,
            )[k]
    }

    /// `later` is `self` after the one instruction `op` was appended where
    /// the builder stands.
    pub open spec fn emits_op(&self, later: &Env, op: Op) -> bool {
        &&& self.emits(later, 1)
        &&& later.functions().len() == self.functions().len()
        &&& later.here().last() == op
    }

    /// `later` is `self` with the block where the builder stands closed by
    /// a terminator; nothing else differs.
    pub open spec fn terminates(&self, later: &Env) -> bool {
        let f = self.at().function as int;
        let b = self.at().index as int;
        &&& self.positioned()
        &&& later.position == self.position
        &&& self.others_kept(later, f)
        &&& later.functions().len() == self.functions().len()
        &&& self.blocks_kept(later, f, b)
        &&& later.block(f, b).phis == self.block(f, b).phis
        &&& later.block(f, b).insts == self.block(f, b).insts
        &&& later.block(f, b).terminator is Some
    }

    /// The terminator of the block where the builder stands.
    pub open spec fn terminator_here(&self) -> Terminator {
        self.block(self.at().function as int, self.at().index as int).terminator->0
    }

    /// An empty module with the builder nowhere.
    pub fn new(arena: &'a Bump, ptr_bytes: u32) -> (env: Env<'a>)
        ensures
            env.functions().len() == 0,
            env.position is None,
            env.ptr_bytes == ptr_bytes,
    {
        Env { arena, module: Module { functions: Vec::new() }, position: None, ptr_bytes }
    }

    /// The procedure called `name`, if there is one.
    pub fn get_function(&self, name: FnName) -> (found: Option<FunctionId>)
        ensures
            found matches Some(f) ==> self.has_function(f as int) && self.functions()[f as int].name
                == name,
            found is None ==> !self.has_name(name),
    {
        let mut g: usize = 0;
        while g < self.module.functions.len()
            invariant
                g <= self.functions().len(),
                forall|h: int| 0 <= h < g ==> (#[trigger] self.functions()[h]).name != name,
            decreases self.functions().len() - g,
        {
            if self.module.functions[g].name == name {
                return Some(g);
            }
            g += 1;
        }
        None
    }

    /// Declares a procedure from (seed, value of `param_type`) to seed, with
    /// no block yet.
    pub fn build_header_help(&mut self, name: FnName, param_type: BasicType) -> (f: FunctionId)
        ensures
            f == old(self).functions().len(),
            final(self).functions().len() == f + 1,
            old(self).others_kept(final(self), -1),
            final(self).functions()[f as int].name == name,
            final(self).functions()[f as int].param_type == param_type,
            final(self).blocks(f as int).len() == 0,
            final(self).position == old(self).position,
    {
        let f = self.module.functions.len();
        self.module.functions.push(Function { name, param_type, blocks: Vec::new() });
        f
    }

    /// Adds an empty block at the end of procedure `parent`.
    pub fn append_basic_block(&mut self, parent: FunctionId) -> (block: BasicBlock)
        requires
            old(self).has_function(parent as int),
        ensures
            block.function == parent,
            block.index == old(self).blocks(parent as int).len(),
            final(self).position == old(self).position,
            final(self).functions().len() == old(self).functions().len(),
            old(self).others_kept(final(self), parent as int),
            final(self).blocks(parent as int).len() == block.index + 1,
            forall|c: int|
                0 <= c < block.index ==> #[trigger] final(self).blocks(parent as int)[c] == old(
                    self,
                ).blocks(parent as int)[c],
            final(self).block(parent as int, block.index as int).phis@.len() == 0,
            final(self).block(parent as int, block.index as int).insts@.len() == 0,
            final(self).block(parent as int, block.index as int).terminator is None,
    {
        let index = self.module.functions[parent].blocks.len();
        self.module.functions[parent].blocks.push(
            Block { phis: Vec::new(), insts: Vec::new(), terminator: None },
        );
        BasicBlock { function: parent, index }
    }

    /// The block where the next instruction goes.
    pub fn get_insert_block(&self) -> (block: Option<BasicBlock>)
        ensures
            block == self.position,
    {
        self.position
    }

    /// Moves the builder to the end of `block`.
    pub fn position_at_end(&mut self, block: BasicBlock)
        ensures
            final(self).position == Some(block),
            final(self).module == old(self).module,
            final(self).ptr_bytes == old(self).ptr_bytes,
    {
        self.position = Some(block);
    }

    fn push_op(&mut self, op: Op) -> (v: Value)
        requires
            old(self).positioned(),
        ensures
            old(self).emits_op(final(self), op),
            v == old(self).next_value(),
    {
        let at = self.position.unwrap();
        let index = self.module.functions[at.function].blocks[at.index].insts.len();
        self.module.functions[at.function].blocks[at.index].insts.push(op);
        Value::Inst { block: at.index, index }
    }

    fn set_terminator(&mut self, terminator: Terminator)
        requires
            old(self).positioned(),
        ensures
            old(self).terminates(final(self)),
            final(self).terminator_here() == terminator,
    {
        let at = self.position.unwrap();
        self.module.functions[at.function].blocks[at.index].terminator = Some(terminator);
    }

    /// Reserves a stack slot for a value of type `ty`.
    pub fn build_alloca(&mut self, ty: BasicType) -> (v: Value)
        requires
            old(self).positioned(),
        ensures
            old(self).emits_op(final(self), Op::Alloca(ty)),
            v == old(self).next_value(),
    {
        self.push_op(Op::Alloca(ty))
    }

    /// Stores `value` to where `ptr` points.
    pub fn build_store(&mut self, ptr: Value, value: Value)
        requires
            old(self).positioned(),
        ensures
            old(self).emits_op(final(self), Op::Store { ptr, value }),
    {
        self.push_op(Op::Store { ptr, value });
    }

    /// Loads what `ptr` points to.
    pub fn build_load(&mut self, ptr: Value) -> (v: Value)
        requires
            old(self).positioned(),
        ensures
            old(self).emits_op(final(self), Op::Load(ptr)),
            v == old(self).next_value(),
    {
        self.push_op(Op::Load(ptr))
    }

    /// Sees `value` as a value of type `ty`.
    pub fn build_bitcast(&mut self, value: Value, ty: BasicType) -> (v: Value)
        requires
            old(self).positioned(),
        ensures
            old(self).emits_op(final(self), Op::Bitcast(value, ty)),
            v == old(self).next_value(),
    {
        self.push_op(Op::Bitcast(value, ty))
    }

    /// Takes the field at `index` out of a struct.
    pub fn build_extract_value(&mut self, aggregate: Value, index: u32) -> (v: Value)
        requires
            old(self).positioned(),
        ensures
            old(self).emits_op(final(self), Op::ExtractValue(aggregate, index)),
            v == old(self).next_value(),
    {
        self.push_op(Op::ExtractValue(aggregate, index))
    }

    /// Tests a pointer for null.
    pub fn build_is_null(&mut self, ptr: Value) -> (v: Value)
        requires
            old(self).positioned(),
        ensures
            old(self).emits_op(final(self), Op::IsNull(ptr)),
            v == old(self).next_value(),
    {
        self.push_op(Op::IsNull(ptr))
    }

    /// Compares two integers for equality.
    pub fn build_int_compare(&mut self, lhs: Value, rhs: Value) -> (v: Value)
        requires
            old(self).positioned(),
        ensures
            old(self).emits_op(final(self), Op::IntCompareEq(lhs, rhs)),
            v == old(self).next_value(),
    {
        self.push_op(Op::IntCompareEq(lhs, rhs))
    }

    /// Calls a procedure of this module; the call uses the fast calling
    /// convention that every hash procedure has.
    pub fn build_call(&mut self, function: FunctionId, seed: Value, value: Value) -> (v: Value)
        requires
            old(self).positioned(),
        ensures
            old(self).emits_op(final(self), Op::Call { callee: function, seed, value }),
            v == old(self).next_value(),
    {
        self.push_op(Op::Call { callee: function, seed, value })
    }

    /// Calls the primitive that mixes `num_bytes` bytes at `buffer` into `seed`.
    pub fn call_dict_hash(&mut self, seed: Value, buffer: Value, num_bytes: Value) -> (v: Value)
        requires
            old(self).positioned(),
        ensures
            old(self).emits_op(final(self), Op::CallDictHash { seed, buffer, num_bytes }),
            v == old(self).next_value(),
    {
        self.push_op(Op::CallDictHash { seed, buffer, num_bytes })
    }

    /// Calls the primitive that mixes a string into `seed`.
    pub fn call_dict_hash_str(&mut self, seed: Value, string: Value) -> (v: Value)
        requires
            old(self).positioned(),
        ensures
            old(self).emits_op(final(self), Op::CallDictHashStr { seed, string }),
            v == old(self).next_value(),
    {
        self.push_op(Op::CallDictHashStr { seed, string })
    }

    /// Sees a string value as one 128-bit integer, as the string mixer takes it.
    pub fn str_to_i128(&mut self, value: Value) -> (v: Value)
        requires
            old(self).positioned(),
        ensures
            old(self).emits_op(final(self), Op::StrToI128(value)),
            v == old(self).next_value(),
    {
        self.push_op(Op::StrToI128(value))
    }

    /// Sees `value` as a value of type `ty` by way of memory.
    pub fn complex_bitcast(&mut self, value: Value, ty: BasicType) -> (v: Value)
        requires
            old(self).positioned(),
        ensures
            old(self).emits_op(final(self), Op::ComplexBitcast(value, ty)),
            v == old(self).next_value(),
    {
        self.push_op(Op::ComplexBitcast(value, ty))
    }

    /// Sees a union's block of memory as the struct type `ty` of one variant.
    pub fn cast_block_of_memory_to_tag(&mut self, value: Value, ty: BasicType) -> (v: Value)
        requires
            old(self).positioned(),
        ensures
            old(self).emits_op(final(self), Op::CastBlockOfMemoryToTag(value, ty)),
            v == old(self).next_value(),
    {
        self.push_op(Op::CastBlockOfMemoryToTag(value, ty))
    }

    /// The length of a list value and the pointer to its elements.
    pub fn load_list(&mut self, list: Value, ptr_type: BasicType) -> (r: (Value, Value))
        requires
            old(self).positioned(),
        ensures
            old(self).emits(final(self), 2),
            final(self).functions().len() == old(self).functions().len(),
            final(self).here()[old(self).here().len() as int] == Op::ListLength(list),
            final(self).here()[old(self).here().len() as int + 1] == Op::ListPointer(list, ptr_type),
            r.0 == old(self).next_value(),
            r.1 == (Value::Inst {
                block: old(self).at().index,
                index: (old(self).here().len() + 1) as usize,
            }),
    {
        let length = self.push_op(Op::ListLength(list));
        let ptr = self.push_op(Op::ListPointer(list, ptr_type));
        (length, ptr)
    }

    /// Adds a phi node to the block where the builder stands.
    pub fn build_phi(&mut self, ty: BasicType) -> (phi: PhiValue)
        requires
            old(self).positioned(),
        ensures
            phi.block == old(self).at(),
            phi.index == old(self).block(phi.block.function as int, phi.block.index as int).phis@.len(),
            final(self).position == old(self).position,
            final(self).functions().len() == old(self).functions().len(),
            old(self).others_kept(final(self), phi.block.function as int),
            old(self).blocks_kept(final(self), phi.block.function as int, phi.block.index as int),
            final(self).block(phi.block.function as int, phi.block.index as int).insts == old(
                self,
            ).block(phi.block.function as int, phi.block.index as int).insts,
            final(self).block(phi.block.function as int, phi.block.index as int).terminator is None,
            final(self).block(phi.block.function as int, phi.block.index as int).phis@.len()
                == phi.index + 1,
            final(self).block(phi.block.function as int, phi.block.index as int).phis@[phi.index as int].incoming@.len()
                == 0,
            forall|k: int|
                0 <= k < phi.index ==> #[trigger] final(self).block(
                    phi.block.function as int,
                    phi.block.index as int,
                ).phis@[k] == old(self).block(
                    phi.block.function as int,
                    phi.block.index as int,
                ).phis@[k],
    {
        let at = self.position.unwrap();
        let index = self.module.functions[at.function].blocks[at.index].phis.len();
        self.module.functions[at.function].blocks[at.index].phis.push(Phi { incoming: Vec::new() });
        PhiValue { block: at, index }
    }

    /// Whether `phi` is a phi node of this module.
    pub open spec fn has_phi(&self, phi: PhiValue) -> bool {
        &&& self.has_block(phi.block.function as int, phi.block.index as int)
        &&& phi.index < self.block(phi.block.function as int, phi.block.index as int).phis@.len()
    }

    /// The (value, block) pairs of a phi node.
    pub open spec fn incoming(&self, phi: PhiValue) -> Seq<(Value, BlockId)> {
        self.block(phi.block.function as int, phi.block.index as int).phis@[phi.index as int].incoming@
    }

    /// Tells `phi` that it is `value` when control comes from `from`.
    pub fn add_incoming(&mut self, phi: PhiValue, value: Value, from: BasicBlock)
        requires
            old(self).has_phi(phi),
        ensures
            final(self).position == old(self).position,
            final(self).functions().len() == old(self).functions().len(),
            old(self).others_kept(final(self), phi.block.function as int),
            old(self).blocks_kept(final(self), phi.block.function as int, phi.block.index as int),
            final(self).block(phi.block.function as int, phi.block.index as int).insts == old(
                self,
            ).block(phi.block.function as int, phi.block.index as int).insts,
            final(self).block(phi.block.function as int, phi.block.index as int).terminator == old(
                self,
            ).block(phi.block.function as int, phi.block.index as int).terminator,
            final(self).block(phi.block.function as int, phi.block.index as int).phis@.len() == old(
                self,
            ).block(phi.block.function as int, phi.block.index as int).phis@.len(),
            forall|k: int|
                0 <= k < old(self).block(
                    phi.block.function as int,
                    phi.block.index as int,
                ).phis@.len() && k != phi.index ==> #[trigger] final(self).block(
                    phi.block.function as int,
                    phi.block.index as int,
                ).phis@[k] == old(self).block(
                    phi.block.function as int,
                    phi.block.index as int,
                ).phis@[k],
            final(self).incoming(phi) == old(self).incoming(phi).push((value, from.index)),
    {
        self.module.functions[phi.block.function].blocks[phi.block.index].phis[phi.index].incoming.push(
            (value, from.index),
        );
    }

    /// Ends the block with the return of `value`.
    pub fn build_return(&mut self, value: Value)
        requires
            old(self).positioned(),
        ensures
            old(self).terminates(final(self)),
            final(self).terminator_here() == Terminator::Return(value),
    {
        self.set_terminator(Terminator::Return(value));
    }

    /// Ends the block with a jump to `destination`.
    pub fn build_unconditional_branch(&mut self, destination: BasicBlock)
        requires
            old(self).positioned(),
        ensures
            old(self).terminates(final(self)),
            final(self).terminator_here() == Terminator::Branch(destination.index),
    {
        self.set_terminator(Terminator::Branch(destination.index));
    }

    /// Ends the block with a jump to `then_block` if `condition` is not zero, else to
    /// `else_block`.
    pub fn build_conditional_branch(
        &mut self,
        condition: Value,
        then_block: BasicBlock,
        else_block: BasicBlock,
    )
        requires
            old(self).positioned(),
        ensures
            old(self).terminates(final(self)),
            final(self).terminator_here() == (Terminator::ConditionalBranch {
                condition,
                then_block: then_block.index,
                else_block: else_block.index,
            }),
    {
        self.set_terminator(
            Terminator::ConditionalBranch {
                condition,
                then_block: then_block.index,
                else_block: else_block.index,
            },
        );
    }

    /// Ends the block with a multiway branch on `value`: to the block that
    /// `cases` lists for it, or to `default` if none does.
    pub fn build_switch(&mut self, value: Value, default: BasicBlock, cases: &[(u64, BlockId)])
        requires
            old(self).positioned(),
        ensures
            old(self).terminates(final(self)),
            final(self).terminator_here() matches Terminator::Switch { value: v, default: d, cases: c }
                && v == value && d == default.index && c@ == cases@,
    {
        let mut copy: Vec<(u64, BlockId)> = Vec::new();
        let mut i: usize = 0;
        while i < cases.len()
            invariant
                i <= cases@.len(),
                copy@ == cases@.subrange(0, i as int),
            decreases cases@.len() - i,
        {
            copy.push(cases[i]);
            assert(copy@ =~= cases@.subrange(0, i + 1));
            i += 1;
        }
        assert(copy@ =~= cases@);
        self.set_terminator(Terminator::Switch { value, default: default.index, cases: copy });
    }

    /// Starts the loop that walks the elements behind `ptr`, `length` of
    /// them and at least one: the block where the builder stands goes on
    /// to a new block, the loop's body, and the builder moves there. The
    /// body begins by taking the index of its round and the element at that
    /// index, which are handed back.
    pub fn incrementing_elem_loop_begin(&mut self, parent: FunctionId, ptr: Value, length: Value) -> (r: (
        Value,
        Value,
    ))
        requires
            old(self).positioned(),
            old(self).at().function == parent,
        ensures
            final(self).position == Some(
                BasicBlock { function: parent, index: old(self).blocks(parent as int).len() as usize },
            ),
            final(self).functions().len() == old(self).functions().len(),
            old(self).others_kept(final(self), parent as int),
            final(self).blocks(parent as int).len() == old(self).blocks(parent as int).len() + 1,
            forall|c: int|
                0 <= c < old(self).blocks(parent as int).len() && c != old(self).at().index
                    ==> #[trigger] final(self).blocks(parent as int)[c] == old(self).blocks(
                    parent as int,
                )[c],
            final(self).block(parent as int, old(self).at().index as int).phis == old(self).block(
                parent as int,
                old(self).at().index as int,
            ).phis,
            final(self).block(parent as int, old(self).at().index as int).insts == old(self).block(
                parent as int,
                old(self).at().index as int,
            ).insts,
            final(self).block(parent as int, old(self).at().index as int).terminator == Some(
                Terminator::Branch(final(self).at().index),
            ),
            final(self).block(parent as int, final(self).at().index as int).phis@.len() == 0,
            final(self).here() == seq![
                Op::ElemIndex,
                Op::ElemLoad {
                    ptr,
                    index: Value::Inst { block: final(self).at().index, index: 0 },
                },
            ],
            final(self).block(parent as int, final(self).at().index as int).terminator is None,
            r.0 == (Value::Inst { block: final(self).at().index, index: 0 }),
            r.1 == (Value::Inst { block: final(self).at().index, index: 1 }),
    {
        let body = self.append_basic_block(parent);
        self.build_unconditional_branch(body);
        self.position_at_end(body);
        let index = self.push_op(Op::ElemIndex);
        let element = self.push_op(Op::ElemLoad { ptr, index });
        assert(self.here() =~= seq![Op::ElemIndex, Op::ElemLoad { ptr, index }]);
        (index, element)
    }

    /// Ends the body of the loop over `length` elements whose round has the
    /// index `index`: the block where the builder stands goes back to its
    /// own start while elements are left, and on to a new block once none
    /// is; the builder moves to that block.
    pub fn incrementing_elem_loop_end(&mut self, parent: FunctionId, index: Value, length: Value)
        requires
            old(self).positioned(),
            old(self).at().function == parent,
        ensures
            final(self).position == Some(
                BasicBlock { function: parent, index: old(self).blocks(parent as int).len() as usize },
            ),
            final(self).functions().len() == old(self).functions().len(),
            old(self).others_kept(final(self), parent as int),
            final(self).blocks(parent as int).len() == old(self).blocks(parent as int).len() + 1,
            forall|c: int|
                0 <= c < old(self).blocks(parent as int).len() && c != old(self).at().index
                    ==> #[trigger] final(self).blocks(parent as int)[c] == old(self).blocks(
                    parent as int,
                )[c],
            final(self).block(parent as int, old(self).at().index as int).phis == old(self).block(
                parent as int,
                old(self).at().index as int,
            ).phis,
            final(self).block(parent as int, old(self).at().index as int).insts == old(self).block(
                parent as int,
                old(self).at().index as int,
            ).insts,
            final(self).block(parent as int, old(self).at().index as int).terminator == Some(
                Terminator::ElemLoopBack {
                    index,
                    length,
                    body: old(self).at().index,
                    after: final(self).at().index,
                },
            ),
            final(self).block(parent as int, final(self).at().index as int).phis@.len() == 0,
            final(self).here().len() == 0,
            final(self).block(parent as int, final(self).at().index as int).terminator is None,
    {
        let body = self.position.unwrap();
        let after = self.append_basic_block(parent);
        self.set_terminator(
            Terminator::ElemLoopBack { index, length, body: body.index, after: after.index },
        );
        self.position_at_end(after);
    }
}

} // verus!
