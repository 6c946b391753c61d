//! The emitted code as plain data: procedures made of basic blocks, each a
//! list of phi nodes, a list of instructions and a terminator.

use vstd::prelude::*;
use crate::layout_ids::LayoutId;

verus! {

/// The position of a procedure in its module.
pub type FunctionId = usize;

/// The position of a basic block in its procedure.
pub type BlockId = usize;

/// What a procedure is called.
#[derive(Clone, Copy, Debug, PartialEq, Eq, Structural)]
pub enum FnName {
    /// The hash procedure of the layout with this id.
    GenericHash(LayoutId),
    /// Any other procedure, told apart by a number.
    Other(usize),
}

/// The type of a value in the emitted code.
#[derive(Clone, Copy, Debug, PartialEq, Eq, Structural)]
pub enum BasicType {
    /// The 64-bit integer of seeds, tag ids and lengths.
    I64,
    /// A pointer to bytes.
    I8Pointer,
    /// A pointer to a 64-bit integer.
    I64Pointer,
    /// The type in which values of the layout with this id are held.
    Layout(LayoutId),
    /// A pointer to such a value.
    LayoutPointer(LayoutId),
}

/// A value of the procedure that is being built.
#[derive(Clone, Copy, Debug, PartialEq, Eq, Hash, Structural)]
pub enum Value {
    /// A parameter: 0 is the seed, 1 the value to hash.
    Param(usize),
    /// A 64-bit constant.
    ConstInt(u64),
    /// The result of the instruction at `index` in block `block`.
    Inst { block: BlockId, index: usize },
    /// The phi node at `index` in block `block`.
    Phi { block: BlockId, index: usize },
}

/// One instruction. Its result is `Value::Inst` with its own position.
#[derive(Clone, Copy, Debug, PartialEq, Eq)]
pub enum Op {
    /// Reserve a stack slot of the given type; the result points at it.
    Alloca(BasicType),
    Store { ptr: Value, value: Value },
    Load(Value),
    /// Reinterpret a value or pointer as another type of the same size.
    Bitcast(Value, BasicType),
    /// The field at the given position of a struct value.
    ExtractValue(Value, u32),
    IsNull(Value),
    IntCompareEq(Value, Value),
    /// Call a procedure of this module with a seed and a value.
    Call { callee: FunctionId, seed: Value, value: Value },
    /// Mix `num_bytes` bytes at `buffer` into `seed`.
    CallDictHash { seed: Value, buffer: Value, num_bytes: Value },
    /// Mix a string into `seed`.
    CallDictHashStr { seed: Value, string: Value },
    /// A string value as one 128-bit integer.
    StrToI128(Value),
    /// Reinterpret a value through memory, here a union's block as its tag id.
    ComplexBitcast(Value, BasicType),
    /// Reinterpret a union's block of memory as the struct of one variant.
    CastBlockOfMemoryToTag(Value, BasicType),
    /// The number of elements of a list value.
    ListLength(Value),
    /// The pointer to the elements of a list value.
    ListPointer(Value, BasicType),
    /// In the body of an element loop: the index of this round, counting from zero.
    ElemIndex,
    /// The element at `index` behind the element pointer `ptr`.
    ElemLoad { ptr: Value, index: Value },
}

/// How a basic block ends.
#[derive(Debug, PartialEq, Eq)]
pub enum Terminator {
    Return(Value),
    Branch(BlockId),
    ConditionalBranch { condition: Value, then_block: BlockId, else_block: BlockId },
    /// Go to the block listed for the value, or to `default` if none is.
    Switch { value: Value, default: BlockId, cases: Vec<(u64, BlockId)> },
    /// The end of an element loop's body: once more through `body` with the
    /// next index while that is below `length`, else on to `after`.
    ElemLoopBack { index: Value, length: Value, body: BlockId, after: BlockId },
}

/// A value that is whichever of `incoming` belongs to the block that control
/// came from.
#[derive(Debug, PartialEq, Eq)]
pub struct Phi {
    pub incoming: Vec<(Value, BlockId)>,
}

#[derive(Debug, PartialEq, Eq)]
/// A basic block: phi nodes, then instructions, then a terminator once the
/// block is closed.
pub struct Block {
    pub phis: Vec<Phi>,
    pub insts: Vec<Op>,
    pub terminator: Option<Terminator>,
}

/// A procedure with the two parameters seed and value, returning a seed. A
/// hash procedure takes a value of the type of the layout it is named by.
#[derive(Debug, PartialEq, Eq)]
pub struct Function {
    pub name: FnName,
    /// The type of the second parameter.
    pub param_type: BasicType,
    pub blocks: Vec<Block>,
}

/// The procedures that were emitted, each known by its position.
#[derive(Debug, PartialEq, Eq)]
pub struct Module {
    pub functions: Vec<Function>,
}

/// A basic block of some procedure.
#[derive(Clone, Copy, Debug, PartialEq, Eq, Structural)]
pub struct BasicBlock {
    pub function: FunctionId,
    pub index: BlockId,
}

/// A phi node of some procedure.
#[derive(Clone, Copy, Debug, PartialEq, Eq, Structural)]
pub struct PhiValue {
    pub block: BasicBlock,
    pub index: usize,
}

impl PhiValue {
    /// The phi node as an operand.
    pub fn as_basic_value(&self) -> (v: Value)
        ensures
            v == (Value::Phi { block: self.block.index, index: self.index }),
    {
        Value::Phi { block: self.block.index, index: self.index }
    }
}

} // verus!
