//! What the emitted code computes: the meaning of every instruction and
//! terminator over a model of run-time values, with the two mixing
//! primitives left open.

use vstd::prelude::*;
use crate::ir::{BasicType, BlockId, Function, Op, Phi, Terminator, Value};

verus! {

/// A value at run time.
pub ghost enum Datum {
    /// A 64-bit integer: a seed, a tag id, a length, a truth value.
    Int(u64),
    /// The bit pattern of a number, or the bytes of a string.
    Bytes(Seq<u8>),
    Struct(Seq<Datum>),
    List(Seq<Datum>),
    /// A union's block of memory: the tag id it holds and the fields of the
    /// variant with that id.
    Tagged(u64, Seq<Datum>),
    /// The null pointer.
    Null,
    /// A pointer that is not null, with what lies behind it.
    Pointer(Box<Datum>),
    /// The stack slot made by the `Alloca` at this place.
    Slot(BlockId, int),
    /// A union's pointer seen as a pointer to its tag id.
    TagIdPointer(Box<Datum>),
    /// A union's pointer seen as a pointer to the struct of a variant.
    StructPointer(Box<Datum>),
    /// The pointer to the elements of a list.
    Elements(Seq<Datum>),
    /// The result of an instruction that yields nothing.
    Undefined,
}

/// The two primitives that mix data into a seed. Nothing is known of them
/// but that each is a function of its arguments.
pub ghost struct Mixers {
    /// Mixes the given number of bytes of a buffer into a seed.
    pub bytes: spec_fn(u64, Seq<u8>, u64) -> u64,
    /// Mixes a string into a seed.
    pub string: spec_fn(u64, Seq<u8>) -> u64,
}

/// The state of one call of a procedure.
pub ghost struct Frame {
    /// What the instructions and phi nodes that ran have yielded.
    pub regs: Map<Value, Datum>,
    /// What each stack slot holds.
    pub slots: Map<(BlockId, int), Datum>,
}

impl Frame {
    /// The frame on entry to a procedure.
    pub open spec fn empty() -> Frame {
        Frame { regs: Map::empty(), slots: Map::empty() }
    }

    /// The frame after `v` yielded `d`.
    pub open spec fn bind(self, v: Value, d: Datum) -> Frame {
        Frame { regs: self.regs.insert(v, d), slots: self.slots }
    }

    /// The frame after `d` was stored to a slot.
    pub open spec fn store(self, slot: (BlockId, int), d: Datum) -> Frame {
        Frame { regs: self.regs, slots: self.slots.insert(slot, d) }
    }
}

/// What an operand stands for in a call with the given seed and value.
pub open spec fn operand(frame: Frame, seed: u64, arg: Datum, v: Value) -> Datum {
    match v {
        Value::Param(n) => if n == 0 {
            Datum::Int(seed)
        } else if n == 1 {
            arg
        } else {
            Datum::Undefined
        },
        Value::ConstInt(c) => Datum::Int(c),
        _ => if frame.regs.dom().contains(v) {
            frame.regs[v]
        } else {
            Datum::Undefined
        },
    }
}

/// What an instruction other than a call yields, in block `b` entered from
/// block `pred`; `None` where it cannot run.
pub open spec fn op_result(
    mix: Mixers,
    op: Op,
    b: BlockId,
    pc: int,
    pred: int,
    frame: Frame,
    seed: u64,
    arg: Datum,
) -> Option<Datum> {
    match op {
        Op::Alloca(_) => Some(Datum::Slot(b, pc)),
        Op::Store { ptr, value } => match operand(frame, seed, arg, ptr) {
            Datum::Slot(_, _) => Some(Datum::Undefined),
            _ => None,
        },
        Op::Load(ptr) => match operand(frame, seed, arg, ptr) {
            Datum::Slot(sb, si) => if frame.slots.dom().contains((sb, si)) {
                Some(frame.slots[(sb, si)])
            } else {
                None
            },
            Datum::TagIdPointer(p) => match *p {
                Datum::Pointer(q) => match *q {
                    Datum::Tagged(tag, _) => Some(Datum::Int(tag)),
                    _ => None,
                },
                _ => None,
            },
            Datum::StructPointer(p) => match *p {
                Datum::Pointer(q) => match *q {
                    Datum::Tagged(_, fields) => Some(Datum::Struct(fields)),
                    Datum::Struct(fields) => Some(Datum::Struct(fields)),
                    _ => None,
                },
                _ => None,
            },
            _ => None,
        },
        Op::Bitcast(v, ty) => match ty {
            BasicType::I64Pointer => match operand(frame, seed, arg, v) {
                Datum::Null => Some(Datum::TagIdPointer(Box::new(Datum::Null))),
                Datum::Pointer(p) => Some(Datum::TagIdPointer(Box::new(Datum::Pointer(p)))),
                _ => None,
            },
            BasicType::LayoutPointer(_) => match operand(frame, seed, arg, v) {
                Datum::Null => Some(Datum::StructPointer(Box::new(Datum::Null))),
                Datum::Pointer(p) => Some(Datum::StructPointer(Box::new(Datum::Pointer(p)))),
                _ => None,
            },
            _ => Some(operand(frame, seed, arg, v)),
        },
        Op::ExtractValue(v, index) => match operand(frame, seed, arg, v) {
            Datum::Struct(fields) => if index < fields.len() {
                Some(fields[index as int])
            } else {
                None
            },
            _ => None,
        },
        Op::IsNull(v) => match operand(frame, seed, arg, v) {
            Datum::Null => Some(Datum::Int(1)),
            Datum::Pointer(_) => Some(Datum::Int(0)),
            _ => None,
        },
        Op::IntCompareEq(lhs, rhs) => match (
            operand(frame, seed, arg, lhs),
            operand(frame, seed, arg, rhs),
        ) {
            (Datum::Int(x), Datum::Int(y)) => Some(
                Datum::Int(
                    if x == y {
                        1
                    } else {
                        0
                    },
                ),
            ),
            _ => None,
        },
        Op::Call { .. } => None,
        Op::CallDictHash { seed: s, buffer, num_bytes } => match (
            operand(frame, seed, arg, s),
            operand(frame, seed, arg, buffer),
            operand(frame, seed, arg, num_bytes),
        ) {
            (Datum::Int(x), Datum::Slot(sb, si), Datum::Int(width)) => if frame.slots.dom().contains(
                (sb, si),
            ) {
                match frame.slots[(sb, si)] {
                    Datum::Bytes(bytes) => Some(Datum::Int((mix.bytes)(x, bytes, width))),
                    _ => None,
                }
            } else {
                None
            },
            _ => None,
        },
        Op::CallDictHashStr { seed: s, string } => match (
            operand(frame, seed, arg, s),
            operand(frame, seed, arg, string),
        ) {
            (Datum::Int(x), Datum::Bytes(bytes)) => Some(Datum::Int((mix.string)(x, bytes))),
            _ => None,
        },
        Op::StrToI128(v) => match operand(frame, seed, arg, v) {
            Datum::Bytes(bytes) => Some(Datum::Bytes(bytes)),
            _ => None,
        },
        Op::ComplexBitcast(v, _) => match operand(frame, seed, arg, v) {
            Datum::Tagged(tag, _) => Some(Datum::Int(tag)),
            _ => None,
        },
        Op::CastBlockOfMemoryToTag(v, _) => match operand(frame, seed, arg, v) {
            Datum::Tagged(_, fields) => Some(Datum::Struct(fields)),
            _ => None,
        },
        Op::ListLength(v) => match operand(frame, seed, arg, v) {
            Datum::List(elements) => if elements.len() <= u64::MAX {
                Some(Datum::Int(elements.len() as u64))
            } else {
                None
            },
            _ => None,
        },
        Op::ListPointer(v, _) => match operand(frame, seed, arg, v) {
            Datum::List(elements) => Some(Datum::Elements(elements)),
            _ => None,
        },
        Op::ElemIndex => if pred == b {
            match operand(frame, seed, arg, Value::Inst { block: b, index: pc as usize }) {
                Datum::Int(i) => if i < u64::MAX {
                    Some(Datum::Int((i + 1) as u64))
                } else {
                    None
                },
                _ => None,
            }
        } else {
            Some(Datum::Int(0))
        },
        Op::ElemLoad { ptr, index } => match (
            operand(frame, seed, arg, ptr),
            operand(frame, seed, arg, index),
        ) {
            (Datum::Elements(elements), Datum::Int(i)) => if i < elements.len() {
                Some(elements[i as int])
            } else {
                None
            },
            _ => None,
        },
    }
}

/// The frame after an instruction other than a call ran and yielded `d`.
pub open spec fn op_frame(op: Op, b: BlockId, pc: int, frame: Frame, seed: u64, arg: Datum, d: Datum) -> Frame {
    let bound = frame.bind(Value::Inst { block: b, index: pc as usize }, d);
    match op {
        Op::Store { ptr, value } => match operand(frame, seed, arg, ptr) {
            Datum::Slot(sb, si) => bound.store((sb, si), operand(frame, seed, arg, value)),
            _ => bound,
        },
        _ => bound,
    }
}

/// The value a phi node takes when control comes from `pred`: that of the
/// first incoming pair for `pred`, looking from position `k` on.
pub open spec fn phi_source(incoming: Seq<(Value, BlockId)>, pred: int, k: int) -> Option<Value>
    decreases incoming.len() - k,
{
    if k < 0 || k >= incoming.len() {
        None
    } else if incoming[k].1 == pred {
        Some(incoming[k].0)
    } else {
        phi_source(incoming, pred, k + 1)
    }
}

/// Where a multiway branch goes for `v`: to the block of the first case
/// for `v`, looking from position `k` on, or to `default`.
pub open spec fn switch_target(cases: Seq<(u64, BlockId)>, v: u64, default: BlockId, k: int) -> BlockId
    decreases cases.len() - k,
{
    if k < 0 || k >= cases.len() {
        default
    } else if cases[k].0 == v {
        cases[k].1
    } else {
        switch_target(cases, v, default, k + 1)
    }
}

/// The frame after the first `n` phi nodes of block `b` took their values
/// on entry from `pred`.
pub open spec fn run_phis(
    phis: Seq<Phi>,
    b: BlockId,
    pred: int,
    frame: Frame,
    seed: u64,
    arg: Datum,
    n: int,
) -> Option<Frame>
    decreases n,
{
    if n <= 0 {
        Some(frame)
    } else {
        match run_phis(phis, b, pred, frame, seed, arg, n - 1) {
            None => None,
            Some(sofar) => match phi_source(phis[n - 1].incoming@, pred, 0) {
                None => None,
                Some(v) => Some(
                    sofar.bind(
                        Value::Phi { block: b, index: (n - 1) as usize },
                        operand(frame, seed, arg, v),
                    ),
                ),
            },
        }
    }
}

/// The seed that procedure `g` returns for (`seed`, `arg`), if it returns
/// one within `fuel` calls and jumps.
pub open spec fn run_function(
    fns: Seq<Function>,
    mix: Mixers,
    g: int,
    seed: u64,
    arg: Datum,
    fuel: nat,
) -> Option<u64>
    decreases fuel, 3int, 0int,
{
    if fuel == 0 || g < 0 || g >= fns.len() || fns[g].blocks@.len() == 0 {
        None
    } else {
        run_block(fns, mix, g, 0, -1, Frame::empty(), seed, arg, (fuel - 1) as nat)
    }
}

/// The seed that procedure `g` returns when control enters block `b` from
/// block `pred`.
pub open spec fn run_block(
    fns: Seq<Function>,
    mix: Mixers,
    g: int,
    b: BlockId,
    pred: int,
    frame: Frame,
    seed: u64,
    arg: Datum,
    fuel: nat,
) -> Option<u64>
    decreases fuel, 2int, 0int,
{
    if g < 0 || g >= fns.len() || b >= fns[g].blocks@.len() {
        None
    } else {
        let block = fns[g].blocks@[b as int];
        match run_phis(block.phis@, b, pred, frame, seed, arg, block.phis@.len() as int) {
            None => None,
            Some(entered) => match run_insts(fns, mix, g, b, 0, pred, entered, seed, arg, fuel) {
                None => None,
                Some(done) => match block.terminator {
                    None => None,
                    Some(Terminator::Return(v)) => match operand(done, seed, arg, v) {
                        Datum::Int(x) => Some(x),
                        _ => None,
                    },
                    Some(Terminator::Branch(target)) => if fuel == 0 {
                        None
                    } else {
                        run_block(fns, mix, g, target, b as int, done, seed, arg, (fuel - 1) as nat)
                    },
                    Some(Terminator::ConditionalBranch { condition, then_block, else_block }) => {
                        match operand(done, seed, arg, condition) {
                            Datum::Int(c) => if fuel == 0 {
                                None
                            } else {
                                run_block(
                                    fns,
                                    mix,
                                    g,
                                    if c != 0 {
                                        then_block
                                    } else {
                                        else_block
                                    },
                                    b as int,
                                    done,
                                    seed,
                                    arg,
                                    (fuel - 1) as nat,
                                )
                            },
                            _ => None,
                        }
                    },
                    Some(Terminator::Switch { value, default, cases }) => match operand(
                        done,
                        seed,
                        arg,
                        value,
                    ) {
                        Datum::Int(v) => if fuel == 0 {
                            None
                        } else {
                            run_block(
                                fns,
                                mix,
                                g,
                                switch_target(cases@, v, default, 0),
                                b as int,
                                done,
                                seed,
                                arg,
                                (fuel - 1) as nat,
                            )
                        },
                        _ => None,
                    },
                    Some(Terminator::ElemLoopBack { index, length, body, after }) => match (
                        operand(done, seed, arg, index),
                        operand(done, seed, arg, length),
                    ) {
                        (Datum::Int(i), Datum::Int(n)) => if fuel == 0 {
                            None
                        } else {
                            run_block(
                                fns,
                                mix,
                                g,
                                if i + 1 < n {
                                    body
                                } else {
                                    after
                                },
                                b as int,
                                done,
                                seed,
                                arg,
                                (fuel - 1) as nat,
                            )
                        },
                        _ => None,
                    },
                },
            },
        }
    }
}

/// The frame after the instructions of block `b` from `pc` on ran.
pub open spec fn run_insts(
    fns: Seq<Function>,
    mix: Mixers,
    g: int,
    b: BlockId,
    pc: int,
    pred: int,
    frame: Frame,
    seed: u64,
    arg: Datum,
    fuel: nat,
) -> Option<Frame>
    decreases fuel, 1int, fns[g].blocks@[b as int].insts@.len() - pc,
{
    let insts = fns[g].blocks@[b as int].insts@;
    if pc < 0 || pc >= insts.len() {
        Some(frame)
    } else {
        match insts[pc] {
            Op::Call { callee, seed: s, value } => match operand(frame, seed, arg, s) {
                Datum::Int(x) => if fuel == 0 {
                    None
                } else {
                    match run_function(
                        fns,
                        mix,
                        callee as int,
                        x,
                        operand(frame, seed, arg, value),
                        (fuel - 1) as nat,
                    ) {
                        None => None,
                        Some(r) => run_insts(
                            fns,
                            mix,
                            g,
                            b,
                            pc + 1,
                            pred,
                            frame.bind(Value::Inst { block: b, index: pc as usize }, Datum::Int(r)),
                            seed,
                            arg,
                            fuel,
                        ),
                    }
                },
                _ => None,
            },
            op => match op_result(mix, op, b, pc, pred, frame, seed, arg) {
                None => None,
                Some(d) => run_insts(
                    fns,
                    mix,
                    g,
                    b,
                    pc + 1,
                    pred,
                    op_frame(op, b, pc, frame, seed, arg, d),
                    seed,
                    arg,
                    fuel,
                ),
            },
        }
    }
}

} // verus!
