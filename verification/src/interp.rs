//! Running emitted procedures on sample values.

use vstd::prelude::*;
use crate::data::{data_model, data_models, Data};
use crate::ir::{BasicType, BlockId, FunctionId, Module, Op, Phi, Terminator, Value};
use crate::semantics::{
    op_result, operand, phi_source, run_block, run_function, run_insts, run_phis, switch_target,
    Datum, Frame, Mixers,
};

verus! {

/// A value while the code runs. Data is not copied: what the code takes out
/// of the value it was given is a reference into it.
#[derive(Clone, Copy)]
pub enum Rt<'a> {
    Int(u64),
    /// A part of the value that the procedure was given.
    Data(&'a Data),
    /// The struct made of these fields.
    Fields(&'a Vec<Data>),
    /// The pointer to these elements.
    Elements(&'a Vec<Data>),
    /// The stack slot made by the `Alloca` at this place.
    Slot(BlockId, usize),
    /// A union's pointer seen as a pointer to its tag id.
    TagIdPointer(&'a Data),
    /// A union's pointer seen as a pointer to the struct of a variant.
    StructPointer(&'a Data),
    Undefined,
}

impl<'a> View for Rt<'a> {
    type V = Datum;

    open spec fn view(&self) -> Datum {
        match self {
            Rt::Int(x) => Datum::Int(*x),
            Rt::Data(data) => data@,
            Rt::Fields(fields) => Datum::Struct(data_models(**fields)),
            Rt::Elements(elements) => Datum::Elements(data_models(**elements)),
            Rt::Slot(b, i) => Datum::Slot(*b, *i as int),
            Rt::TagIdPointer(data) => Datum::TagIdPointer(Box::new(data@)),
            Rt::StructPointer(data) => Datum::StructPointer(Box::new(data@)),
            Rt::Undefined => Datum::Undefined,
        }
    }
}

/// The results of the first `n` bindings, later ones over earlier ones.
pub open spec fn regs_map(regs: Seq<(Value, Rt<'_>)>, n: int) -> Map<Value, Datum>
    decreases n,
{
    if n <= 0 {
        Map::empty()
    } else {
        regs_map(regs, n - 1).insert(regs[n - 1].0, regs[n - 1].1@)
    }
}

/// What the first `n` stores left in the slots, later ones over earlier ones.
pub open spec fn slots_map(slots: Seq<(BlockId, usize, Rt<'_>)>, n: int) -> Map<(BlockId, int), Datum>
    decreases n,
{
    if n <= 0 {
        Map::empty()
    } else {
        slots_map(slots, n - 1).insert((slots[n - 1].0, slots[n - 1].1 as int), slots[n - 1].2@)
    }
}

/// The state of one call of a procedure.
pub struct ExecFrame<'a> {
    regs: Vec<(Value, Rt<'a>)>,
    slots: Vec<(BlockId, usize, Rt<'a>)>,
}

impl<'a> View for ExecFrame<'a> {
    type V = Frame;

    closed spec fn view(&self) -> Frame {
        Frame {
            regs: regs_map(self.regs@, self.regs@.len() as int),
            slots: slots_map(self.slots@, self.slots@.len() as int),
        }
    }
}

impl<'a> ExecFrame<'a> {
    fn new() -> (frame: ExecFrame<'a>)
        ensures
            frame@ == Frame::empty(),
    {
        ExecFrame { regs: Vec::new(), slots: Vec::new() }
    }

    fn bind(&mut self, v: Value, r: Rt<'a>)
        ensures
            final(self)@ == old(self)@.bind(v, r@),
    {
        self.regs.push((v, r));
        assert(self.regs@.subrange(0, old(self).regs@.len() as int) =~= old(self).regs@);
        proof {
            lemma_regs_map_prefix(self.regs@, old(self).regs@, old(self).regs@.len() as int);
        }
    }

    fn store(&mut self, b: BlockId, i: usize, r: Rt<'a>)
        ensures
            final(self)@ == old(self)@.store((b, i as int), r@),
    {
        self.slots.push((b, i, r));
        proof {
            lemma_slots_map_prefix(self.slots@, old(self).slots@, old(self).slots@.len() as int);
        }
    }

    fn reg(&self, v: Value) -> (found: Option<Rt<'a>>)
        ensures
            found matches Some(r) ==> self@.regs.dom().contains(v) && self@.regs[v] == r@,
            found is None ==> !self@.regs.dom().contains(v),
    {
        let mut i: usize = self.regs.len();
        while i > 0
            invariant
                i <= self.regs@.len(),
                regs_map(self.regs@, self.regs@.len() as int).dom().contains(v) == regs_map(
                    self.regs@,
                    i as int,
                ).dom().contains(v),
                regs_map(self.regs@, self.regs@.len() as int).dom().contains(v) ==> regs_map(
                    self.regs@,
                    self.regs@.len() as int,
                )[v] == regs_map(self.regs@, i as int)[v],
            decreases i,
        {
            i -= 1;
            if self.regs[i].0 == v {
                return Some(self.regs[i].1);
            }
        }
        None
    }

    fn slot(&self, b: BlockId, index: usize) -> (found: Option<Rt<'a>>)
        ensures
            found matches Some(r) ==> self@.slots.dom().contains((b, index as int))
                && self@.slots[(b, index as int)] == r@,
            found is None ==> !self@.slots.dom().contains((b, index as int)),
    {
        let mut i: usize = self.slots.len();
        while i > 0
            invariant
                i <= self.slots@.len(),
                slots_map(self.slots@, self.slots@.len() as int).dom().contains((b, index as int))
                    == slots_map(self.slots@, i as int).dom().contains((b, index as int)),
                slots_map(self.slots@, self.slots@.len() as int).dom().contains((b, index as int))
                    ==> slots_map(self.slots@, self.slots@.len() as int)[(b, index as int)]
                    == slots_map(self.slots@, i as int)[(b, index as int)],
            decreases i,
        {
            i -= 1;
            if self.slots[i].0 == b && self.slots[i].1 == index {
                return Some(self.slots[i].2);
            }
        }
        None
    }
}

proof fn lemma_regs_map_prefix(long: Seq<(Value, Rt<'_>)>, short: Seq<(Value, Rt<'_>)>, n: int)
    requires
        0 <= n <= short.len() <= long.len(),
        forall|k: int| 0 <= k < short.len() ==> long[k] == short[k],
    ensures
        regs_map(long, n) == regs_map(short, n),
    decreases n,
{
    if n > 0 {
        lemma_regs_map_prefix(long, short, n - 1);
    }
}

proof fn lemma_slots_map_prefix(
    long: Seq<(BlockId, usize, Rt<'_>)>,
    short: Seq<(BlockId, usize, Rt<'_>)>,
    n: int,
)
    requires
        0 <= n <= short.len() <= long.len(),
        forall|k: int| 0 <= k < short.len() ==> long[k] == short[k],
    ensures
        slots_map(long, n) == slots_map(short, n),
    decreases n,
{
    if n > 0 {
        lemma_slots_map_prefix(long, short, n - 1);
    }
}

/// Whether `mix_bytes` can return `r` for the seed, some buffer that holds
/// `bytes`, and the width.
pub open spec fn bytes_mix_to<MB: Fn(u64, &Vec<u8>, u64) -> u64>(
    mix_bytes: MB,
    s: u64,
    bytes: Seq<u8>,
    w: u64,
    r: u64,
) -> bool {
    exists|v: Vec<u8>| v@ == bytes && #[trigger] call_ensures(mix_bytes, (s, &v, w), r)
}

/// Whether `mix_string` can return `r` for the seed and some string that
/// holds `bytes`.
pub open spec fn string_mixes_to<MS: Fn(u64, &Vec<u8>) -> u64>(
    mix_string: MS,
    s: u64,
    bytes: Seq<u8>,
    r: u64,
) -> bool {
    exists|v: Vec<u8>| v@ == bytes && #[trigger] call_ensures(mix_string, (s, &v), r)
}

/// The mixing primitives that two executable functions stand for.
pub open spec fn mixers_of<MB: Fn(u64, &Vec<u8>, u64) -> u64, MS: Fn(u64, &Vec<u8>) -> u64>(
    mix_bytes: MB,
    mix_string: MS,
) -> Mixers {
    Mixers {
        bytes: |s: u64, b: Seq<u8>, w: u64|
            choose|r: u64| #[trigger] bytes_mix_to(mix_bytes, s, b, w, r),
        string: |s: u64, b: Seq<u8>| choose|r: u64| #[trigger] string_mixes_to(mix_string, s, b, r),
    }
}

/// Whether two executable functions can serve as mixing primitives: they
/// take every input, and what they return depends on nothing but the seed,
/// the bytes and the width.
pub open spec fn mixers_ok<MB: Fn(u64, &Vec<u8>, u64) -> u64, MS: Fn(u64, &Vec<u8>) -> u64>(
    mix_bytes: MB,
    mix_string: MS,
) -> bool {
    &&& forall|s: u64, v: Vec<u8>, w: u64| #[trigger] call_requires(mix_bytes, (s, &v, w))
    &&& forall|s: u64, v: Vec<u8>| #[trigger] call_requires(mix_string, (s, &v))
    &&& forall|s: u64, b: Seq<u8>, w: u64, r1: u64, r2: u64|
        #[trigger] bytes_mix_to(mix_bytes, s, b, w, r1) && #[trigger] bytes_mix_to(
            mix_bytes,
            s,
            b,
            w,
            r2,
        ) ==> r1 == r2
    &&& forall|s: u64, b: Seq<u8>, r1: u64, r2: u64|
        #[trigger] string_mixes_to(mix_string, s, b, r1) && #[trigger] string_mixes_to(
            mix_string,
            s,
            b,
            r2,
        ) ==> r1 == r2
}

/// The block that control came from, as the semantics counts it: `-1` on
/// entry to the procedure.
pub open spec fn pred_model(pred: Option<BlockId>) -> int {
    match pred {
        Some(p) => p as int,
        None => -1,
    }
}

/// Whether what ran agrees with what the semantics says.
pub open spec fn agrees(ran: Option<Rt<'_>>, said: Option<Datum>) -> bool {
    match ran {
        Some(d) => said == Some(d@),
        None => said is None,
    }
}

fn operand_of<'a>(frame: &ExecFrame<'a>, seed: u64, arg: Rt<'a>, v: Value) -> (r: Rt<'a>)
    ensures
        r@ == operand(frame@, seed, arg@, v),
{
    match v {
        Value::Param(n) => if n == 0 {
            Rt::Int(seed)
        } else if n == 1 {
            arg
        } else {
            Rt::Undefined
        },
        Value::ConstInt(c) => Rt::Int(c),
        _ => match frame.reg(v) {
            Some(r) => r,
            None => Rt::Undefined,
        },
    }
}

/// What an instruction other than a call yields.
fn op_value<'a, MB: Fn(u64, &Vec<u8>, u64) -> u64, MS: Fn(u64, &Vec<u8>) -> u64>(
    mix_bytes: &MB,
    mix_string: &MS,
    op: Op,
    b: BlockId,
    pc: usize,
    pred: Option<BlockId>,
    frame: &ExecFrame<'a>,
    seed: u64,
    arg: Rt<'a>,
) -> (r: Option<Rt<'a>>)
    requires
        mixers_ok(*mix_bytes, *mix_string),
    ensures
        agrees(
            r,
            op_result(
                mixers_of(*mix_bytes, *mix_string),
                op,
                b,
                pc as int,
                pred_model(pred),
                frame@,
                seed,
                arg@,
            ),
        ),
{
    let ghost spec_said = op_result(
        mixers_of(*mix_bytes, *mix_string),
        op,
        b,
        pc as int,
        pred_model(pred),
        frame@,
        seed,
        arg@,
    );
    proof {
        reveal_with_fuel(data_model, 3);
        assert(usize::MAX <= u64::MAX);
    }
    match op {
        Op::Alloca(_) => {
            let r = Some(Rt::Slot(b, pc));
            assert(agrees(r, spec_said));
            r
        },
        Op::Store { ptr, value } => {
            let r = match operand_of(frame, seed, arg, ptr) {
                Rt::Slot(_, _) => Some(Rt::Undefined),
                _ => None,
            };
            assert(agrees(r, spec_said));
            r
        },
        Op::Load(ptr) => {
            let r = match operand_of(frame, seed, arg, ptr) {
                Rt::Slot(sb, si) => frame.slot(sb, si),
                Rt::TagIdPointer(p) => match p {
                    Data::Pointer(q) => match &**q {
                        Data::Tagged(tag, _) => Some(Rt::Int(*tag)),
                        _ => None,
                    },
                    _ => None,
                },
                Rt::StructPointer(p) => match p {
                    Data::Pointer(q) => match &**q {
                        Data::Tagged(_, fields) => Some(Rt::Fields(fields)),
                        Data::Struct(fields) => Some(Rt::Fields(fields)),
                        _ => None,
                    },
                    _ => None,
                },
                _ => None,
            };
            assert(agrees(r, spec_said));
            r
        },
        Op::Bitcast(v, ty) => {
            let r = {
                let x = operand_of(frame, seed, arg, v);
                match ty {
                    BasicType::I64Pointer => match x {
                        Rt::Data(data) => match data {
                            Data::Null => Some(Rt::TagIdPointer(data)),
                            Data::Pointer(_) => Some(Rt::TagIdPointer(data)),
                            _ => None,
                        },
                        _ => None,
                    },
                    BasicType::LayoutPointer(_) => match x {
                        Rt::Data(data) => match data {
                            Data::Null => Some(Rt::StructPointer(data)),
                            Data::Pointer(_) => Some(Rt::StructPointer(data)),
                            _ => None,
                        },
                        _ => None,
                    },
                    _ => Some(x),
                }
            };
            assert(agrees(r, spec_said));
            r
        },
        Op::ExtractValue(v, index) => {
            let r = match operand_of(frame, seed, arg, v) {
                Rt::Data(data) => match data {
                    Data::Struct(fields) => if (index as usize) < fields.len() {
                        assert(data_models(*fields)[index as int] == fields[index as int]@);
                        Some(Rt::Data(&fields[index as usize]))
                    } else {
                        None
                    },
                    _ => None,
                },
                Rt::Fields(fields) => if (index as usize) < fields.len() {
                    assert(data_models(*fields)[index as int] == fields[index as int]@);
                    Some(Rt::Data(&fields[index as usize]))
                } else {
                    None
                },
                _ => None,
            };
            assert(agrees(r, spec_said));
            r
        },
        Op::IsNull(v) => {
            let r = match operand_of(frame, seed, arg, v) {
                Rt::Data(data) => match data {
                    Data::Null => Some(Rt::Int(1)),
                    Data::Pointer(_) => Some(Rt::Int(0)),
                    _ => None,
                },
                _ => None,
            };
            assert(agrees(r, spec_said));
            r
        },
        Op::IntCompareEq(lhs, rhs) => {
            let r = match (
                operand_of(frame, seed, arg, lhs),
                operand_of(frame, seed, arg, rhs),
            ) {
                (Rt::Int(x), Rt::Int(y)) => Some(
                    Rt::Int(
                        if x == y {
                            1
                        } else {
                            0
                        },
                    ),
                ),
                _ => None,
            };
            assert(agrees(r, spec_said));
            r
        },
        Op::Call { .. } => {
            let r = None;
            assert(agrees(r, spec_said));
            r
        },
        Op::CallDictHash { seed: s, buffer, num_bytes } => {
            let r = match (
                operand_of(frame, seed, arg, s),
                operand_of(frame, seed, arg, buffer),
                operand_of(frame, seed, arg, num_bytes),
            ) {
                (Rt::Int(x), Rt::Slot(sb, si), Rt::Int(width)) => match frame.slot(sb, si) {
                    Some(Rt::Data(data)) => match data {
                        Data::Bytes(bytes) => {
                            let r = mix_bytes(x, bytes, width);
                            proof {
                                let m = mixers_of(*mix_bytes, *mix_string);
                                assert(call_ensures(*mix_bytes, (x, bytes, width), r));
                                assert(bytes_mix_to(*mix_bytes, x, bytes@, width, r));
                                assert((m.bytes)(x, bytes@, width) == r);
                            }
                            Some(Rt::Int(r))
                        },
                        _ => None,
                    },
                    _ => None,
                },
                _ => None,
            };
            assert(agrees(r, spec_said));
            r
        },
        Op::CallDictHashStr { seed: s, string } => {
            let r = match (
                operand_of(frame, seed, arg, s),
                operand_of(frame, seed, arg, string),
            ) {
                (Rt::Int(x), Rt::Data(data)) => match data {
                    Data::Bytes(bytes) => {
                        let r = mix_string(x, bytes);
                        proof {
                            let m = mixers_of(*mix_bytes, *mix_string);
                            assert(call_ensures(*mix_string, (x, bytes), r));
                            assert(string_mixes_to(*mix_string, x, bytes@, r));
                            assert((m.string)(x, bytes@) == r);
                        }
                        Some(Rt::Int(r))
                    },
                    _ => None,
                },
                _ => None,
            };
            assert(agrees(r, spec_said));
            r
        },
        Op::StrToI128(v) => {
            let r = match operand_of(frame, seed, arg, v) {
                Rt::Data(data) => match data {
                    Data::Bytes(_) => Some(Rt::Data(data)),
                    _ => None,
                },
                _ => None,
            };
            assert(agrees(r, spec_said));
            r
        },
        Op::ComplexBitcast(v, _) => {
            let r = match operand_of(frame, seed, arg, v) {
                Rt::Data(data) => match data {
                    Data::Tagged(tag, _) => Some(Rt::Int(*tag)),
                    _ => None,
                },
                _ => None,
            };
            assert(agrees(r, spec_said));
            r
        },
        Op::CastBlockOfMemoryToTag(v, _) => {
            let r = match operand_of(frame, seed, arg, v) {
                Rt::Data(data) => match data {
                    Data::Tagged(_, fields) => Some(Rt::Fields(fields)),
                    _ => None,
                },
                _ => None,
            };
            assert(agrees(r, spec_said));
            r
        },
        Op::ListLength(v) => {
            let r = match operand_of(frame, seed, arg, v) {
                Rt::Data(data) => match data {
                    Data::List(elements) => Some(Rt::Int(elements.len() as u64)),
                    _ => None,
                },
                _ => None,
            };
            assert(agrees(r, spec_said));
            r
        },
        Op::ListPointer(v, _) => {
            let r = match operand_of(frame, seed, arg, v) {
                Rt::Data(data) => match data {
                    Data::List(elements) => Some(Rt::Elements(elements)),
                    _ => None,
                },
                _ => None,
            };
            assert(agrees(r, spec_said));
            r
        },
        Op::ElemIndex => {
            let r = if pred == Some(b) {
                match operand_of(frame, seed, arg, Value::Inst { block: b, index: pc }) {
                    Rt::Int(i) => if i < u64::MAX {
                        Some(Rt::Int(i + 1))
                    } else {
                        None
                    },
                    _ => None,
                }
            } else {
                Some(Rt::Int(0))
            };
            assert(agrees(r, spec_said));
            r
        },
        Op::ElemLoad { ptr, index } => {
            let r = match (
                operand_of(frame, seed, arg, ptr),
                operand_of(frame, seed, arg, index),
            ) {
                (Rt::Elements(elements), Rt::Int(i)) => if i < elements.len() as u64 {
                    assert(data_models(*elements)[i as int] == elements[i as int]@);
                    Some(Rt::Data(&elements[i as usize]))
                } else {
                    None
                },
                _ => None,
            };
            assert(agrees(r, spec_said));
            r
        },
    }
}

fn phi_source_of(incoming: &Vec<(Value, BlockId)>, pred: Option<BlockId>) -> (r: Option<Value>)
    ensures
        r == phi_source(incoming@, pred_model(pred), 0),
{
    let mut k: usize = 0;
    while k < incoming.len()
        invariant
            k <= incoming@.len(),
            phi_source(incoming@, pred_model(pred), 0) == phi_source(
                incoming@,
                pred_model(pred),
                k as int,
            ),
        decreases incoming@.len() - k,
    {
        if pred == Some(incoming[k].1) {
            return Some(incoming[k].0);
        }
        k += 1;
    }
    None
}

fn switch_target_of(cases: &Vec<(u64, BlockId)>, v: u64, default: BlockId) -> (r: BlockId)
    ensures
        r == switch_target(cases@, v, default, 0),
{
    let mut k: usize = 0;
    while k < cases.len()
        invariant
            k <= cases@.len(),
            switch_target(cases@, v, default, 0) == switch_target(cases@, v, default, k as int),
        decreases cases@.len() - k,
    {
        if cases[k].0 == v {
            return cases[k].1;
        }
        k += 1;
    }
    default
}

/// Once a phi node finds no value, the phi nodes do not run through.
proof fn lemma_phis_stuck(
    phis: Seq<Phi>,
    b: BlockId,
    pred: int,
    frame: Frame,
    seed: u64,
    arg: Datum,
    k: int,
    n: int,
)
    requires
        0 <= k < n,
        phi_source(phis[k].incoming@, pred, 0) is None,
    ensures
        run_phis(phis, b, pred, frame, seed, arg, n) is None,
    decreases n,
{
    if k < n - 1 {
        lemma_phis_stuck(phis, b, pred, frame, seed, arg, k, n - 1);
    }
}

/// Runs procedure `g` of `module` on a seed and a sample value, with the
/// two mixing primitives given as functions. Returns the seed that the
/// procedure returns, or `None` where the code cannot run on the value or
/// takes more than `fuel` calls and jumps.
pub fn exec_function<MB: Fn(u64, &Vec<u8>, u64) -> u64, MS: Fn(u64, &Vec<u8>) -> u64>(
    module: &Module,
    mix_bytes: &MB,
    mix_string: &MS,
    g: FunctionId,
    seed: u64,
    arg: &Data,
    fuel: u64,
) -> (r: Option<u64>)
    requires
        mixers_ok(*mix_bytes, *mix_string),
    ensures
        r == run_function(
            module.functions@,
            mixers_of(*mix_bytes, *mix_string),
            g as int,
            seed,
            arg@,
            fuel as nat,
        ),
{
    call_function(module, mix_bytes, mix_string, g, seed, Rt::Data(arg), fuel)
}

fn call_function<'a, MB: Fn(u64, &Vec<u8>, u64) -> u64, MS: Fn(u64, &Vec<u8>) -> u64>(
    module: &Module,
    mix_bytes: &MB,
    mix_string: &MS,
    g: FunctionId,
    seed: u64,
    arg: Rt<'a>,
    fuel: u64,
) -> (r: Option<u64>)
    requires
        mixers_ok(*mix_bytes, *mix_string),
    ensures
        r == run_function(
            module.functions@,
            mixers_of(*mix_bytes, *mix_string),
            g as int,
            seed,
            arg@,
            fuel as nat,
        ),
    decreases fuel,
{
    if fuel == 0 || g >= module.functions.len() || module.functions[g].blocks.len() == 0 {
        None
    } else {
        exec_block(module, mix_bytes, mix_string, g, 0, None, ExecFrame::new(), seed, arg, fuel - 1)
    }
}

#[verifier::loop_isolation(false)]
fn exec_block<'a, MB: Fn(u64, &Vec<u8>, u64) -> u64, MS: Fn(u64, &Vec<u8>) -> u64>(
    module: &Module,
    mix_bytes: &MB,
    mix_string: &MS,
    g: FunctionId,
    b: BlockId,
    pred: Option<BlockId>,
    frame: ExecFrame<'a>,
    seed: u64,
    arg: Rt<'a>,
    fuel: u64,
) -> (r: Option<u64>)
    requires
        mixers_ok(*mix_bytes, *mix_string),
    ensures
        r == run_block(
            module.functions@,
            mixers_of(*mix_bytes, *mix_string),
            g as int,
            b,
            pred_model(pred),
            frame@,
            seed,
            arg@,
            fuel as nat,
        ),
    decreases fuel,
{
    if g >= module.functions.len() || b >= module.functions[g].blocks.len() {
        return None;
    }
    let ghost fns = module.functions@;
    let ghost m = mixers_of(*mix_bytes, *mix_string);
    let ghost p = pred_model(pred);
    let ghost entry = frame@;
    let block = &module.functions[g].blocks[b];
    let mut frame = frame;

    // the phi nodes: all take their values from the frame on entry
    let mut values: Vec<Rt<'a>> = Vec::new();
    let mut k: usize = 0;
    while k < block.phis.len()
        invariant
            k <= block.phis@.len(),
            values@.len() == k,
            frame@ == entry,
            forall|j: int|
                0 <= j < k ==> phi_source(block.phis@[j].incoming@, p, 0) is Some && (
                #[trigger] values@[j])@ == operand(
                    entry,
                    seed,
                    arg@,
                    phi_source(block.phis@[j].incoming@, p, 0)->0,
                ),
        decreases block.phis@.len() - k,
    {
        match phi_source_of(&block.phis[k].incoming, pred) {
            None => {
                proof {
                    lemma_phis_stuck(
                        block.phis@,
                        b,
                        p,
                        entry,
                        seed,
                        arg@,
                        k as int,
                        block.phis@.len() as int,
                    );
                }
                return None;
            },
            Some(v) => {
                values.push(operand_of(&frame, seed, arg, v));
            },
        }
        k += 1;
    }
    let mut k: usize = 0;
    while k < block.phis.len()
        invariant
            k <= block.phis@.len(),
            values@.len() == block.phis@.len(),
            forall|j: int|
                0 <= j < block.phis@.len() ==> phi_source(block.phis@[j].incoming@, p, 0) is Some
                    && (#[trigger] values@[j])@ == operand(
                    entry,
                    seed,
                    arg@,
                    phi_source(block.phis@[j].incoming@, p, 0)->0,
                ),
            run_phis(block.phis@, b, p, entry, seed, arg@, k as int) == Some(frame@),
        decreases block.phis@.len() - k,
    {
        frame.bind(Value::Phi { block: b, index: k }, values[k]);
        k += 1;
    }

    // the instructions
    let ghost entered = frame@;
    let mut pc: usize = 0;
    while pc < block.insts.len()
        invariant
            pc <= block.insts@.len(),
            g < module.functions@.len(),
            b < module.functions@[g as int].blocks@.len(),
            block == &module.functions@[g as int].blocks@[b as int],
            fns == module.functions@,
            m == mixers_of(*mix_bytes, *mix_string),
            p == pred_model(pred),
            mixers_ok(*mix_bytes, *mix_string),
            run_insts(fns, m, g as int, b, 0, p, entered, seed, arg@, fuel as nat) == run_insts(
                fns,
                m,
                g as int,
                b,
                pc as int,
                p,
                frame@,
                seed,
                arg@,
                fuel as nat,
            ),
        decreases block.insts@.len() - pc,
    {
        let op = block.insts[pc];
        let here = Value::Inst { block: b, index: pc };
        match op {
            Op::Call { callee, seed: s, value } => match operand_of(&frame, seed, arg, s) {
                Rt::Int(x) => {
                    if fuel == 0 {
                        return None;
                    }
                    let v = operand_of(&frame, seed, arg, value);
                    match call_function(module, mix_bytes, mix_string, callee, x, v, fuel - 1) {
                        None => {
                            return None;
                        },
                        Some(r) => {
                            frame.bind(here, Rt::Int(r));
                        },
                    }
                },
                _ => {
                    proof {
                        reveal_with_fuel(data_model, 2);
                    }
                    return None;
                },
            },
            Op::Store { ptr, value } => {
                match op_value(mix_bytes, mix_string, op, b, pc, pred, &frame, seed, arg) {
                    None => {
                        return None;
                    },
                    Some(d) => {
                        let target = operand_of(&frame, seed, arg, ptr);
                        let stored = operand_of(&frame, seed, arg, value);
                        frame.bind(here, d);
                        match target {
                            Rt::Slot(sb, si) => {
                                frame.store(sb, si, stored);
                            },
                            _ => {
                                proof {
                                    reveal_with_fuel(data_model, 2);
                                }
                            },
                        }
                    },
                }
            },
            _ => {
                match op_value(mix_bytes, mix_string, op, b, pc, pred, &frame, seed, arg) {
                    None => {
                        return None;
                    },
                    Some(d) => {
                        frame.bind(here, d);
                    },
                }
            },
        }
        pc += 1;
    }

    // the terminator
    proof {
        reveal_with_fuel(data_model, 2);
    }
    match &block.terminator {
        None => None,
        Some(Terminator::Return(v)) => match operand_of(&frame, seed, arg, *v) {
            Rt::Int(x) => Some(x),
            _ => None,
        },
        Some(Terminator::Branch(target)) => if fuel == 0 {
            None
        } else {
            exec_block(
                module,
                mix_bytes,
                mix_string,
                g,
                *target,
                Some(b),
                frame,
                seed,
                arg,
                fuel - 1,
            )
        },
        Some(Terminator::ConditionalBranch { condition, then_block, else_block }) => {
            match operand_of(&frame, seed, arg, *condition) {
                Rt::Int(c) => if fuel == 0 {
                    None
                } else {
                    let target = if c != 0 {
                        *then_block
                    } else {
                        *else_block
                    };
                    exec_block(
                        module,
                        mix_bytes,
                        mix_string,
                        g,
                        target,
                        Some(b),
                        frame,
                        seed,
                        arg,
                        fuel - 1,
                    )
                },
                _ => None,
            }
        },
        Some(Terminator::Switch { value, default, cases }) => match operand_of(
            &frame,
            seed,
            arg,
            *value,
        ) {
            Rt::Int(v) => if fuel == 0 {
                None
            } else {
                let target = switch_target_of(cases, v, *default);
                exec_block(
                    module,
                    mix_bytes,
                    mix_string,
                    g,
                    target,
                    Some(b),
                    frame,
                    seed,
                    arg,
                    fuel - 1,
                )
            },
            _ => None,
        },
        Some(Terminator::ElemLoopBack { index, length, body, after }) => match (
            operand_of(&frame, seed, arg, *index),
            operand_of(&frame, seed, arg, *length),
        ) {
            (Rt::Int(i), Rt::Int(n)) => if fuel == 0 {
                None
            } else {
                let target = if i < u64::MAX && i + 1 < n {
                    *body
                } else {
                    *after
                };
                exec_block(
                    module,
                    mix_bytes,
                    mix_string,
                    g,
                    target,
                    Some(b),
                    frame,
                    seed,
                    arg,
                    fuel - 1,
                )
            },
            _ => None,
        },
    }
}

} // verus!
