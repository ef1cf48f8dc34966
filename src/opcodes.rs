use crate::field::{fadd, finv, fmul, fneg, fsub, is_elem};
use crate::hasher::{all_elems, round, CYCLE_LENGTH};
use vstd::prelude::*;

verus! {

/// Number of user-stack registers in each trace row.
pub const MAX_STACK_DEPTH: usize = 32;

/// The stack is zero-padded to at least this depth.
pub const MIN_STACK_DEPTH: usize = 8;

pub const NUM_OPS: usize = 30;

/// Width of the program-hash sponge.
pub const SPONGE_WIDTH: usize = 4;

#[derive(Clone, Copy, Debug, PartialEq, Eq, Structural)]
pub enum OpCode {
    Noop,
    Assert,
    Read,
    Read2,
    Push,
    Dup,
    Dup2,
    Dup4,
    Pad2,
    Drop,
    Drop4,
    Swap,
    Swap2,
    Swap4,
    Roll4,
    Roll8,
    Pull1,
    Pull2,
    Choose,
    Choose2,
    Add,
    Sub,
    Mul,
    Inv,
    Neg,
    Not,
    And,
    Or,
    Eq,
    RescR,
}

/// Supplementary data of an instruction: the value that `Push` pushes.
#[derive(Clone, Copy, Debug, PartialEq, Eq, Structural)]
pub enum OpHint {
    PushValue(u128),
}

#[derive(Clone, Copy, Debug, PartialEq, Eq, Structural)]
pub enum ExecError {
    StackOverflow,
    AssertFailed,
    DivideByZero,
    NotBinaryValue,
    TapeExhausted,
}

/// An instruction after lowering: its operation and immediate (zero but for `Push`).
#[derive(Clone, Copy, Debug, PartialEq, Eq, Structural)]
pub struct Instruction {
    pub op: OpCode,
    pub imm: u128,
}

pub open spec fn op_code(op: OpCode) -> nat {
    match op {
        OpCode::Noop => 0,
        OpCode::Assert => 1,
        OpCode::Read => 2,
        OpCode::Read2 => 3,
        OpCode::Push => 4,
        OpCode::Dup => 5,
        OpCode::Dup2 => 6,
        OpCode::Dup4 => 7,
        OpCode::Pad2 => 8,
        OpCode::Drop => 9,
        OpCode::Drop4 => 10,
        OpCode::Swap => 11,
        OpCode::Swap2 => 12,
        OpCode::Swap4 => 13,
        OpCode::Roll4 => 14,
        OpCode::Roll8 => 15,
        OpCode::Pull1 => 16,
        OpCode::Pull2 => 17,
        OpCode::Choose => 18,
        OpCode::Choose2 => 19,
        OpCode::Add => 20,
        OpCode::Sub => 21,
        OpCode::Mul => 22,
        OpCode::Inv => 23,
        OpCode::Neg => 24,
        OpCode::Not => 25,
        OpCode::And => 26,
        OpCode::Or => 27,
        OpCode::Eq => 28,
        OpCode::RescR => 29,
    }
}

pub open spec fn op_of_code(k: nat) -> OpCode {
    if k == 0 { OpCode::Noop }
    else if k == 1 { OpCode::Assert }
    else if k == 2 { OpCode::Read }
    else if k == 3 { OpCode::Read2 }
    else if k == 4 { OpCode::Push }
    else if k == 5 { OpCode::Dup }
    else if k == 6 { OpCode::Dup2 }
    else if k == 7 { OpCode::Dup4 }
    else if k == 8 { OpCode::Pad2 }
    else if k == 9 { OpCode::Drop }
    else if k == 10 { OpCode::Drop4 }
    else if k == 11 { OpCode::Swap }
    else if k == 12 { OpCode::Swap2 }
    else if k == 13 { OpCode::Swap4 }
    else if k == 14 { OpCode::Roll4 }
    else if k == 15 { OpCode::Roll8 }
    else if k == 16 { OpCode::Pull1 }
    else if k == 17 { OpCode::Pull2 }
    else if k == 18 { OpCode::Choose }
    else if k == 19 { OpCode::Choose2 }
    else if k == 20 { OpCode::Add }
    else if k == 21 { OpCode::Sub }
    else if k == 22 { OpCode::Mul }
    else if k == 23 { OpCode::Inv }
    else if k == 24 { OpCode::Neg }
    else if k == 25 { OpCode::Not }
    else if k == 26 { OpCode::And }
    else if k == 27 { OpCode::Or }
    else if k == 28 { OpCode::Eq }
    else { OpCode::RescR }
}

pub proof fn lemma_op_code_round_trip(op: OpCode)
    ensures
        op_code(op) < NUM_OPS,
        op_of_code(op_code(op)) == op,
{
}

impl OpCode {
    /// The operation's code, as absorbed into the program-hash sponge.
    pub fn code(&self) -> (r: u128)
        ensures
            r == op_code(*self),
    {
        match self {
            OpCode::Noop => 0,
            OpCode::Assert => 1,
            OpCode::Read => 2,
            OpCode::Read2 => 3,
            OpCode::Push => 4,
            OpCode::Dup => 5,
            OpCode::Dup2 => 6,
            OpCode::Dup4 => 7,
            OpCode::Pad2 => 8,
            OpCode::Drop => 9,
            OpCode::Drop4 => 10,
            OpCode::Swap => 11,
            OpCode::Swap2 => 12,
            OpCode::Swap4 => 13,
            OpCode::Roll4 => 14,
            OpCode::Roll8 => 15,
            OpCode::Pull1 => 16,
            OpCode::Pull2 => 17,
            OpCode::Choose => 18,
            OpCode::Choose2 => 19,
            OpCode::Add => 20,
            OpCode::Sub => 21,
            OpCode::Mul => 22,
            OpCode::Inv => 23,
            OpCode::Neg => 24,
            OpCode::Not => 25,
            OpCode::And => 26,
            OpCode::Or => 27,
            OpCode::Eq => 28,
            OpCode::RescR => 29,
        }
    }

    /// The operation with the given code.
    pub fn from_code(k: usize) -> (r: OpCode)
        requires
            k < NUM_OPS,
        ensures
            r == op_of_code(k as nat),
            op_code(r) == k,
    {
        if k == 0 { OpCode::Noop }
        else if k == 1 { OpCode::Assert }
        else if k == 2 { OpCode::Read }
        else if k == 3 { OpCode::Read2 }
        else if k == 4 { OpCode::Push }
        else if k == 5 { OpCode::Dup }
        else if k == 6 { OpCode::Dup2 }
        else if k == 7 { OpCode::Dup4 }
        else if k == 8 { OpCode::Pad2 }
        else if k == 9 { OpCode::Drop }
        else if k == 10 { OpCode::Drop4 }
        else if k == 11 { OpCode::Swap }
        else if k == 12 { OpCode::Swap2 }
        else if k == 13 { OpCode::Swap4 }
        else if k == 14 { OpCode::Roll4 }
        else if k == 15 { OpCode::Roll8 }
        else if k == 16 { OpCode::Pull1 }
        else if k == 17 { OpCode::Pull2 }
        else if k == 18 { OpCode::Choose }
        else if k == 19 { OpCode::Choose2 }
        else if k == 20 { OpCode::Add }
        else if k == 21 { OpCode::Sub }
        else if k == 22 { OpCode::Mul }
        else if k == 23 { OpCode::Inv }
        else if k == 24 { OpCode::Neg }
        else if k == 25 { OpCode::Not }
        else if k == 26 { OpCode::And }
        else if k == 27 { OpCode::Or }
        else if k == 28 { OpCode::Eq }
        else { OpCode::RescR }
    }
}

/// How many stack items the operation consumes.
pub open spec fn pops(op: OpCode) -> nat {
    match op {
        OpCode::Noop | OpCode::Read | OpCode::Read2 | OpCode::Push | OpCode::Pad2 => 0,
        OpCode::Assert | OpCode::Dup | OpCode::Drop | OpCode::Inv | OpCode::Neg | OpCode::Not => 1,
        OpCode::Dup2 | OpCode::Swap | OpCode::Pull1 | OpCode::Add | OpCode::Sub | OpCode::Mul
        | OpCode::And | OpCode::Or | OpCode::Eq => 2,
        OpCode::Pull2 | OpCode::Choose => 3,
        OpCode::Dup4 | OpCode::Drop4 | OpCode::Swap2 | OpCode::Roll4 => 4,
        OpCode::Choose2 | OpCode::RescR => 6,
        OpCode::Swap4 | OpCode::Roll8 => 8,
    }
}

/// How many stack items the operation produces.
pub open spec fn pushes(op: OpCode) -> nat {
    match op {
        OpCode::Noop | OpCode::Assert | OpCode::Drop | OpCode::Drop4 => 0,
        OpCode::Read | OpCode::Push | OpCode::Inv | OpCode::Neg | OpCode::Not | OpCode::Add
        | OpCode::Sub | OpCode::Mul | OpCode::And | OpCode::Or | OpCode::Eq | OpCode::Choose => 1,
        OpCode::Read2 | OpCode::Pad2 | OpCode::Dup | OpCode::Swap | OpCode::Pull1
        | OpCode::Choose2 => 2,
        OpCode::Pull2 => 3,
        OpCode::Dup2 | OpCode::Swap2 | OpCode::Roll4 => 4,
        OpCode::RescR => 6,
        OpCode::Dup4 | OpCode::Swap4 | OpCode::Roll8 => 8,
    }
}

pub open spec fn is_bit(x: u128) -> bool {
    x == 0 || x == 1
}

/// The lanes `s0 .. s5` of the stack, in hash-state order (`s5` first).
pub open spec fn hash_lanes(s: Seq<u128>) -> Seq<u128> {
    seq![s[5], s[4], s[3], s[2], s[1], s[0]]
}

/// The items the operation leaves on top of the stack, top first. `ra` and `rb` are the
/// values read from the two secret tapes.
pub open spec fn outs(op: OpCode, s: Seq<u128>, pos: nat, imm: u128, ra: u128, rb: u128) -> Seq<
    u128,
> {
    match op {
        OpCode::Noop | OpCode::Assert | OpCode::Drop | OpCode::Drop4 => seq![],
        OpCode::Read => seq![ra],
        OpCode::Read2 => seq![rb, ra],
        OpCode::Push => seq![imm],
        OpCode::Dup => seq![s[0], s[0]],
        OpCode::Dup2 => seq![s[0], s[1], s[0], s[1]],
        OpCode::Dup4 => seq![s[0], s[1], s[2], s[3], s[0], s[1], s[2], s[3]],
        OpCode::Pad2 => seq![0u128, 0u128],
        OpCode::Swap | OpCode::Pull1 => seq![s[1], s[0]],
        OpCode::Swap2 => seq![s[2], s[3], s[0], s[1]],
        OpCode::Swap4 => seq![s[4], s[5], s[6], s[7], s[0], s[1], s[2], s[3]],
        OpCode::Roll4 => seq![s[3], s[0], s[1], s[2]],
        OpCode::Roll8 => seq![s[7], s[0], s[1], s[2], s[3], s[4], s[5], s[6]],
        OpCode::Pull2 => seq![s[2], s[0], s[1]],
        OpCode::Choose => seq![if s[2] == 1 { s[0] } else { s[1] }],
        OpCode::Choose2 => if s[4] == 1 { seq![s[0], s[1]] } else { seq![s[2], s[3]] },
        OpCode::Add => seq![fadd(s[0], s[1])],
        OpCode::Sub => seq![fsub(s[1], s[0])],
        OpCode::Mul => seq![fmul(s[0], s[1])],
        OpCode::Inv => seq![finv(s[0])],
        OpCode::Neg => seq![fneg(s[0])],
        OpCode::Not => seq![fsub(1, s[0])],
        OpCode::And => seq![fmul(s[0], s[1])],
        OpCode::Or => seq![fsub(fadd(s[0], s[1]), fmul(s[0], s[1]))],
        OpCode::Eq => seq![if s[0] == s[1] { 1u128 } else { 0u128 }],
        OpCode::RescR => hash_lanes(round(hash_lanes(s), pos)),
    }
}

/// The failure, if any, that the operation meets on the stack `s`.
pub open spec fn fault(op: OpCode, s: Seq<u128>) -> Option<ExecError> {
    match op {
        OpCode::Assert => if s[0] == 1 { None } else { Some(ExecError::AssertFailed) },
        OpCode::Inv => if s[0] != 0 { None } else { Some(ExecError::DivideByZero) },
        OpCode::Choose => if is_bit(s[2]) { None } else { Some(ExecError::NotBinaryValue) },
        OpCode::Choose2 => if is_bit(s[4]) { None } else { Some(ExecError::NotBinaryValue) },
        OpCode::Not => if is_bit(s[0]) { None } else { Some(ExecError::NotBinaryValue) },
        OpCode::And | OpCode::Or => if is_bit(s[0]) && is_bit(s[1]) {
            None
        } else {
            Some(ExecError::NotBinaryValue)
        },
        _ => None,
    }
}

/// The stack with its top `k` items replaced by `top`; zeros come in from below and
/// items pushed past the bottom fall off.
pub open spec fn replace_top(s: Seq<u128>, k: nat, top: Seq<u128>) -> Seq<u128> {
    Seq::new(
        MAX_STACK_DEPTH as nat,
        |i: int|
            if i < top.len() {
                top[i]
            } else if i - top.len() + k < MAX_STACK_DEPTH {
                s[i - top.len() + k]
            } else {
                0u128
            },
    )
}

/// Depth of the stack after an operation that consumes `k` items and produces `m`.
pub open spec fn depth_after(depth: nat, k: nat, m: nat) -> int {
    let d = depth - k + m;
    if d < MIN_STACK_DEPTH {
        MIN_STACK_DEPTH as int
    } else {
        d
    }
}

/// The stack effect of one instruction at step `pos` of the cycle: the new stack and
/// depth, or the failure.
pub open spec fn stack_step(
    ins: Instruction,
    pos: nat,
    s: Seq<u128>,
    depth: nat,
    ra: u128,
    rb: u128,
) -> Result<(Seq<u128>, nat), ExecError> {
    let op = ins.op;
    if fault(op, s) is Some {
        Err(fault(op, s)->0)
    } else if depth_after(depth, pops(op), pushes(op)) > MAX_STACK_DEPTH {
        Err(ExecError::StackOverflow)
    } else {
        Ok(
            (
                replace_top(s, pops(op), outs(op, s, pos, ins.imm, ra, rb)),
                depth_after(depth, pops(op), pushes(op)) as nat,
            ),
        )
    }
}

/// The program-hash sponge after absorbing one instruction at step `pos` of the cycle.
pub open spec fn sponge_step(s: Seq<u128>, ins: Instruction, pos: nat) -> Seq<u128> {
    round(s.update(0, fadd(s[0], op_code(ins.op) as u128)).update(1, fadd(s[1], ins.imm)), pos)
}

pub open spec fn is_stack(s: Seq<u128>) -> bool {
    s.len() == MAX_STACK_DEPTH && all_elems(s)
}

pub open spec fn is_sponge(s: Seq<u128>) -> bool {
    s.len() == SPONGE_WIDTH && all_elems(s)
}

pub proof fn lemma_arity_bounds(op: OpCode)
    ensures
        pops(op) <= MIN_STACK_DEPTH,
        pushes(op) <= MIN_STACK_DEPTH,
{
}

pub proof fn lemma_outs_len(op: OpCode, s: Seq<u128>, pos: nat, imm: u128, ra: u128, rb: u128)
    requires
        is_stack(s),
    ensures
        outs(op, s, pos, imm, ra, rb).len() == pushes(op),
        pops(op) <= MIN_STACK_DEPTH,
        pushes(op) <= MIN_STACK_DEPTH,
{
}

pub proof fn lemma_step_stack_wf(
    ins: Instruction,
    pos: nat,
    s: Seq<u128>,
    depth: nat,
    ra: u128,
    rb: u128,
)
    requires
        is_stack(s),
        MIN_STACK_DEPTH <= depth <= MAX_STACK_DEPTH,
        is_elem(ins.imm),
        is_elem(ra),
        is_elem(rb),
    ensures
        stack_step(ins, pos, s, depth, ra, rb) matches Ok((s2, d2)) ==> is_stack(s2)
            && MIN_STACK_DEPTH <= d2 <= MAX_STACK_DEPTH,
{
    let top = outs(ins.op, s, pos, ins.imm, ra, rb);
    lemma_outs_elems(ins.op, s, pos, ins.imm, ra, rb);
    let r = replace_top(s, pops(ins.op), top);
    assert(all_elems(r));
}

pub proof fn lemma_outs_elems(op: OpCode, s: Seq<u128>, pos: nat, imm: u128, ra: u128, rb: u128)
    requires
        is_stack(s),
        is_elem(imm),
        is_elem(ra),
        is_elem(rb),
    ensures
        all_elems(outs(op, s, pos, imm, ra, rb)),
        outs(op, s, pos, imm, ra, rb).len() == pushes(op),
{
    if op == OpCode::RescR {
        crate::hasher::lemma_round_shape(hash_lanes(s), pos);
    }
}

/// Computes the items that the operation leaves on top of the stack.
pub fn compute_outs(op: OpCode, s: &Vec<u128>, pos: usize, imm: u128, ra: u128, rb: u128) -> (r:
    Vec<u128>)
    requires
        is_stack(s@),
        is_elem(imm),
        is_elem(ra),
        is_elem(rb),
        pos < CYCLE_LENGTH,
    ensures
        r@ == outs(op, s@, pos as nat, imm, ra, rb),
        r@.len() == pushes(op),
        all_elems(r@),
{
    let r = match op {
        OpCode::Noop | OpCode::Assert | OpCode::Drop | OpCode::Drop4 => vec![],
        OpCode::Read => vec![ra],
        OpCode::Read2 => vec![rb, ra],
        OpCode::Push => vec![imm],
        OpCode::Dup => vec![s[0], s[0]],
        OpCode::Dup2 => vec![s[0], s[1], s[0], s[1]],
        OpCode::Dup4 => vec![s[0], s[1], s[2], s[3], s[0], s[1], s[2], s[3]],
        OpCode::Pad2 => vec![0u128, 0u128],
        OpCode::Swap | OpCode::Pull1 => vec![s[1], s[0]],
        OpCode::Swap2 => vec![s[2], s[3], s[0], s[1]],
        OpCode::Swap4 => vec![s[4], s[5], s[6], s[7], s[0], s[1], s[2], s[3]],
        OpCode::Roll4 => vec![s[3], s[0], s[1], s[2]],
        OpCode::Roll8 => vec![s[7], s[0], s[1], s[2], s[3], s[4], s[5], s[6]],
        OpCode::Pull2 => vec![s[2], s[0], s[1]],
        OpCode::Choose => vec![if s[2] == 1 { s[0] } else { s[1] }],
        OpCode::Choose2 => if s[4] == 1 {
            vec![s[0], s[1]]
        } else {
            vec![s[2], s[3]]
        },
        OpCode::Add => vec![crate::field::add(s[0], s[1])],
        OpCode::Sub => vec![crate::field::sub(s[1], s[0])],
        OpCode::Mul => vec![crate::field::mul(s[0], s[1])],
        OpCode::Inv => vec![crate::field::inv(s[0])],
        OpCode::Neg => vec![crate::field::neg(s[0])],
        OpCode::Not => vec![crate::field::sub(1, s[0])],
        OpCode::And => vec![crate::field::mul(s[0], s[1])],
        OpCode::Or => {
            let sum = crate::field::add(s[0], s[1]);
            let prod = crate::field::mul(s[0], s[1]);
            vec![crate::field::sub(sum, prod)]
        },
        OpCode::Eq => vec![if s[0] == s[1] { 1u128 } else { 0u128 }],
        OpCode::RescR => {
            let mut lanes = vec![s[5], s[4], s[3], s[2], s[1], s[0]];
            assert(lanes@ =~= hash_lanes(s@));
            crate::hasher::apply_round(&mut lanes, pos);
            vec![lanes[5], lanes[4], lanes[3], lanes[2], lanes[1], lanes[0]]
        },
    };
    assert(r@ =~= outs(op, s@, pos as nat, imm, ra, rb));
    r
}

/// Computes the failure, if any, that the operation meets on the stack.
pub fn compute_fault(op: OpCode, s: &Vec<u128>) -> (r: Option<ExecError>)
    requires
        is_stack(s@),
    ensures
        r == fault(op, s@),
{
    match op {
        OpCode::Assert => if s[0] == 1 { None } else { Some(ExecError::AssertFailed) },
        OpCode::Inv => if s[0] != 0 { None } else { Some(ExecError::DivideByZero) },
        OpCode::Choose => if s[2] == 0 || s[2] == 1 {
            None
        } else {
            Some(ExecError::NotBinaryValue)
        },
        OpCode::Choose2 => if s[4] == 0 || s[4] == 1 {
            None
        } else {
            Some(ExecError::NotBinaryValue)
        },
        OpCode::Not => if s[0] == 0 || s[0] == 1 {
            None
        } else {
            Some(ExecError::NotBinaryValue)
        },
        OpCode::And | OpCode::Or => if (s[0] == 0 || s[0] == 1) && (s[1] == 0 || s[1] == 1) {
            None
        } else {
            Some(ExecError::NotBinaryValue)
        },
        _ => None,
    }
}

/// How many items the operation consumes and produces.
pub fn arity(op: OpCode) -> (r: (usize, usize))
    ensures
        r.0 == pops(op),
        r.1 == pushes(op),
{
    let k: usize = match op {
        OpCode::Noop | OpCode::Read | OpCode::Read2 | OpCode::Push | OpCode::Pad2 => 0,
        OpCode::Assert | OpCode::Dup | OpCode::Drop | OpCode::Inv | OpCode::Neg | OpCode::Not => 1,
        OpCode::Dup2 | OpCode::Swap | OpCode::Pull1 | OpCode::Add | OpCode::Sub | OpCode::Mul
        | OpCode::And | OpCode::Or | OpCode::Eq => 2,
        OpCode::Pull2 | OpCode::Choose => 3,
        OpCode::Dup4 | OpCode::Drop4 | OpCode::Swap2 | OpCode::Roll4 => 4,
        OpCode::Choose2 | OpCode::RescR => 6,
        OpCode::Swap4 | OpCode::Roll8 => 8,
    };
    let m: usize = match op {
        OpCode::Noop | OpCode::Assert | OpCode::Drop | OpCode::Drop4 => 0,
        OpCode::Read | OpCode::Push | OpCode::Inv | OpCode::Neg | OpCode::Not | OpCode::Add
        | OpCode::Sub | OpCode::Mul | OpCode::And | OpCode::Or | OpCode::Eq | OpCode::Choose => 1,
        OpCode::Read2 | OpCode::Pad2 | OpCode::Dup | OpCode::Swap | OpCode::Pull1
        | OpCode::Choose2 => 2,
        OpCode::Pull2 => 3,
        OpCode::Dup2 | OpCode::Swap2 | OpCode::Roll4 => 4,
        OpCode::RescR => 6,
        OpCode::Dup4 | OpCode::Swap4 | OpCode::Roll8 => 8,
    };
    (k, m)
}

/// Builds the stack whose top `k` items are replaced by `top`.
pub fn compute_replace_top(s: &Vec<u128>, k: usize, top: &Vec<u128>) -> (r: Vec<u128>)
    requires
        is_stack(s@),
        all_elems(top@),
        k <= MIN_STACK_DEPTH,
        top@.len() <= MIN_STACK_DEPTH,
    ensures
        r@ == replace_top(s@, k as nat, top@),
        is_stack(r@),
{
    let mut r: Vec<u128> = Vec::new();
    let mut i: usize = 0;
    while i < MAX_STACK_DEPTH
        invariant
            i <= MAX_STACK_DEPTH,
            is_stack(s@),
            all_elems(top@),
            k <= MIN_STACK_DEPTH,
            top@.len() <= MIN_STACK_DEPTH,
            r@.len() == i,
            forall|j: int| 0 <= j < i ==> r@[j] == #[trigger] replace_top(s@, k as nat, top@)[j],
            all_elems(r@),
        decreases MAX_STACK_DEPTH - i,
    {
        if i < top.len() {
            r.push(top[i]);
        } else if i - top.len() + k < MAX_STACK_DEPTH {
            r.push(s[i - top.len() + k]);
        } else {
            r.push(0);
        }
        i += 1;
    }
    assert(r@ =~= replace_top(s@, k as nat, top@));
    r
}

} // verus!
