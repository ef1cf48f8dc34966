use crate::field::{fadd, fmul, fsub, is_elem};
use crate::hasher::{all_elems, CYCLE_LENGTH};
use crate::opcodes::{
    is_stack, lemma_outs_elems, op_of_code, outs, pops, replace_top, OpCode, MAX_STACK_DEPTH,
    NUM_OPS,
};
use crate::processor::TraceState;
use vstd::prelude::*;

verus! {

/// Number of operation flags, one per code of the low-degree operation slot.
pub const NUM_FLAGS: usize = 32;

/// The value read from the first tape, as the next stack shows it.
pub open spec fn read_a(op: OpCode, next: Seq<u128>) -> u128 {
    if op == OpCode::Read2 {
        next[1]
    } else {
        next[0]
    }
}

/// The value read from the second tape, as the next stack shows it.
pub open spec fn read_b(next: Seq<u128>) -> u128 {
    next[0]
}

/// The stack that the operation produces from `current`; tape reads are taken from `next`.
pub open spec fn effect(op: OpCode, current: Seq<u128>, next: Seq<u128>, pos: nat, imm: u128) -> Seq<
    u128,
> {
    replace_top(current, pops(op), outs(op, current, pos, imm, read_a(op, next), read_b(next)))
}

/// Register `i` of the sum of `flags[k] * effect(k)` over the first `n` operation codes.
pub open spec fn weighted_effect(
    flags: Seq<u128>,
    current: Seq<u128>,
    next: Seq<u128>,
    pos: nat,
    imm: u128,
    n: nat,
    i: int,
) -> u128
    decreases n,
{
    if n == 0 {
        0
    } else {
        fadd(
            weighted_effect(flags, current, next, pos, imm, (n - 1) as nat, i),
            fmul(effect(op_of_code((n - 1) as nat), current, next, pos, imm)[i], flags[n - 1]),
        )
    }
}

/// Exactly the flag of operation code `k` is set.
pub open spec fn one_hot(flags: Seq<u128>, k: nat) -> bool {
    &&& flags.len() == NUM_FLAGS
    &&& forall|j: int| 0 <= j < NUM_FLAGS ==> #[trigger] flags[j] == if j == k { 1u128 } else { 0u128 }
}

pub open spec fn flags_wf(flags: Seq<u128>) -> bool {
    flags.len() == NUM_FLAGS && all_elems(flags)
}

pub proof fn lemma_effect_wf(op: OpCode, current: Seq<u128>, next: Seq<u128>, pos: nat, imm: u128)
    requires
        is_stack(current),
        is_stack(next),
        is_elem(imm),
    ensures
        is_stack(effect(op, current, next, pos, imm)),
{
    lemma_outs_elems(op, current, pos, imm, read_a(op, next), read_b(next));
    crate::opcodes::lemma_outs_len(op, current, pos, imm, read_a(op, next), read_b(next));
}

/// With a single flag set, the weighted sum is that operation's effect.
pub proof fn lemma_one_hot(
    flags: Seq<u128>,
    current: Seq<u128>,
    next: Seq<u128>,
    pos: nat,
    imm: u128,
    k: nat,
    n: nat,
    i: int,
)
    requires
        one_hot(flags, k),
        k < NUM_OPS,
        n <= NUM_OPS,
        0 <= i < MAX_STACK_DEPTH,
        is_stack(current),
        is_stack(next),
        is_elem(imm),
    ensures
        weighted_effect(flags, current, next, pos, imm, n, i) == if k < n {
            effect(op_of_code(k), current, next, pos, imm)[i]
        } else {
            0
        },
    decreases n,
{
    if n > 0 {
        let m = (n - 1) as nat;
        lemma_one_hot(flags, current, next, pos, imm, k, m, i);
        lemma_effect_wf(op_of_code(m), current, next, pos, imm);
        let x = effect(op_of_code(m), current, next, pos, imm)[i];
        assert(is_elem(x));
        assert(flags[m as int] == if m == k { 1u128 } else { 0u128 });
        if m == k {
            assert(x as int * 1 == x as int);
            assert(fmul(x, 1) == x);
        } else {
            assert(x as int * 0 == 0);
            assert(fmul(x, 0) == 0);
        }
    }
}

/// Adds `b[i] * c` to each `a[i]`.
fn mul_acc(a: &mut Vec<u128>, b: &Vec<u128>, c: u128)
    requires
        all_elems(old(a)@),
        all_elems(b@),
        old(a)@.len() <= b@.len(),
        is_elem(c),
    ensures
        final(a)@.len() == old(a)@.len(),
        all_elems(final(a)@),
        forall|i: int|
            0 <= i < old(a)@.len() ==> #[trigger] final(a)@[i] == fadd(old(a)@[i], fmul(b@[i], c)),
        c == 0 ==> final(a)@ == old(a)@,
{
    let n = a.len();
    let mut i: usize = 0;
    while i < n
        invariant
            n == a@.len(),
            n == old(a)@.len(),
            n <= b@.len(),
            i <= n,
            is_elem(c),
            all_elems(a@),
            c == 0 ==> forall|k: int| 0 <= k < i ==> a@[k] == old(a)@[k],
            all_elems(b@),
            forall|k: int| i <= k < n ==> a@[k] == old(a)@[k],
            forall|k: int| 0 <= k < i ==> #[trigger] a@[k] == fadd(old(a)@[k], fmul(b@[k], c)),
        decreases n - i,
    {
        let t = crate::field::mul(b[i], c);
        let v = crate::field::add(a[i], t);
        proof {
            if c == 0 {
                assert(b@[i as int] as int * 0 == 0);
                vstd::arithmetic::div_mod::lemma_small_mod(a@[i as int] as nat, crate::field::p() as nat);
            }
        }
        a.set(i, v);
        i += 1;
    }
    proof {
        if c == 0 {
            assert(a@ =~= old(a)@);
        }
    }
}

/// Writes into column `step` of `table` the difference, register by register, between the
/// next stack and the sum of each operation's effect on the current stack weighted by its
/// flag. `imm` is the immediate of the instruction and `pos` its step in the hash cycle.
pub fn evaluate(
    current: &TraceState,
    next: &TraceState,
    op_flags: &[u128; 32],
    imm: u128,
    pos: usize,
    table: &mut Vec<Vec<u128>>,
    step: usize,
)
    requires
        is_stack(current.stack@),
        is_stack(next.stack@),
        flags_wf(op_flags@),
        is_elem(imm),
        pos < CYCLE_LENGTH,
        old(table)@.len() == MAX_STACK_DEPTH,
        forall|i: int| 0 <= i < MAX_STACK_DEPTH ==> step < (#[trigger] old(table)@[i])@.len(),
    ensures
        final(table)@.len() == MAX_STACK_DEPTH,
        forall|i: int|
            0 <= i < MAX_STACK_DEPTH ==> (#[trigger] final(table)@[i])@ == old(table)@[i]@.update(
                step as int,
                fsub(
                    next.stack@[i],
                    weighted_effect(
                        op_flags@,
                        current.stack@,
                        next.stack@,
                        pos as nat,
                        imm,
                        NUM_OPS as nat,
                        i,
                    ),
                ),
            ),
{
    let ghost flags = op_flags@;
    let ghost cur = current.stack@;
    let ghost nxt = next.stack@;
    let mut expected: Vec<u128> = Vec::new();
    let mut i: usize = 0;
    while i < MAX_STACK_DEPTH
        invariant
            i <= MAX_STACK_DEPTH,
            expected@.len() == i,
            forall|k: int| 0 <= k < i ==> expected@[k] == 0,
        decreases MAX_STACK_DEPTH - i,
    {
        expected.push(0);
        i += 1;
    }
    let mut k: usize = 0;
    while k < NUM_OPS
        invariant
            k <= NUM_OPS,
            is_stack(cur),
            is_stack(nxt),
            cur == current.stack@,
            nxt == next.stack@,
            flags == op_flags@,
            flags_wf(flags),
            is_elem(imm),
            pos < CYCLE_LENGTH,
            expected@.len() == MAX_STACK_DEPTH,
            all_elems(expected@),
            forall|r: int|
                0 <= r < MAX_STACK_DEPTH ==> #[trigger] expected@[r] == weighted_effect(
                    flags,
                    cur,
                    nxt,
                    pos as nat,
                    imm,
                    k as nat,
                    r,
                ),
        decreases NUM_OPS - k,
    {
        let flag = op_flags[k];
        let op = OpCode::from_code(k);
        proof {
            lemma_effect_wf(op, cur, nxt, pos as nat, imm);
        }
        if flag != 0 {
            let (pk, _) = crate::opcodes::arity(op);
            let ra = if op == OpCode::Read2 { next.stack[1] } else { next.stack[0] };
            let rb = next.stack[0];
            let top = crate::opcodes::compute_outs(op, &current.stack, pos, imm, ra, rb);
            let eff = crate::opcodes::compute_replace_top(&current.stack, pk, &top);
            mul_acc(&mut expected, &eff, flag);
        } else {
            proof {
                assert forall|r: int| 0 <= r < MAX_STACK_DEPTH implies #[trigger] expected@[r]
                    == weighted_effect(flags, cur, nxt, pos as nat, imm, (k + 1) as nat, r) by {
                    let x = effect(op, cur, nxt, pos as nat, imm)[r];
                    assert(x as int * 0 == 0);
                    assert(fmul(x, 0) == 0);
                    assert(fadd(expected@[r], 0) == expected@[r]) by {
                        vstd::arithmetic::div_mod::lemma_small_mod(
                            expected@[r] as nat,
                            crate::field::p() as nat,
                        );
                    }
                }
            }
        }
        k += 1;
    }
    let mut r: usize = 0;
    let ghost old_table = table@;
    while r < MAX_STACK_DEPTH
        invariant
            r <= MAX_STACK_DEPTH,
            table@.len() == MAX_STACK_DEPTH,
            old_table == old(table)@,
            is_stack(nxt),
            nxt == next.stack@,
            expected@.len() == MAX_STACK_DEPTH,
            all_elems(expected@),
            forall|j: int| 0 <= j < MAX_STACK_DEPTH ==> step < (#[trigger] old_table[j])@.len(),
            forall|j: int| r <= j < MAX_STACK_DEPTH ==> #[trigger] table@[j] == old_table[j],
            forall|j: int|
                0 <= j < r ==> (#[trigger] table@[j])@ == old_table[j]@.update(
                    step as int,
                    fsub(nxt[j], expected@[j]),
                ),
        decreases MAX_STACK_DEPTH - r,
    {
        let v = crate::field::sub(next.stack[r], expected[r]);
        let mut column = table[r].clone();
        assert(column@ == old_table[r as int]@);
        column.set(step, v);
        table.set(r, column);
        r += 1;
    }
}

} // verus!
