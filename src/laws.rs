use crate::hasher::{digest_spec, initial_state, rounds, CYCLE_LENGTH};
use crate::opcodes::{hash_lanes, outs, stack_step, ExecError, Instruction, OpCode};
use crate::processor::{
    static_depth, initial_row, initial_stack, lemma_run_shape, next_row, reads_a, reads_b, row_wf, run,
    run_program, RowModel,
};
use crate::programs::{sponge_after, Program, ProgramInputs};
use crate::stack::{read_a, read_b};
use crate::stark::{
    low_degree_message, path_message, path_ok, shape_ok, trace_ok, transition_ok, verdict,
    ProofOptions, StarkProof, MAX_OUTPUTS,
};
use crate::{executed, run_rows};
use vstd::prelude::*;

verus! {

/// An operation that reads no tape ignores the values offered for the reads.
proof fn lemma_outs_ignore_reads(
    op: OpCode,
    s: Seq<u128>,
    pos: nat,
    imm: u128,
    ra: u128,
    rb: u128,
    ra2: u128,
    rb2: u128,
)
    requires
        op != OpCode::Read,
        op != OpCode::Read2,
    ensures
        outs(op, s, pos, imm, ra, rb) == outs(op, s, pos, imm, ra2, rb2),
{
}

/// Every step of a successful run is a valid transition, tape reads being recovered from
/// the row after it.
pub proof fn lemma_run_transitions(
    ops: Seq<Instruction>,
    public: Seq<u128>,
    ta: Seq<u128>,
    tb: Seq<u128>,
    n: nat,
)
    requires
        n <= ops.len(),
    ensures
        run(ops, public, ta, tb, n) matches Ok((rows, _, _)) ==> {
            &&& rows.len() == n + 1
            &&& rows[0] == initial_row(public)
            &&& forall|i: int|
                0 <= i < n ==> transition_ok(
                    #[trigger] ops[i],
                    (i % CYCLE_LENGTH as int) as nat,
                    rows[i],
                    rows[i + 1],
                )
        },
    decreases n,
{
    if n > 0 {
        lemma_run_transitions(ops, public, ta, tb, (n - 1) as nat);
        if let Ok((rows, ia, ib)) = run(ops, public, ta, tb, (n - 1) as nat) {
            if let Ok((rows2, _, _)) = run(ops, public, ta, tb, n) {
                let ins = ops[n - 1];
                let ra = if reads_a(ins.op) > 0 { ta[ia as int] } else { 0 };
                let rb = if reads_b(ins.op) > 0 { tb[ib as int] } else { 0 };
                let pos = ((n - 1) as int % CYCLE_LENGTH as int) as nat;
                let cur = rows.last();
                let nxt = rows2.last();
                assert(next_row(ins, pos, cur, ra, rb) == Ok::<RowModel, ExecError>(nxt));
                assert(rows2 == rows.push(nxt));
                if ins.op != OpCode::Read && ins.op != OpCode::Read2 {
                    lemma_outs_ignore_reads(
                        ins.op,
                        cur.stack,
                        pos,
                        ins.imm,
                        ra,
                        rb,
                        read_a(ins.op, nxt.stack),
                        read_b(nxt.stack),
                    );
                }
                assert(transition_ok(ins, pos, cur, nxt));
                assert forall|i: int| 0 <= i < n implies transition_ok(
                    #[trigger] ops[i],
                    (i % CYCLE_LENGTH as int) as nat,
                    rows2[i],
                    rows2[i + 1],
                ) by {
                    if i < n - 1 {
                        assert(rows2[i] == rows[i]);
                        assert(rows2[i + 1] == rows[i + 1]);
                    }
                }
            }
        }
    }
}

/// The genuine proof of a run passes every check of the verifier.
proof fn lemma_genuine_checks(program: &Program, inputs: &ProgramInputs)
    requires
        program.wf(),
        inputs.wf(),
        run_program(program, inputs) is Ok,
    ensures
        shape_ok(run_rows(program, inputs), program.ops_spec()),
        path_ok(program.hash_spec(), run_rows(program, inputs), program.ops_spec()),
        run_rows(program, inputs)[0] == initial_row(inputs.public_spec()),
        run_rows(program, inputs).len() == program.ops_spec().len() + 1,
        forall|i: int|
            0 <= i < program.ops_spec().len() ==> transition_ok(
                #[trigger] program.ops_spec()[i],
                (i % CYCLE_LENGTH as int) as nat,
                run_rows(program, inputs)[i],
                run_rows(program, inputs)[i + 1],
            ),
{
    let ops = program.ops_spec();
    let n = ops.len();
    lemma_run_shape(ops, inputs.public_spec(), inputs.tape_a(), inputs.tape_b(), n);
    lemma_run_transitions(ops, inputs.public_spec(), inputs.tape_a(), inputs.tape_b(), n);
    let rows = run_rows(program, inputs);
    assert forall|i: int| 0 <= i < n implies #[trigger] rows[i + 1].sponge == crate::opcodes::sponge_step(
        rows[i].sponge,
        ops[i],
        (i % CYCLE_LENGTH as int) as nat,
    ) by {
        assert(rows[i + 1].sponge == sponge_after(ops, (i + 1) as nat));
        assert(rows[i].sponge == sponge_after(ops, i as nat));
    }
    assert(rows.last().sponge == sponge_after(ops, n));
}

/// Round trip: the outputs and proof of a successful execution of a program are accepted
/// by the verifier for the program's hash and the public inputs.
pub proof fn lemma_round_trip(program: &Program, inputs: &ProgramInputs, num_outputs: nat)
    requires
        program.wf(),
        inputs.wf(),
        num_outputs <= MAX_OUTPUTS,
        run_program(program, inputs) is Ok,
    ensures
        verdict(
            program.hash_spec(),
            inputs.public_spec(),
            run_rows(program, inputs).last().stack.subrange(0, num_outputs as int),
            run_rows(program, inputs),
            program.ops_spec(),
        ) == Ok::<bool, Seq<char>>(true),
{
    lemma_genuine_checks(program, inputs);
    let rows = run_rows(program, inputs);
    assert(row_wf(rows.last()));
    assert(trace_ok(
        inputs.public_spec(),
        rows.last().stack.subrange(0, num_outputs as int),
        rows,
        program.ops_spec(),
    ));
}

/// Input sensitivity: against the genuine proof of a run, other public inputs of the same
/// length, or other outputs of the same length, are rejected as a failed low-degree
/// check, and another program hash as a failed execution path.
pub proof fn lemma_input_sensitivity(
    program: &Program,
    inputs: &ProgramInputs,
    num_outputs: nat,
    other_public: Seq<u128>,
    other_outputs: Seq<u128>,
    other_hash: Seq<u8>,
)
    requires
        program.wf(),
        inputs.wf(),
        num_outputs <= MAX_OUTPUTS,
        run_program(program, inputs) is Ok,
    ensures
        ({
            let rows = run_rows(program, inputs);
            let outputs = rows.last().stack.subrange(0, num_outputs as int);
            &&& other_public.len() == inputs.public_spec().len() && other_public
                != inputs.public_spec() ==> verdict(
                program.hash_spec(),
                other_public,
                outputs,
                rows,
                program.ops_spec(),
            ) == Err::<bool, Seq<char>>(low_degree_message())
            &&& other_outputs.len() == num_outputs && other_outputs != outputs ==> verdict(
                program.hash_spec(),
                inputs.public_spec(),
                other_outputs,
                rows,
                program.ops_spec(),
            ) == Err::<bool, Seq<char>>(low_degree_message())
            &&& other_hash != program.hash_spec() ==> verdict(
                other_hash,
                inputs.public_spec(),
                outputs,
                rows,
                program.ops_spec(),
            ) == Err::<bool, Seq<char>>(path_message())
        }),
{
    lemma_genuine_checks(program, inputs);
    let rows = run_rows(program, inputs);
    let public = inputs.public_spec();
    if other_public.len() == public.len() && other_public != public {
        let j = choose|j: int| 0 <= j < public.len() && other_public[j] != public[j];
        assert(exists|j: int| 0 <= j < public.len() && other_public[j] != public[j]) by {
            if !(exists|j: int| 0 <= j < public.len() && other_public[j] != public[j]) {
                assert(other_public =~= public);
            }
        }
        assert(initial_stack(other_public)[j] != initial_stack(public)[j]);
    }
}

/// Determinism: two executions of the same program on the same inputs with the same
/// options give the same outputs and the same proof.
pub proof fn lemma_deterministic(
    program: &Program,
    inputs: &ProgramInputs,
    num_outputs: nat,
    options: ProofOptions,
    out1: Seq<u128>,
    proof1: &StarkProof,
    out2: Seq<u128>,
    proof2: &StarkProof,
)
    requires
        executed(program, inputs, num_outputs, options, out1, proof1),
        executed(program, inputs, num_outputs, options, out2, proof2),
    ensures
        out1 == out2,
        proof1.rows() == proof2.rows(),
        proof1.ops_spec() == proof2.ops_spec(),
        proof1.options_spec() == proof2.options_spec(),
{
}

/// Public inputs that put `v[3], v[2], v[1], v[0]` under two zeros on the stack.
pub open spec fn hash_inputs(v: Seq<u128>) -> Seq<u128> {
    seq![0u128, 0u128, v[3], v[2], v[1], v[0]]
}

#[verifier::rlimit(60)]
proof fn lemma_rescr_rounds(ops: Seq<Instruction>, v: Seq<u128>, ta: Seq<u128>, tb: Seq<u128>, k: nat)
    requires
        v.len() == 4,
        k <= 10,
        ops.len() >= 10,
        forall|i: int| 0 <= i < 10 ==> (#[trigger] ops[i]).op == OpCode::RescR,
    ensures
        run(ops, hash_inputs(v), ta, tb, k) matches Ok((rows, ia, ib)) && ia == 0 && ib == 0
            && rows.last().depth == crate::opcodes::MIN_STACK_DEPTH
            && rows.last().stack.len() == crate::opcodes::MAX_STACK_DEPTH
            && hash_lanes(rows.last().stack) == rounds(initial_state(v), k),
    decreases k,
{
    if k == 0 {
        assert(hash_lanes(initial_stack(hash_inputs(v))) =~= initial_state(v));
    } else {
        reveal_with_fuel(rounds, 1);
        lemma_rescr_rounds(ops, v, ta, tb, (k - 1) as nat);
        let ins = ops[k - 1];
        assert(ins.op == OpCode::RescR);
        if let Ok((rows, _, _)) = run(ops, hash_inputs(v), ta, tb, (k - 1) as nat) {
            let s = rows.last().stack;
            let pos = ((k - 1) as int % CYCLE_LENGTH as int) as nat;
            assert(pos == k - 1);
            let r = crate::hasher::round(hash_lanes(s), pos);
            crate::hasher::lemma_round_shape(hash_lanes(s), pos);
            let s2 = crate::opcodes::replace_top(s, 6, hash_lanes(r));
            assert(crate::opcodes::outs(ins.op, s, pos, ins.imm, 0, 0) == hash_lanes(r));
            assert(stack_step(ins, pos, s, rows.last().depth, 0, 0) == Ok::<(Seq<u128>, nat), ExecError>(
                (s2, crate::opcodes::MIN_STACK_DEPTH as nat),
            ));
            assert(hash_lanes(s2) =~= r);
        }
    }
}

/// Hash equivalence: ten `RescR` steps on the stack `0, 0, v[3], v[2], v[1], v[0]` followed
/// by four `Drop`s leave on top the digest of `v` in reverse order.
pub proof fn lemma_hash_equivalence(ops: Seq<Instruction>, v: Seq<u128>, ta: Seq<u128>, tb: Seq<u128>)
    requires
        v.len() == 4,
        ops.len() >= 14,
        forall|i: int| 0 <= i < 10 ==> (#[trigger] ops[i]).op == OpCode::RescR,
        forall|i: int| 10 <= i < 14 ==> (#[trigger] ops[i]).op == OpCode::Drop,
    ensures
        run(ops, hash_inputs(v), ta, tb, 14) matches Ok((rows, _, _)) && rows.last().stack.subrange(
            0,
            2,
        ) == digest_spec(v).reverse(),
{
    lemma_rescr_rounds(ops, v, ta, tb, 10);
    let s10 = run(ops, hash_inputs(v), ta, tb, 10)->Ok_0.0.last().stack;
    assert(ops[10].op == OpCode::Drop && ops[11].op == OpCode::Drop);
    assert(ops[12].op == OpCode::Drop && ops[13].op == OpCode::Drop);
    let s11 = run(ops, hash_inputs(v), ta, tb, 11)->Ok_0.0.last().stack;
    assert(s11[3] == s10[4] && s11[4] == s10[5]);
    let s12 = run(ops, hash_inputs(v), ta, tb, 12)->Ok_0.0.last().stack;
    assert(s12[2] == s10[4] && s12[3] == s10[5]);
    let s13 = run(ops, hash_inputs(v), ta, tb, 13)->Ok_0.0.last().stack;
    assert(s13[1] == s10[4] && s13[2] == s10[5]);
    let s14 = run(ops, hash_inputs(v), ta, tb, 14)->Ok_0.0.last().stack;
    assert(s14[0] == s10[4] && s14[1] == s10[5]);
    assert(s14.subrange(0, 2) =~= digest_spec(v).reverse());
}

proof fn lemma_depth_tracks(
    ops: Seq<Instruction>,
    public: Seq<u128>,
    ta: Seq<u128>,
    tb: Seq<u128>,
    n: nat,
)
    requires
        n <= ops.len(),
    ensures
        run(ops, public, ta, tb, n) matches Ok((rows, _, _)) ==> rows.last().depth == static_depth(
            ops,
            n,
        ),
    decreases n,
{
    if n > 0 {
        lemma_depth_tracks(ops, public, ta, tb, (n - 1) as nat);
    }
}

/// Stack bounds: when the depth found from the instructions alone stays within the
/// stack at every step, no run of them overflows the stack, whatever its inputs.
pub proof fn lemma_stack_bounds(
    ops: Seq<Instruction>,
    public: Seq<u128>,
    ta: Seq<u128>,
    tb: Seq<u128>,
    n: nat,
)
    requires
        n <= ops.len(),
        forall|k: nat| k <= n ==> #[trigger] static_depth(ops, k)
            <= crate::opcodes::MAX_STACK_DEPTH,
    ensures
        run(ops, public, ta, tb, n) != Err::<(Seq<RowModel>, nat, nat), ExecError>(
            ExecError::StackOverflow,
        ),
    decreases n,
{
    if n > 0 {
        lemma_stack_bounds(ops, public, ta, tb, (n - 1) as nat);
        lemma_depth_tracks(ops, public, ta, tb, (n - 1) as nat);
        assert(static_depth(ops, n) <= crate::opcodes::MAX_STACK_DEPTH);
    }
}

/// Hash equivalence, at `execute`: a program of ten `RescR`, four `Drop` and a `Noop`, run on
/// the public inputs `0, 0, v[3], v[2], v[1], v[0]`, succeeds, and its two outputs are the
/// digest of `v` in reverse order.
pub proof fn lemma_hash_execution(
    program: &Program,
    inputs: &ProgramInputs,
    v: Seq<u128>,
    options: ProofOptions,
    outputs: Seq<u128>,
    proof: &StarkProof,
)
    requires
        v.len() == 4,
        program.ops_spec().len() == 15,
        forall|i: int| 0 <= i < 10 ==> (#[trigger] program.ops_spec()[i]).op == OpCode::RescR,
        forall|i: int| 10 <= i < 14 ==> (#[trigger] program.ops_spec()[i]).op == OpCode::Drop,
        program.ops_spec()[14].op == OpCode::Noop,
        inputs.public_spec() == hash_inputs(v),
    ensures
        run_program(program, inputs) is Ok,
        executed(program, inputs, 2, options, outputs, proof) ==> outputs == digest_spec(v).reverse(),
{
    let ops = program.ops_spec();
    let ta = inputs.tape_a();
    let tb = inputs.tape_b();
    lemma_hash_equivalence(ops, v, ta, tb);
    lemma_rescr_rounds(ops, v, ta, tb, 10);
    let s14 = run(ops, hash_inputs(v), ta, tb, 14)->Ok_0.0.last().stack;
    lemma_depth_tracks(ops, hash_inputs(v), ta, tb, 14);
    assert(s14.len() == crate::opcodes::MAX_STACK_DEPTH);
    assert(crate::opcodes::replace_top(s14, 0, seq![]) =~= s14);
    let s15 = run(ops, hash_inputs(v), ta, tb, 15)->Ok_0.0.last().stack;
    assert(s15 == s14);
}

} // verus!
