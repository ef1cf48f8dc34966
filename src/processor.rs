use crate::hasher::{all_elems, CYCLE_LENGTH};
use crate::opcodes::{
    is_sponge, is_stack, lemma_outs_len, pops, pushes, sponge_step, stack_step, ExecError,
    Instruction, OpCode, MAX_STACK_DEPTH, MIN_STACK_DEPTH,
};
use crate::programs::{lemma_sponge_after_wf, sponge_after, valid_instrs, Program, ProgramInputs};
use vstd::prelude::*;

verus! {

/// One row of the execution trace: the user stack, its depth, and the program-hash sponge.
pub struct TraceState {
    pub stack: Vec<u128>,
    pub depth: usize,
    pub sponge: Vec<u128>,
}

/// The mathematical content of a trace row.
pub struct RowModel {
    pub stack: Seq<u128>,
    pub depth: nat,
    pub sponge: Seq<u128>,
}

impl TraceState {
    pub open spec fn model(&self) -> RowModel {
        RowModel { stack: self.stack@, depth: self.depth as nat, sponge: self.sponge@ }
    }
}

pub open spec fn models(rows: Seq<TraceState>) -> Seq<RowModel> {
    Seq::new(rows.len(), |i: int| rows[i].model())
}

pub open spec fn row_wf(r: RowModel) -> bool {
    &&& is_stack(r.stack)
    &&& is_sponge(r.sponge)
    &&& MIN_STACK_DEPTH <= r.depth <= MAX_STACK_DEPTH
}

/// The row after one instruction at step `pos` of the cycle, given the values read from
/// the tapes.
pub open spec fn next_row(ins: Instruction, pos: nat, row: RowModel, ra: u128, rb: u128) -> Result<
    RowModel,
    ExecError,
> {
    match stack_step(ins, pos, row.stack, row.depth, ra, rb) {
        Ok((s, d)) => Ok(RowModel { stack: s, depth: d, sponge: sponge_step(row.sponge, ins, pos) }),
        Err(e) => Err(e),
    }
}

pub open spec fn reads_a(op: OpCode) -> nat {
    if op == OpCode::Read || op == OpCode::Read2 {
        1
    } else {
        0
    }
}

pub open spec fn reads_b(op: OpCode) -> nat {
    if op == OpCode::Read2 {
        1
    } else {
        0
    }
}

/// The public inputs on top of an otherwise zero stack.
pub open spec fn initial_stack(public: Seq<u128>) -> Seq<u128> {
    Seq::new(MAX_STACK_DEPTH as nat, |i: int| if i < public.len() { public[i] } else { 0u128 })
}

pub open spec fn initial_row(public: Seq<u128>) -> RowModel {
    RowModel {
        stack: initial_stack(public),
        depth: MIN_STACK_DEPTH as nat,
        sponge: seq![0u128, 0u128, 0u128, 0u128],
    }
}

/// The rows of the first `n` steps of a run, with the tape positions reached, or the
/// failure met on the way.
pub open spec fn run(
    ops: Seq<Instruction>,
    public: Seq<u128>,
    ta: Seq<u128>,
    tb: Seq<u128>,
    n: nat,
) -> Result<(Seq<RowModel>, nat, nat), ExecError>
    decreases n,
{
    if n == 0 {
        Ok((seq![initial_row(public)], 0, 0))
    } else {
        match run(ops, public, ta, tb, (n - 1) as nat) {
            Err(e) => Err(e),
            Ok((rows, ia, ib)) => {
                let ins = ops[n - 1];
                if ia + reads_a(ins.op) > ta.len() || ib + reads_b(ins.op) > tb.len() {
                    Err(ExecError::TapeExhausted)
                } else {
                    let ra = if reads_a(ins.op) > 0 { ta[ia as int] } else { 0 };
                    let rb = if reads_b(ins.op) > 0 { tb[ib as int] } else { 0 };
                    let pos = ((n - 1) as int % CYCLE_LENGTH as int) as nat;
                    match next_row(ins, pos, rows.last(), ra, rb) {
                        Ok(r) => Ok((rows.push(r), ia + reads_a(ins.op), ib + reads_b(ins.op))),
                        Err(e) => Err(e),
                    }
                }
            },
        }
    }
}

/// The whole run of a program on its inputs.
pub open spec fn run_program(program: &Program, inputs: &ProgramInputs) -> Result<
    (Seq<RowModel>, nat, nat),
    ExecError,
> {
    run(
        program.ops_spec(),
        inputs.public_spec(),
        inputs.tape_a(),
        inputs.tape_b(),
        program.ops_spec().len(),
    )
}

pub proof fn lemma_run_shape(
    ops: Seq<Instruction>,
    public: Seq<u128>,
    ta: Seq<u128>,
    tb: Seq<u128>,
    n: nat,
)
    requires
        n <= ops.len(),
        valid_instrs(ops),
        public.len() <= MIN_STACK_DEPTH,
        all_elems(public),
        all_elems(ta),
        all_elems(tb),
    ensures
        run(ops, public, ta, tb, n) matches Ok((rows, ia, ib)) ==> {
            &&& rows.len() == n + 1
            &&& ia <= ta.len()
            &&& ib <= tb.len()
            &&& forall|i: int| 0 <= i < rows.len() ==> row_wf(#[trigger] rows[i])
            &&& forall|i: int| 0 <= i < rows.len() ==> (#[trigger] rows[i]).sponge == sponge_after(ops, i as nat)
        },
    decreases n,
{
    if n == 0 {
        let s = initial_stack(public);
        assert(all_elems(s));
    } else {
        lemma_run_shape(ops, public, ta, tb, (n - 1) as nat);
        match run(ops, public, ta, tb, (n - 1) as nat) {
            Ok((rows, ia, ib)) => {
                let ins = ops[n - 1];
                let last = rows.last();
                assert(row_wf(rows[rows.len() - 1]));
                let ra = if reads_a(ins.op) > 0 && ia < ta.len() { ta[ia as int] } else { 0 };
                let rb = if reads_b(ins.op) > 0 && ib < tb.len() { tb[ib as int] } else { 0 };
                let pos = ((n - 1) as int % CYCLE_LENGTH as int) as nat;
                lemma_outs_len(ins.op, last.stack, pos, ins.imm, ra, rb);
                lemma_sponge_after_wf(ops, n);
                match run(ops, public, ta, tb, n) {
                    Ok((rows2, _, _)) => {
                        assert(rows2 == rows.push(rows2.last()));
                        assert forall|i: int| 0 <= i < rows2.len() implies row_wf(#[trigger] rows2[i])
                            && rows2[i].sponge == sponge_after(ops, i as nat) by {
                            if i < rows.len() {
                                assert(rows2[i] == rows[i]);
                            } else {
                                crate::opcodes::lemma_step_stack_wf(ins, pos, last.stack, last.depth, ra, rb);
                            }
                        }
                    },
                    Err(_) => {},
                }
            },
            Err(_) => {},
        }
    }
}

/// The depth that the stack reaches after the first `n` instructions, found from the
/// instructions alone.
pub open spec fn static_depth(ops: Seq<Instruction>, n: nat) -> int
    decreases n,
{
    if n == 0 {
        crate::opcodes::MIN_STACK_DEPTH as int
    } else {
        let d = static_depth(ops, (n - 1) as nat);
        let raw = d - pops(ops[n - 1].op) + pushes(ops[n - 1].op);
        if raw < crate::opcodes::MIN_STACK_DEPTH {
            crate::opcodes::MIN_STACK_DEPTH as int
        } else {
            raw
        }
    }
}

/// The largest depth that the stack reaches over the program's instructions, found from
/// the instructions alone.
pub fn static_max_depth(program: &Program) -> (r: usize)
    requires
        program.wf(),
    ensures
        forall|k: nat| k <= program.ops_spec().len() ==> #[trigger] static_depth(program.ops_spec(), k) <= r,
        exists|k: nat| k <= program.ops_spec().len() && static_depth(program.ops_spec(), k) == r,
{
    let ops = program.ops();
    let ghost s = ops@;
    let mut depth: usize = MIN_STACK_DEPTH;
    let mut max: usize = MIN_STACK_DEPTH;
    let mut k: usize = 0;
    proof {
        assert(static_depth(s, 0) == max);
    }
    while k < ops.len()
        invariant
            s == ops@,
            s == program.ops_spec(),
            s.len() < 2 * crate::programs::MAX_PROGRAM_LENGTH,
            k <= s.len(),
            depth == static_depth(s, k as nat),
            MIN_STACK_DEPTH <= depth <= MIN_STACK_DEPTH + 8 * k,
            depth <= max <= MIN_STACK_DEPTH + 8 * k,
            forall|j: nat| j <= k ==> #[trigger] static_depth(s, j) <= max,
            exists|j: nat| j <= k && static_depth(s, j) == max,
        decreases s.len() - k,
    {
        let (p, m) = crate::opcodes::arity(ops[k].op);
        proof {
            crate::opcodes::lemma_arity_bounds(s[k as int].op);
        }
        let raw = depth - p + m;
        depth = if raw < MIN_STACK_DEPTH { MIN_STACK_DEPTH } else { raw };
        if depth > max {
            max = depth;
        }
        k += 1;
    }
    max
}

pub proof fn lemma_run_err_persists(
    ops: Seq<Instruction>,
    public: Seq<u128>,
    ta: Seq<u128>,
    tb: Seq<u128>,
    k: nat,
    n: nat,
)
    requires
        k <= n,
        run(ops, public, ta, tb, k) is Err,
    ensures
        run(ops, public, ta, tb, n) == run(ops, public, ta, tb, k),
    decreases n,
{
    if n > k {
        lemma_run_err_persists(ops, public, ta, tb, k, (n - 1) as nat);
    }
}

/// Computes the row after one instruction at step `pos` of the cycle.
pub fn step_row(ins: Instruction, pos: usize, last: &TraceState, ra: u128, rb: u128) -> (r: Result<
    TraceState,
    ExecError,
>)
    requires
        row_wf(last.model()),
        crate::field::is_elem(ins.imm),
        crate::field::is_elem(ra),
        crate::field::is_elem(rb),
        pos < CYCLE_LENGTH,
    ensures
        match r {
            Ok(row) => next_row(ins, pos as nat, last.model(), ra, rb) == Ok::<RowModel, ExecError>(
                row.model(),
            ) && row_wf(row.model()),
            Err(e) => next_row(ins, pos as nat, last.model(), ra, rb) == Err::<RowModel, ExecError>(e),
        },
{
    let fault = crate::opcodes::compute_fault(ins.op, &last.stack);
    match fault {
        Some(e) => {
            return Err(e);
        },
        None => {},
    }
    let (k, m) = crate::opcodes::arity(ins.op);
    proof {
        lemma_outs_len(ins.op, last.stack@, pos as nat, ins.imm, ra, rb);
    }
    let raw = last.depth - k + m;
    if raw > MAX_STACK_DEPTH {
        return Err(ExecError::StackOverflow);
    }
    let depth = if raw < MIN_STACK_DEPTH { MIN_STACK_DEPTH } else { raw };
    let top = crate::opcodes::compute_outs(ins.op, &last.stack, pos, ins.imm, ra, rb);
    let stack = crate::opcodes::compute_replace_top(&last.stack, k, &top);
    let mut sponge = last.sponge.clone();
    assert(sponge@ == last.sponge@);
    crate::programs::absorb(&mut sponge, ins, pos);
    Ok(TraceState { stack, depth, sponge })
}

/// Runs the program on the inputs and returns the trace, one row per step and one more.
pub fn execute(program: &Program, inputs: &ProgramInputs) -> (r: Result<Vec<TraceState>, ExecError>)
    requires
        program.wf(),
        inputs.wf(),
    ensures
        match r {
            Ok(rows) => run_program(program, inputs) matches Ok((m, _, _)) && models(rows@) == m,
            Err(e) => run_program(program, inputs) == Err::<(Seq<RowModel>, nat, nat), ExecError>(e),
        },
{
    let ops = program.ops();
    let public = inputs.get_public_inputs();
    let ta = inputs.get_tape_a();
    let tb = inputs.get_tape_b();
    let ghost spublic = public@;
    let mut stack: Vec<u128> = Vec::new();
    let mut i: usize = 0;
    while i < MAX_STACK_DEPTH
        invariant
            i <= MAX_STACK_DEPTH,
            public@.len() <= MIN_STACK_DEPTH,
            all_elems(public@),
            stack@.len() == i,
            forall|k: int| 0 <= k < i ==> stack@[k] == #[trigger] initial_stack(public@)[k],
        decreases MAX_STACK_DEPTH - i,
    {
        if i < public.len() {
            stack.push(public[i]);
        } else {
            stack.push(0);
        }
        i += 1;
    }
    assert(stack@ =~= initial_stack(public@));
    let first = TraceState { stack, depth: MIN_STACK_DEPTH, sponge: vec![0, 0, 0, 0] };
    assert(first.model().sponge =~= initial_row(public@).sponge);
    let mut rows: Vec<TraceState> = vec![first];
    assert(models(rows@) =~= seq![initial_row(public@)]);
    let mut ia: usize = 0;
    let mut ib: usize = 0;
    let mut step: usize = 0;
    proof {
        lemma_run_shape(ops@, public@, ta@, tb@, 0);
    }
    while step < ops.len()
        invariant
            program.wf(),
            inputs.wf(),
            ops@ == program.ops_spec(),
            public@ == inputs.public_spec(),
            ta@ == inputs.tape_a(),
            tb@ == inputs.tape_b(),
            step <= ops@.len(),
            run(ops@, public@, ta@, tb@, step as nat) == Ok::<(Seq<RowModel>, nat, nat), ExecError>(
                (models(rows@), ia as nat, ib as nat),
            ),
            rows@.len() == step + 1,
            ia <= ta@.len(),
            ib <= tb@.len(),
            forall|k: int| 0 <= k < rows@.len() ==> row_wf(#[trigger] rows@[k].model()),
        decreases ops@.len() - step,
    {
        proof {
            lemma_run_shape(ops@, public@, ta@, tb@, (step + 1) as nat);
        }
        let ins = ops[step];
        let last = &rows[step];
        assert(row_wf(rows@[step as int].model()));
        assert(models(rows@).last() == last.model());
        let need_a: usize = if ins.op == OpCode::Read || ins.op == OpCode::Read2 { 1 } else { 0 };
        let need_b: usize = if ins.op == OpCode::Read2 { 1 } else { 0 };
        if need_a > ta.len() - ia || need_b > tb.len() - ib {
            proof {
                lemma_run_err_persists(ops@, public@, ta@, tb@, (step + 1) as nat, ops@.len());
            }
            return Err(ExecError::TapeExhausted);
        }
        let ra: u128 = if need_a > 0 { ta[ia] } else { 0 };
        let rb: u128 = if need_b > 0 { tb[ib] } else { 0 };
        let pos = step % CYCLE_LENGTH;
        proof {
            crate::opcodes::lemma_step_stack_wf(ins, pos as nat, last.stack@, last.depth as nat, ra, rb);
        }
        let row = match step_row(ins, pos, last, ra, rb) {
            Ok(row) => row,
            Err(e) => {
                proof {
                    lemma_run_err_persists(ops@, public@, ta@, tb@, (step + 1) as nat, ops@.len());
                }
                return Err(e);
            },
        };
        let ghost prev = rows@;
        rows.push(row);
        ia = ia + need_a;
        ib = ib + need_b;
        step += 1;
        assert(models(rows@) =~= models(prev).push(row.model()));
    }
    Ok(rows)
}

} // verus!
