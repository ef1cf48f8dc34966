//! A stack-based virtual machine whose executions come with a proof: `execute` runs a
//! program on public inputs and two secret tapes and returns its outputs and a proof;
//! `verify` decides, from the program hash, the public inputs and the outputs alone,
//! whether the proof shows such an execution.
//!
//! The proof is the execution trace itself, row by row. It is not succinct: the verifier
//! checks every step, in time linear in the trace. It is not zero-knowledge either: every
//! value read from the secret tapes lands on the stack and so stands in the trace.
use vstd::prelude::*;

pub mod field;
pub mod hasher;
pub mod laws;
pub mod opcodes;
pub mod processor;
pub mod programs;
pub mod stack;
pub mod stark;

pub use opcodes::{ExecError, Instruction, OpCode, OpHint};
pub use processor::{run_program, TraceState};
pub use programs::{Program, ProgramBlock, ProgramInputs, Span, MAX_PUBLIC_INPUTS};
pub use stark::{ProofOptions, StarkProof, MAX_OUTPUTS};

verus! {

/// The rows of the successful run of `program` on `inputs`.
pub open spec fn run_rows(program: &Program, inputs: &ProgramInputs) -> Seq<processor::RowModel> {
    run_program(program, inputs)->Ok_0.0
}

/// What `execute` returns: the top `num_outputs` items of the final stack, and a proof that
/// holds the trace of the run, the program's instructions and the options.
pub open spec fn executed(
    program: &Program,
    inputs: &ProgramInputs,
    num_outputs: nat,
    options: ProofOptions,
    outputs: Seq<u128>,
    proof: &StarkProof,
) -> bool {
    &&& outputs == run_rows(program, inputs).last().stack.subrange(0, num_outputs as int)
    &&& proof.rows() == run_rows(program, inputs)
    &&& proof.ops_spec() == program.ops_spec()
    &&& proof.options_spec() == options
}

/// Executes the program on the inputs and returns the top `num_outputs` items of the final
/// stack together with a proof of the execution. The proof holds the whole trace, so it
/// reveals the values read from the secret tapes.
pub fn execute(program: &Program, inputs: &ProgramInputs, num_outputs: usize, options: &ProofOptions) -> (r: (
    Vec<u128>,
    StarkProof,
))
    requires
        program.wf(),
        inputs.wf(),
        num_outputs <= MAX_OUTPUTS,
        run_program(program, inputs) is Ok,
    ensures
        executed(program, inputs, num_outputs as nat, *options, r.0@, &r.1),
{
    let trace = match processor::execute(program, inputs) {
        Ok(trace) => trace,
        Err(_) => {
            return unreached();
        },
    };
    proof {
        processor::lemma_run_shape(
            program.ops_spec(),
            inputs.public_spec(),
            inputs.tape_a(),
            inputs.tape_b(),
            program.ops_spec().len(),
        );
    }
    let last = &trace[trace.len() - 1];
    assert(last.model() == run_rows(program, inputs).last());
    assert(processor::row_wf(last.model()));
    let mut outputs: Vec<u128> = Vec::new();
    let mut i: usize = 0;
    while i < num_outputs
        invariant
            i <= num_outputs,
            num_outputs <= MAX_OUTPUTS,
            last.stack@.len() == opcodes::MAX_STACK_DEPTH,
            outputs@ == last.stack@.subrange(0, i as int),
        decreases num_outputs - i,
    {
        outputs.push(last.stack[i]);
        i += 1;
        assert(outputs@ =~= last.stack@.subrange(0, i as int));
    }
    let ops = program.copy_ops();
    let proof = stark::prove(trace, ops, options);
    (outputs, proof)
}

/// Checks that executing the program with hash `program_hash` on `public_inputs` and some
/// secret inputs gives `outputs`, as `proof` claims. It checks every row of the trace that
/// the proof holds.
pub fn verify(program_hash: &[u8; 32], public_inputs: &[u128], outputs: &[u128], proof: &StarkProof) -> (r:
    Result<bool, String>)
    ensures
        stark::result_view(r) == stark::verdict(
            program_hash@,
            public_inputs@,
            outputs@,
            proof.rows(),
            proof.ops_spec(),
        ),
{
    if !stark::check_shape(proof) {
        return Err(
            "verification of low-degree proof failed: evaluations did not match column value at depth 0".to_owned(),
        );
    }
    if !stark::check_path(program_hash, proof) {
        return Err("verification of program execution path failed".to_owned());
    }
    if !stark::check_trace(public_inputs, outputs, proof) {
        return Err(
            "verification of low-degree proof failed: evaluations did not match column value at depth 0".to_owned(),
        );
    }
    Ok(true)
}

} // verus!
