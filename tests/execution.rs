use distaff::field;
use distaff::hasher;
use distaff::processor;
use distaff::{
    execute, verify, ExecError, OpCode, OpHint, Program, ProgramBlock, ProgramInputs, ProofOptions,
    Span,
};

fn build_program(instructions: Vec<OpCode>, push_values: &[u128]) -> Program {
    let mut j = 0;
    let mut hints = Vec::new();
    for i in 0..instructions.len() {
        match instructions[i] {
            OpCode::Push => {
                assert!(j < push_values.len(), "not enough push values");
                hints.push((i, OpHint::PushValue(push_values[j])));
                j += 1;
            }
            _ => (),
        }
    }
    assert!(j == push_values.len(), "too many push values");

    let procedure = vec![ProgramBlock::Span(Span::new(instructions, hints))];
    Program::from_proc(procedure)
}

fn fibonacci_program() -> Program {
    build_program(
        vec![
            OpCode::Swap, OpCode::Dup2, OpCode::Drop, OpCode::Add,
            OpCode::Swap, OpCode::Dup2, OpCode::Drop, OpCode::Add,
            OpCode::Swap, OpCode::Dup2, OpCode::Drop, OpCode::Add,
            OpCode::Noop, OpCode::Noop, OpCode::Noop,
        ],
        &[],
    )
}

fn padded(ops: Vec<OpCode>) -> Vec<OpCode> {
    let mut ops = ops;
    while ops.len() < 15 {
        ops.push(OpCode::Noop);
    }
    ops
}

#[test]
fn execute_verify() {
    let program = fibonacci_program();

    let options = ProofOptions::default();
    let inputs = ProgramInputs::from_public(&[1, 0]);
    let num_outputs = 1;

    let (outputs, proof) = execute(&program, &inputs, num_outputs, &options);
    assert_eq!(outputs, [3]);

    let result = verify(program.hash(), inputs.get_public_inputs(), &outputs, &proof);
    assert_eq!(Ok(true), result);
}

#[test]
fn execute_verify_fail() {
    let program = fibonacci_program();

    let options = ProofOptions::default();
    let inputs = ProgramInputs::from_public(&[1, 0]);
    let num_outputs = 1;

    let (outputs, proof) = execute(&program, &inputs, num_outputs, &options);
    assert_eq!(outputs, [3]);

    // wrong inputs
    let result = verify(program.hash(), &[1, 1], &outputs, &proof);
    let err_msg = format!("verification of low-degree proof failed: evaluations did not match column value at depth 0");
    assert_eq!(Err(err_msg), result);

    // wrong outputs
    let result = verify(program.hash(), inputs.get_public_inputs(), &[5], &proof);
    let err_msg = format!("verification of low-degree proof failed: evaluations did not match column value at depth 0");
    assert_eq!(Err(err_msg), result);

    // wrong program hash
    let mut program_hash2 = program.hash().clone();
    program_hash2[0] = 1;
    let result = verify(&program_hash2, inputs.get_public_inputs(), &outputs, &proof);
    let err_msg = format!("verification of program execution path failed");
    assert_eq!(Err(err_msg), result);
}

#[test]
fn stack_operations() {
    let program = build_program(
        vec![
            OpCode::Swap, OpCode::Swap2, OpCode::Swap4, OpCode::Choose,
            OpCode::Push, OpCode::Roll4, OpCode::Dup, OpCode::Choose2,
            OpCode::Dup4, OpCode::Roll8, OpCode::Drop, OpCode::Drop,
            OpCode::Dup2, OpCode::Noop, OpCode::Noop,
        ],
        &[11],
    );

    let options = ProofOptions::default();
    let inputs = ProgramInputs::from_public(&[7, 6, 5, 4, 3, 2, 1, 0]);
    let num_outputs = 8;

    let (outputs, proof) = execute(&program, &inputs, num_outputs, &options);
    assert_eq!(outputs, [3, 6, 3, 6, 7, 11, 3, 6]);

    let result = verify(program.hash(), inputs.get_public_inputs(), &outputs, &proof);
    assert_eq!(Ok(true), result);
}

#[test]
fn logic_operations() {
    // CHOOSE
    let program = build_program(
        vec![
            OpCode::Choose, OpCode::Choose, OpCode::Noop, OpCode::Noop,
            OpCode::Noop, OpCode::Noop, OpCode::Noop, OpCode::Noop,
            OpCode::Noop, OpCode::Noop, OpCode::Noop, OpCode::Noop,
            OpCode::Noop, OpCode::Noop, OpCode::Noop,
        ],
        &[],
    );

    let options = ProofOptions::default();
    let inputs = ProgramInputs::from_public(&[3, 4, 1, 5, 0, 6, 7, 8]);
    let num_outputs = 8;

    let (outputs, proof) = execute(&program, &inputs, num_outputs, &options);
    assert_eq!(outputs, [5, 6, 7, 8, 0, 0, 0, 0]);

    let result = verify(program.hash(), inputs.get_public_inputs(), &outputs, &proof);
    assert_eq!(Ok(true), result);

    // CHOOSE2
    let program = build_program(
        vec![
            OpCode::Push, OpCode::Push, OpCode::Choose2, OpCode::Choose2,
            OpCode::Noop, OpCode::Noop, OpCode::Noop, OpCode::Noop,
            OpCode::Noop, OpCode::Noop, OpCode::Noop, OpCode::Noop,
            OpCode::Noop, OpCode::Noop, OpCode::Noop,
        ],
        &[3, 4],
    );

    let options = ProofOptions::default();
    let inputs = ProgramInputs::from_public(&[5, 6, 1, 0, 7, 8, 0, 0]);
    let num_outputs = 8;

    let (outputs, proof) = execute(&program, &inputs, num_outputs, &options);
    assert_eq!(outputs, [7, 8, 0, 0, 0, 0, 0, 0]);

    let result = verify(program.hash(), inputs.get_public_inputs(), &outputs, &proof);
    assert_eq!(Ok(true), result);
}

#[test]
#[should_panic]
fn logic_operations_panic() {
    let program = build_program(
        vec![
            OpCode::Choose, OpCode::Choose, OpCode::Noop, OpCode::Noop,
            OpCode::Noop, OpCode::Noop, OpCode::Noop, OpCode::Noop,
            OpCode::Noop, OpCode::Noop, OpCode::Noop, OpCode::Noop,
            OpCode::Noop, OpCode::Noop, OpCode::Noop,
        ],
        &[],
    );

    let options = ProofOptions::default();
    let inputs = ProgramInputs::from_public(&[3, 4, 2, 5, 0, 6, 7, 8]);
    let num_outputs = 8;

    execute(&program, &inputs, num_outputs, &options);
}

#[test]
fn math_operations() {
    let program = build_program(
        vec![
            OpCode::Add, OpCode::Mul, OpCode::Inv, OpCode::Neg,
            OpCode::Swap, OpCode::Not, OpCode::Noop, OpCode::Noop,
            OpCode::Noop, OpCode::Noop, OpCode::Noop, OpCode::Noop,
            OpCode::Noop, OpCode::Noop, OpCode::Noop,
        ],
        &[],
    );

    let options = ProofOptions::default();
    let inputs = ProgramInputs::from_public(&[7, 6, 5, 0, 2, 3]);
    let num_outputs = 2;

    let expected_result = vec![field::ONE, field::neg(field::inv(65))];

    let (outputs, proof) = execute(&program, &inputs, num_outputs, &options);
    assert_eq!(expected_result, outputs);

    let result = verify(program.hash(), inputs.get_public_inputs(), &outputs, &proof);
    assert_eq!(Ok(true), result);
}

#[test]
fn bool_operations() {
    let program = build_program(
        vec![
            OpCode::Not, OpCode::Or, OpCode::Or, OpCode::And,
            OpCode::And, OpCode::Not, OpCode::Noop, OpCode::Noop,
            OpCode::Noop, OpCode::Noop, OpCode::Noop, OpCode::Noop,
            OpCode::Noop, OpCode::Noop, OpCode::Noop,
        ],
        &[],
    );

    let options = ProofOptions::default();
    let inputs = ProgramInputs::from_public(&[1, 0, 1, 1, 0]);
    let num_outputs = 1;

    let expected_result = vec![field::ONE];

    let (outputs, proof) = execute(&program, &inputs, num_outputs, &options);
    assert_eq!(expected_result, outputs);

    let result = verify(program.hash(), inputs.get_public_inputs(), &outputs, &proof);
    assert_eq!(Ok(true), result);
}

#[test]
fn hash_operations() {
    // single hash
    let program = build_program(
        vec![
            OpCode::RescR, OpCode::RescR, OpCode::RescR, OpCode::RescR,
            OpCode::RescR, OpCode::RescR, OpCode::RescR, OpCode::RescR,
            OpCode::RescR, OpCode::RescR, OpCode::Drop, OpCode::Drop,
            OpCode::Drop, OpCode::Drop, OpCode::Noop,
        ],
        &[],
    );

    let value = [1, 2, 3, 4];
    let mut expected_hash = hasher::digest(&value);
    expected_hash.reverse();

    let options = ProofOptions::default();
    let inputs = ProgramInputs::from_public(&[0, 0, 4, 3, 2, 1]);
    let num_outputs = 2;

    let (outputs, proof) = execute(&program, &inputs, num_outputs, &options);
    assert_eq!(expected_hash, outputs);

    let result = verify(program.hash(), inputs.get_public_inputs(), &outputs, &proof);
    assert_eq!(Ok(true), result);

    // double hash
    let program = build_program(
        vec![
            OpCode::RescR, OpCode::RescR, OpCode::RescR, OpCode::RescR,
            OpCode::RescR, OpCode::RescR, OpCode::RescR, OpCode::RescR,
            OpCode::RescR, OpCode::RescR, OpCode::Drop4, OpCode::Noop,
            OpCode::Pad2, OpCode::Dup2, OpCode::Noop, OpCode::Noop,
            OpCode::RescR, OpCode::RescR, OpCode::RescR, OpCode::RescR,
            OpCode::RescR, OpCode::RescR, OpCode::RescR, OpCode::RescR,
            OpCode::RescR, OpCode::RescR, OpCode::Drop4, OpCode::Noop,
            OpCode::Noop, OpCode::Noop, OpCode::Noop,
        ],
        &[],
    );

    let value = [1, 2, 3, 4];
    let mut expected_hash = hasher::digest(&value);
    expected_hash = hasher::digest(&expected_hash);
    expected_hash.reverse();

    let options = ProofOptions::default();
    let inputs = ProgramInputs::from_public(&[0, 0, 4, 3, 2, 1]);
    let num_outputs = 2;

    let (outputs, proof) = execute(&program, &inputs, num_outputs, &options);
    assert_eq!(expected_hash, outputs);

    let result = verify(program.hash(), inputs.get_public_inputs(), &outputs, &proof);
    assert_eq!(Ok(true), result);
}

#[test]
fn read_operations() {
    let program = build_program(
        vec![
            OpCode::Read, OpCode::Read2, OpCode::Noop, OpCode::Push,
            OpCode::Noop, OpCode::Noop, OpCode::Noop, OpCode::Noop,
            OpCode::Noop, OpCode::Noop, OpCode::Noop, OpCode::Noop,
            OpCode::Noop, OpCode::Noop, OpCode::Noop,
        ],
        &[5],
    );

    let options = ProofOptions::default();
    let inputs = ProgramInputs::new(&[1], &[2, 3], &[4]);
    let num_outputs = 5;

    let (outputs, proof) = execute(&program, &inputs, num_outputs, &options);
    assert_eq!(vec![5, 4, 3, 2, 1], outputs);

    let result = verify(program.hash(), inputs.get_public_inputs(), &outputs, &proof);
    assert_eq!(Ok(true), result);
}

#[test]
fn assert_operation() {
    let program = build_program(
        vec![
            OpCode::Assert, OpCode::Noop, OpCode::Noop, OpCode::Noop,
            OpCode::Noop, OpCode::Noop, OpCode::Noop, OpCode::Noop,
            OpCode::Noop, OpCode::Noop, OpCode::Noop, OpCode::Noop,
            OpCode::Noop, OpCode::Noop, OpCode::Noop,
        ],
        &[],
    );

    let options = ProofOptions::default();
    let inputs = ProgramInputs::from_public(&[1, 2, 3]);
    let num_outputs = 2;

    let expected_result = vec![2, 3];

    let (outputs, proof) = execute(&program, &inputs, num_outputs, &options);
    assert_eq!(expected_result, outputs);

    let result = verify(program.hash(), inputs.get_public_inputs(), &outputs, &proof);
    assert_eq!(Ok(true), result);
}

// Further cases.

#[test]
fn assert_failure_is_reported() {
    let program = build_program(padded(vec![OpCode::Assert]), &[]);
    let inputs = ProgramInputs::from_public(&[0, 2, 3]);
    assert_eq!(processor::execute(&program, &inputs).err(), Some(ExecError::AssertFailed));
}

#[test]
fn inverse_of_zero_is_reported() {
    let program = build_program(padded(vec![OpCode::Inv]), &[]);
    let inputs = ProgramInputs::from_public(&[0]);
    assert_eq!(processor::execute(&program, &inputs).err(), Some(ExecError::DivideByZero));
}

#[test]
fn non_binary_condition_is_reported() {
    let program = build_program(padded(vec![OpCode::Not]), &[]);
    let inputs = ProgramInputs::from_public(&[2]);
    assert_eq!(processor::execute(&program, &inputs).err(), Some(ExecError::NotBinaryValue));
}

#[test]
fn empty_tape_is_reported() {
    let program = build_program(padded(vec![OpCode::Read, OpCode::Read]), &[]);
    let inputs = ProgramInputs::new(&[], &[9], &[]);
    assert_eq!(processor::execute(&program, &inputs).err(), Some(ExecError::TapeExhausted));
}

#[test]
fn stack_overflow_is_reported() {
    let mut ops = Vec::new();
    for _ in 0..24 {
        ops.push(OpCode::Pad2);
    }
    let program = build_program(ops, &[]);
    let inputs = ProgramInputs::from_public(&[]);
    assert_eq!(processor::execute(&program, &inputs).err(), Some(ExecError::StackOverflow));
}

#[test]
fn deep_but_bounded_stack_runs() {
    let mut ops = Vec::new();
    for _ in 0..12 {
        ops.push(OpCode::Pad2);
    }
    let program = build_program(padded(ops), &[]);
    let inputs = ProgramInputs::from_public(&[]);
    assert!(processor::execute(&program, &inputs).is_ok());
}

#[test]
fn execution_is_deterministic() {
    let program = fibonacci_program();
    let options = ProofOptions::default();
    let inputs = ProgramInputs::from_public(&[1, 0]);
    let (out1, proof1) = execute(&program, &inputs, 1, &options);
    let (out2, proof2) = execute(&program, &inputs, 1, &options);
    assert_eq!(out1, out2);
    assert_eq!(proof1.trace_length(), proof2.trace_length());
    assert_eq!(
        verify(program.hash(), &[1, 0], &out1, &proof2),
        verify(program.hash(), &[1, 0], &out2, &proof1)
    );
}

#[test]
fn program_hash_depends_on_push_values() {
    let a = build_program(padded(vec![OpCode::Push]), &[5]);
    let b = build_program(padded(vec![OpCode::Push]), &[6]);
    assert_ne!(a.hash(), b.hash());
    let c = build_program(padded(vec![OpCode::Push]), &[5]);
    assert_eq!(a.hash(), c.hash());
}

#[test]
fn longer_program_pads_to_power_of_two() {
    let mut ops = Vec::new();
    for _ in 0..20 {
        ops.push(OpCode::Noop);
    }
    let program = build_program(ops, &[]);
    assert_eq!(program.ops().len(), 31);
    let options = ProofOptions::default();
    let inputs = ProgramInputs::from_public(&[4]);
    let (outputs, proof) = execute(&program, &inputs, 1, &options);
    assert_eq!(outputs, [4]);
    assert_eq!(proof.trace_length(), 32);
    assert_eq!(verify(program.hash(), &[4], &outputs, &proof), Ok(true));
}

#[test]
fn field_arithmetic_values() {
    assert_eq!(field::add(field::MODULUS - 1, 2), 1);
    assert_eq!(field::sub(1, 2), field::MODULUS - 1);
    assert_eq!(field::neg(0), 0);
    assert_eq!(field::mul(field::MODULUS - 1, field::MODULUS - 1), 1);
    assert_eq!(field::mul(65, field::inv(65)), 1);
    assert_eq!(field::inv(65), 298401460222976806421728458513284043194);
    assert_eq!(field::exp(2, 10), 1024);
}

#[test]
fn digest_is_not_identity() {
    let d = hasher::digest(&[1, 2, 3, 4]);
    assert_eq!(d.len(), 2);
    assert_ne!(d, vec![1, 2]);
    assert_ne!(hasher::digest(&[1, 2, 3, 4]), hasher::digest(&[1, 2, 3, 5]));
}

#[test]
fn sub_and_eq_operations() {
    let program = build_program(padded(vec![OpCode::Sub, OpCode::Dup, OpCode::Eq]), &[]);
    let options = ProofOptions::default();
    let inputs = ProgramInputs::from_public(&[3, 10]);
    let (outputs, proof) = execute(&program, &inputs, 2, &options);
    assert_eq!(outputs, [1, 0]);
    assert_eq!(verify(program.hash(), &[3, 10], &outputs, &proof), Ok(true));
}

#[test]
fn pull_operations() {
    let program = build_program(padded(vec![OpCode::Pull2, OpCode::Pull1]), &[]);
    let options = ProofOptions::default();
    let inputs = ProgramInputs::from_public(&[1, 2, 3]);
    let (outputs, proof) = execute(&program, &inputs, 3, &options);
    assert_eq!(outputs, [1, 3, 2]);
    assert_eq!(verify(program.hash(), &[1, 2, 3], &outputs, &proof), Ok(true));
}

#[test]
fn security_levels() {
    let options = ProofOptions::default();
    assert_eq!(options.extension_factor(), 32);
    assert_eq!(options.security_level(true), 136);
    assert_eq!(options.security_level(false), 68);
    let small = ProofOptions::new(16, 20, 0);
    assert_eq!(small.security_level(true), 40);
    assert_eq!(small.security_level(false), 20);
}

#[test]
fn static_depth_of_programs() {
    assert_eq!(processor::static_max_depth(&fibonacci_program()), 10);
    let mut ops = Vec::new();
    for _ in 0..24 {
        ops.push(OpCode::Pad2);
    }
    assert_eq!(processor::static_max_depth(&build_program(ops, &[])), 56);
    let program = build_program(padded(vec![OpCode::Drop4, OpCode::Dup4]), &[]);
    assert_eq!(processor::static_max_depth(&program), 12);
}

#[test]
fn hash_program_matches_digest() {
    let program = build_program(
        vec![
            OpCode::RescR, OpCode::RescR, OpCode::RescR, OpCode::RescR,
            OpCode::RescR, OpCode::RescR, OpCode::RescR, OpCode::RescR,
            OpCode::RescR, OpCode::RescR, OpCode::Drop, OpCode::Drop,
            OpCode::Drop, OpCode::Drop, OpCode::Noop,
        ],
        &[],
    );
    let v = [9, 8, 7, 6];
    let d = hasher::digest(&v);
    let inputs = ProgramInputs::from_public(&[0, 0, v[3], v[2], v[1], v[0]]);
    let (outputs, _) = execute(&program, &inputs, 2, &ProofOptions::default());
    assert_eq!(outputs, vec![d[1], d[0]]);
}

#[test]
fn security_level_with_large_grinding() {
    let options = ProofOptions::new(64, 1000, 100);
    assert_eq!(options.security_level(true), 228);
    assert_eq!(options.security_level(false), 114);
}
