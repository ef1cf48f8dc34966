use crate::field::{fadd, is_elem, MODULUS};
use crate::hasher::{all_elems, CYCLE_LENGTH};
use crate::opcodes::{is_sponge, op_code, sponge_step, Instruction, OpCode, OpHint};
use vstd::prelude::*;

verus! {

pub const MAX_PUBLIC_INPUTS: usize = 8;

pub const MIN_TRACE_LENGTH: usize = 16;

/// Programs longer than this many instructions are not accepted.
pub const MAX_PROGRAM_LENGTH: usize = 0x100000;

/// A straight-line block of instructions.
pub struct Span {
    pub instructions: Vec<Instruction>,
}

pub enum ProgramBlock {
    Span(Span),
}

/// A lowered program: its instruction stream, padded so that the trace length is a power
/// of two, and the hash that commits to it.
pub struct Program {
    ops: Vec<Instruction>,
    hash: [u8; 32],
}

/// The inputs of a run: public values for the initial stack and two secret tapes.
pub struct ProgramInputs {
    public: Vec<u128>,
    secret_a: Vec<u128>,
    secret_b: Vec<u128>,
}

/// The immediate that the hints give to the instruction at `i` (the last hint wins).
pub open spec fn hint_value(hints: Seq<(usize, OpHint)>, i: nat) -> u128
    decreases hints.len(),
{
    if hints.len() == 0 {
        0
    } else if hints.last().0 == i {
        match hints.last().1 {
            OpHint::PushValue(v) => (v % MODULUS) as u128,
        }
    } else {
        hint_value(hints.drop_last(), i)
    }
}

pub open spec fn lower_span(ops: Seq<OpCode>, hints: Seq<(usize, OpHint)>) -> Seq<Instruction> {
    Seq::new(
        ops.len(),
        |i: int|
            Instruction {
                op: ops[i],
                imm: if ops[i] == OpCode::Push { hint_value(hints, i as nat) } else { 0 },
            },
    )
}

pub open spec fn valid_instrs(s: Seq<Instruction>) -> bool {
    forall|i: int| 0 <= i < s.len() ==> is_elem(#[trigger] s[i].imm)
}

impl Span {
    pub open spec fn instrs(&self) -> Seq<Instruction> {
        self.instructions@
    }

    /// Builds a span from operations and the values of its `Push` operations, keyed by
    /// position.
    pub fn new(ops: Vec<OpCode>, hints: Vec<(usize, OpHint)>) -> (r: Span)
        ensures
            r.instrs() == lower_span(ops@, hints@),
            valid_instrs(r.instrs()),
    {
        let mut out: Vec<Instruction> = Vec::new();
        let mut i: usize = 0;
        while i < ops.len()
            invariant
                i <= ops@.len(),
                out@.len() == i,
                forall|k: int| 0 <= k < i ==> out@[k] == #[trigger] lower_span(ops@, hints@)[k],
                valid_instrs(out@),
            decreases ops@.len() - i,
        {
            let op = ops[i];
            let mut imm: u128 = 0;
            if op == OpCode::Push {
                let mut j: usize = 0;
                while j < hints.len()
                    invariant
                        j <= hints@.len(),
                        imm == hint_value(hints@.subrange(0, j as int), i as nat),
                        is_elem(imm),
                    decreases hints@.len() - j,
                {
                    assert(hints@.subrange(0, j + 1).drop_last() =~= hints@.subrange(0, j as int));
                    let (at, hint) = hints[j];
                    if at == i {
                        match hint {
                            OpHint::PushValue(v) => {
                                imm = v % MODULUS;
                            },
                        }
                    }
                    j += 1;
                }
                assert(hints@.subrange(0, hints@.len() as int) =~= hints@);
            }
            out.push(Instruction { op, imm });
            i += 1;
        }
        assert(out@ =~= lower_span(ops@, hints@));
        Span { instructions: out }
    }
}

/// The instructions of the blocks, in order.
pub open spec fn flatten(blocks: Seq<ProgramBlock>) -> Seq<Instruction>
    decreases blocks.len(),
{
    if blocks.len() == 0 {
        seq![]
    } else {
        flatten(blocks.drop_last()) + match blocks.last() {
            ProgramBlock::Span(s) => s.instrs(),
        }
    }
}

/// The smallest power of two times `t` that exceeds `n`.
pub open spec fn trace_length_from(t: nat, n: nat) -> nat
    decreases (if t > n { 0 } else { n + 1 - t }),
{
    if t == 0 || t > n {
        t
    } else {
        trace_length_from(2 * t, n)
    }
}

/// A power of two, at least sixteen.
pub open spec fn is_trace_length(t: nat) -> bool
    decreases t,
{
    t == MIN_TRACE_LENGTH || (t > MIN_TRACE_LENGTH && t % 2 == 0 && is_trace_length(t / 2))
}

pub proof fn lemma_trace_length_from(t: nat, n: nat)
    requires
        is_trace_length(t),
    ensures
        is_trace_length(trace_length_from(t, n)),
        trace_length_from(t, n) > n,
        trace_length_from(t, n) >= t,
    decreases (if t > n { 0 } else { n + 1 - t }),
{
    if t <= n {
        assert((2 * t) / 2 == t);
        lemma_trace_length_from(2 * t, n);
    }
}

/// The number of trace rows for `n` instructions: a power of two, at least sixteen, above `n`.
pub open spec fn trace_length(n: nat) -> nat {
    trace_length_from(MIN_TRACE_LENGTH as nat, n)
}

pub open spec fn noop() -> Instruction {
    Instruction { op: OpCode::Noop, imm: 0 }
}

/// The instructions followed by `Noop`s, one fewer than the trace length.
pub open spec fn pad(s: Seq<Instruction>) -> Seq<Instruction> {
    s + Seq::new((trace_length(s.len()) - 1 - s.len()) as nat, |i: int| noop())
}

/// The program-hash sponge after the first `n` instructions.
pub open spec fn sponge_after(ops: Seq<Instruction>, n: nat) -> Seq<u128>
    decreases n,
{
    if n == 0 {
        seq![0u128, 0u128, 0u128, 0u128]
    } else {
        sponge_step(
            sponge_after(ops, (n - 1) as nat),
            ops[n - 1],
            ((n - 1) as int % CYCLE_LENGTH as int) as nat,
        )
    }
}

/// The `n` low bytes of `x`, least significant first.
pub open spec fn le_bytes(x: nat, n: nat) -> Seq<u8>
    decreases n,
{
    if n == 0 {
        seq![]
    } else {
        seq![(x % 256) as u8] + le_bytes(x / 256, (n - 1) as nat)
    }
}

/// The 16 bytes of `x`, most significant first.
pub open spec fn be_bytes(x: u128) -> Seq<u8> {
    le_bytes(x as nat, 16).reverse()
}

/// The two first sponge lanes as 32 big-endian bytes.
pub open spec fn hash_bytes(s: Seq<u128>) -> Seq<u8> {
    be_bytes(s[0]) + be_bytes(s[1])
}

pub open spec fn program_hash_of(ops: Seq<Instruction>) -> Seq<u8> {
    hash_bytes(sponge_after(ops, ops.len()))
}

pub proof fn lemma_sponge_after_wf(ops: Seq<Instruction>, n: nat)
    requires
        n <= ops.len(),
        valid_instrs(ops),
    ensures
        is_sponge(sponge_after(ops, n)),
    decreases n,
{
    if n > 0 {
        lemma_sponge_after_wf(ops, (n - 1) as nat);
        let s = sponge_after(ops, (n - 1) as nat);
        assert(is_elem(ops[n - 1].imm));
        let t = s.update(0, fadd(s[0], op_code(ops[n - 1].op) as u128)).update(
            1,
            fadd(s[1], ops[n - 1].imm),
        );
        assert(all_elems(t));
        crate::hasher::lemma_round_shape(t, ((n - 1) as int % CYCLE_LENGTH as int) as nat);
    }
}

/// Absorbs one instruction at step `pos` of the cycle into the program-hash sponge.
pub fn absorb(sponge: &mut Vec<u128>, ins: Instruction, pos: usize)
    requires
        is_sponge(old(sponge)@),
        is_elem(ins.imm),
        pos < CYCLE_LENGTH,
    ensures
        final(sponge)@ == sponge_step(old(sponge)@, ins, pos as nat),
        is_sponge(final(sponge)@),
{
    let code = ins.op.code();
    let a = crate::field::add(sponge[0], code);
    sponge.set(0, a);
    let b = crate::field::add(sponge[1], ins.imm);
    sponge.set(1, b);
    crate::hasher::apply_round(sponge, pos);
}

/// Writes the 16 bytes of `x`, most significant first, at `at` in `out`.
fn write_be(out: &mut [u8; 32], at: usize, x: u128)
    requires
        at == 0 || at == 16,
    ensures
        final(out)@.subrange(at as int, at + 16) == be_bytes(x),
        forall|i: int| 0 <= i < 32 && !(at <= i < at + 16) ==> final(out)@[i] == old(out)@[i],
{
    let mut rest: u128 = x;
    let mut k: usize = 0;
    let ghost done: Seq<u8> = seq![];
    while k < 16
        invariant
            k <= 16,
            at == 0 || at == 16,
            done.len() == k,
            done + le_bytes(rest as nat, (16 - k) as nat) == le_bytes(x as nat, 16),
            forall|j: int| 0 <= j < k ==> out@[at + 15 - j] == done[j],
            forall|i: int|
                0 <= i < 32 && !(at + 15 - k < i <= at + 15) ==> out@[i] == old(out)@[i],
        decreases 16 - k,
    {
        let b = (rest % 256) as u8;
        proof {
            assert(le_bytes(rest as nat, (16 - k) as nat) == seq![b] + le_bytes(
                (rest / 256) as nat,
                (16 - k - 1) as nat,
            ));
            assert(done.push(b) + le_bytes((rest / 256) as nat, (16 - k - 1) as nat) =~= done
                + le_bytes(rest as nat, (16 - k) as nat));
            done = done.push(b);
        }
        out[at + 15 - k] = b;
        rest = rest / 256;
        k += 1;
    }
    assert(done =~= le_bytes(x as nat, 16));
    assert(out@.subrange(at as int, at + 16) =~= be_bytes(x));
}

/// The program hash of a sponge state.
pub fn compute_hash_bytes(s: &Vec<u128>) -> (r: [u8; 32])
    requires
        is_sponge(s@),
    ensures
        r@ == hash_bytes(s@),
{
    let mut out: [u8; 32] = [0u8; 32];
    write_be(&mut out, 0, s[0]);
    let ghost first = out@.subrange(0, 16);
    write_be(&mut out, 16, s[1]);
    assert(out@.subrange(0, 16) =~= first);
    assert(out@ =~= out@.subrange(0, 16) + out@.subrange(16, 32));
    out
}

impl Program {
    pub closed spec fn ops_spec(&self) -> Seq<Instruction> {
        self.ops@
    }

    pub closed spec fn hash_spec(&self) -> Seq<u8> {
        self.hash@
    }

    /// A program is its padded instruction stream and that stream's hash.
    pub open spec fn wf(&self) -> bool {
        &&& valid_instrs(self.ops_spec())
        &&& is_trace_length(self.ops_spec().len() + 1)
        &&& self.ops_spec().len() < 2 * MAX_PROGRAM_LENGTH
        &&& self.hash_spec() == program_hash_of(self.ops_spec())
    }

    /// Lowers the blocks of a procedure into a program.
    pub fn from_proc(blocks: Vec<ProgramBlock>) -> (r: Program)
        requires
            flatten(blocks@).len() <= MAX_PROGRAM_LENGTH,
            forall|i: int| 0 <= i < blocks@.len() ==> valid_instrs(match #[trigger] blocks@[i] {
                ProgramBlock::Span(s) => s.instrs(),
            }),
        ensures
            r.wf(),
            r.ops_spec() == pad(flatten(blocks@)),
    {
        let mut ops: Vec<Instruction> = Vec::new();
        let mut b: usize = 0;
        while b < blocks.len()
            invariant
                b <= blocks@.len(),
                ops@ == flatten(blocks@.subrange(0, b as int)),
                flatten(blocks@).len() <= MAX_PROGRAM_LENGTH,
                forall|i: int| 0 <= i < blocks@.len() ==> valid_instrs(match #[trigger] blocks@[i] {
                    ProgramBlock::Span(s) => s.instrs(),
                }),
                valid_instrs(ops@),
            decreases blocks@.len() - b,
        {
            assert(blocks@.subrange(0, b + 1).drop_last() =~= blocks@.subrange(0, b as int));
            match &blocks[b] {
                ProgramBlock::Span(s) => {
                    let mut i: usize = 0;
                    let ghost start = ops@;
                    while i < s.instructions.len()
                        invariant
                            i <= s.instructions@.len(),
                            ops@ == start + s.instructions@.subrange(0, i as int),
                            valid_instrs(start),
                            valid_instrs(s.instructions@),
                        decreases s.instructions@.len() - i,
                    {
                        ops.push(s.instructions[i]);
                        i += 1;
                        assert(ops@ =~= start + s.instructions@.subrange(0, i as int));
                    }
                    assert(s.instructions@.subrange(0, i as int) =~= s.instructions@);
                },
            }
            b += 1;
        }
        assert(blocks@.subrange(0, blocks@.len() as int) =~= blocks@);
        proof {
            lemma_flatten_prefix(blocks@, blocks@.len());
        }
        let n = ops.len();
        let mut t: usize = MIN_TRACE_LENGTH;
        while t <= n
            invariant
                n <= MAX_PROGRAM_LENGTH,
                16 <= t <= 2 * MAX_PROGRAM_LENGTH,
                trace_length_from(t as nat, n as nat) == trace_length(n as nat),
            decreases (if t > n { 0 } else { n + 1 - t }),
        {
            t = 2 * t;
        }
        let ghost base = ops@;
        while ops.len() + 1 < t
            invariant
                ops@.len() + 1 <= t,
                t == trace_length(n as nat),
                base.len() == n,
                ops@ == base + Seq::new((ops@.len() - n) as nat, |i: int| noop()),
                valid_instrs(ops@),
            decreases t - ops@.len(),
        {
            ops.push(Instruction { op: OpCode::Noop, imm: 0 });
            assert(ops@ =~= base + Seq::new((ops@.len() - n) as nat, |i: int| noop()));
        }
        proof {
            lemma_trace_length_from(MIN_TRACE_LENGTH as nat, n as nat);
        }
        let mut sponge: Vec<u128> = vec![0, 0, 0, 0];
        let mut k: usize = 0;
        while k < ops.len()
            invariant
                k <= ops@.len(),
                valid_instrs(ops@),
                sponge@ == sponge_after(ops@, k as nat),
                is_sponge(sponge@),
            decreases ops@.len() - k,
        {
            absorb(&mut sponge, ops[k], k % CYCLE_LENGTH);
            k += 1;
        }
        let hash = compute_hash_bytes(&sponge);
        Program { ops, hash }
    }

    /// The 32-byte hash that commits to the program.
    pub fn hash(&self) -> (r: &[u8; 32])
        ensures
            r@ == self.hash_spec(),
    {
        &self.hash
    }

    /// A copy of the padded instruction stream.
    pub fn copy_ops(&self) -> (r: Vec<Instruction>)
        ensures
            r@ == self.ops_spec(),
    {
        let mut r: Vec<Instruction> = Vec::new();
        let mut i: usize = 0;
        while i < self.ops.len()
            invariant
                i <= self.ops@.len(),
                r@ == self.ops@.subrange(0, i as int),
            decreases self.ops@.len() - i,
        {
            r.push(self.ops[i]);
            i += 1;
            assert(r@ =~= self.ops@.subrange(0, i as int));
        }
        assert(self.ops@.subrange(0, self.ops@.len() as int) =~= self.ops@);
        r
    }

    /// The padded instruction stream.
    pub fn ops(&self) -> (r: &Vec<Instruction>)
        ensures
            r@ == self.ops_spec(),
    {
        &self.ops
    }
}

proof fn lemma_flatten_prefix(blocks: Seq<ProgramBlock>, n: nat)
    requires
        n == blocks.len(),
    ensures
        flatten(blocks.subrange(0, n as int)) == flatten(blocks),
{
    assert(blocks.subrange(0, n as int) =~= blocks);
}

fn copy_values(s: &[u128]) -> (r: Vec<u128>)
    ensures
        r@ == s@,
{
    let mut r: Vec<u128> = Vec::new();
    let mut i: usize = 0;
    while i < s.len()
        invariant
            i <= s@.len(),
            r@ == s@.subrange(0, i as int),
        decreases s@.len() - i,
    {
        r.push(s[i]);
        i += 1;
        assert(r@ =~= s@.subrange(0, i as int));
    }
    assert(s@.subrange(0, s@.len() as int) =~= s@);
    r
}

impl ProgramInputs {
    pub closed spec fn public_spec(&self) -> Seq<u128> {
        self.public@
    }

    pub closed spec fn tape_a(&self) -> Seq<u128> {
        self.secret_a@
    }

    pub closed spec fn tape_b(&self) -> Seq<u128> {
        self.secret_b@
    }

    pub open spec fn wf(&self) -> bool {
        &&& self.public_spec().len() <= MAX_PUBLIC_INPUTS
        &&& all_elems(self.public_spec())
        &&& all_elems(self.tape_a())
        &&& all_elems(self.tape_b())
    }

    /// Inputs with public values for the top of the initial stack and two secret tapes.
    pub fn new(public: &[u128], secret_a: &[u128], secret_b: &[u128]) -> (r: ProgramInputs)
        requires
            public@.len() <= MAX_PUBLIC_INPUTS,
            all_elems(public@),
            all_elems(secret_a@),
            all_elems(secret_b@),
        ensures
            r.wf(),
            r.public_spec() == public@,
            r.tape_a() == secret_a@,
            r.tape_b() == secret_b@,
    {
        ProgramInputs {
            public: copy_values(public),
            secret_a: copy_values(secret_a),
            secret_b: copy_values(secret_b),
        }
    }

    /// Inputs with public values only, and empty secret tapes.
    pub fn from_public(public: &[u128]) -> (r: ProgramInputs)
        requires
            public@.len() <= MAX_PUBLIC_INPUTS,
            all_elems(public@),
        ensures
            r.wf(),
            r.public_spec() == public@,
            r.tape_a() == Seq::<u128>::empty(),
            r.tape_b() == Seq::<u128>::empty(),
    {
        ProgramInputs { public: copy_values(public), secret_a: Vec::new(), secret_b: Vec::new() }
    }

    pub fn get_public_inputs(&self) -> (r: &[u128])
        ensures
            r@ == self.public_spec(),
    {
        self.public.as_slice()
    }

    pub fn get_tape_a(&self) -> (r: &Vec<u128>)
        ensures
            r@ == self.tape_a(),
    {
        &self.secret_a
    }

    pub fn get_tape_b(&self) -> (r: &Vec<u128>)
        ensures
            r@ == self.tape_b(),
    {
        &self.secret_b
    }
}

} // verus!
