use crate::field::{fsub, is_elem};
use crate::hasher::{all_elems, CYCLE_LENGTH};
use crate::opcodes::{
    is_stack, op_code, sponge_step, stack_step, Instruction, MAX_STACK_DEPTH, MIN_STACK_DEPTH,
    NUM_OPS,
};
use crate::processor::{initial_stack, models, row_wf, RowModel, TraceState};
use crate::programs::{
    hash_bytes, is_trace_length, valid_instrs, MAX_PROGRAM_LENGTH, MAX_PUBLIC_INPUTS, MIN_TRACE_LENGTH,
};
use crate::stack::{effect, lemma_effect_wf, lemma_one_hot, one_hot, read_a, read_b, weighted_effect};
use vstd::prelude::*;

verus! {

pub const MAX_OUTPUTS: usize = 8;

pub const MIN_EXTENSION_FACTOR: usize = 16;

/// Bits of security that the field size allows.
pub const FIELD_SECURITY: u32 = 128;

/// Parameters of the proof system.
#[derive(Clone, Copy, Debug, PartialEq, Eq)]
pub struct ProofOptions {
    extension_factor: usize,
    num_queries: usize,
    grinding_factor: u32,
}

pub open spec fn is_pow2(n: nat) -> bool
    decreases n,
{
    n == 1 || (n > 1 && n % 2 == 0 && is_pow2(n / 2))
}

/// The base-two logarithm of a power of two.
pub open spec fn log2(n: nat) -> nat
    decreases n,
{
    if n <= 1 {
        0
    } else {
        1 + log2(n / 2)
    }
}

proof fn lemma_log2_le(n: nat)
    ensures
        log2(n) <= n,
    decreases n,
{
    if n > 1 {
        lemma_log2_le(n / 2);
    }
}

/// Conjectured security: the query security, capped by the field's, plus grinding bits;
/// the proven level is half of it.
pub open spec fn security_bits(q: nat, ef: nat, g: nat, conjectured: bool) -> nat {
    let query_bits = q * log2(ef) / 2;
    let capped = if query_bits < FIELD_SECURITY { query_bits } else { FIELD_SECURITY as nat };
    if conjectured {
        capped + g
    } else {
        (capped + g) / 2
    }
}

impl ProofOptions {
    pub closed spec fn ef(&self) -> nat {
        self.extension_factor as nat
    }

    pub closed spec fn queries(&self) -> nat {
        self.num_queries as nat
    }

    pub closed spec fn grinding(&self) -> nat {
        self.grinding_factor as nat
    }

    pub fn new(extension_factor: usize, num_queries: usize, grinding_factor: u32) -> (r: ProofOptions)
        requires
            is_pow2(extension_factor as nat),
            extension_factor >= MIN_EXTENSION_FACTOR,
        ensures
            r.ef() == extension_factor,
            r.queries() == num_queries,
            r.grinding() == grinding_factor,
    {
        ProofOptions { extension_factor, num_queries, grinding_factor }
    }

    pub fn extension_factor(&self) -> (r: usize)
        ensures
            r == self.ef(),
    {
        self.extension_factor
    }

    pub fn num_queries(&self) -> (r: usize)
        ensures
            r == self.queries(),
    {
        self.num_queries
    }

    pub fn grinding_factor(&self) -> (r: u32)
        ensures
            r == self.grinding(),
    {
        self.grinding_factor
    }

    /// Bits of security of proofs made with these options.
    pub fn security_level(&self, conjectured: bool) -> (r: u64)
        ensures
            r == security_bits(self.queries(), self.ef(), self.grinding(), conjectured),
    {
        let mut lg: usize = 0;
        let mut n: usize = self.extension_factor;
        proof {
            lemma_log2_le(self.ef());
        }
        while n > 1
            invariant
                n <= self.ef(),
                lg + log2(n as nat) == log2(self.ef()),
                log2(self.ef()) <= self.ef(),
            decreases n,
        {
            n = n / 2;
            lg += 1;
        }
        assert(log2(n as nat) == 0);
        let q = self.num_queries as u128;
        let l = lg as u128;
        assert(q * l <= 0xffff_ffff_ffff_ffff * 0xffff_ffff_ffff_ffff) by (nonlinear_arith)
            requires
                q <= 0xffff_ffff_ffff_ffff,
                l <= 0xffff_ffff_ffff_ffff,
        ;
        let query_bits: u128 = q * l / 2;
        let capped: u64 = if query_bits < FIELD_SECURITY as u128 {
            query_bits as u64
        } else {
            FIELD_SECURITY as u64
        };
        let g = self.grinding_factor as u64;
        if conjectured {
            capped + g
        } else {
            (capped + g) / 2
        }
    }
}

impl Default for ProofOptions {
    fn default() -> (r: ProofOptions)
        ensures
            r.ef() == 32,
            r.queries() == 48,
            r.grinding() == 16,
    {
        ProofOptions { extension_factor: 32, num_queries: 48, grinding_factor: 16 }
    }
}

/// A proof of execution: the execution trace row by row, the instruction stream that the
/// program hash commits to, and the options it was made with. The verifier checks every
/// row of the trace, so the proof is not succinct, and it reveals the values read from the
/// secret tapes. The options are carried along but do not affect proving or checking.
pub struct StarkProof {
    trace: Vec<TraceState>,
    ops: Vec<Instruction>,
    options: ProofOptions,
}

impl StarkProof {
    pub closed spec fn rows(&self) -> Seq<RowModel> {
        models(self.trace@)
    }

    pub closed spec fn ops_spec(&self) -> Seq<Instruction> {
        self.ops@
    }

    pub closed spec fn options_spec(&self) -> ProofOptions {
        self.options
    }

    pub fn options(&self) -> (r: &ProofOptions)
        ensures
            *r == self.options_spec(),
    {
        &self.options
    }

    pub fn trace_length(&self) -> (r: usize)
        ensures
            r == self.rows().len(),
    {
        self.trace.len()
    }
}

/// The proof's rows and instructions fit together and hold field elements.
pub open spec fn shape_ok(rows: Seq<RowModel>, ops: Seq<Instruction>) -> bool {
    &&& rows.len() == ops.len() + 1
    &&& is_trace_length(rows.len())
    &&& ops.len() < 2 * MAX_PROGRAM_LENGTH
    &&& valid_instrs(ops)
    &&& forall|i: int| 0 <= i < rows.len() ==> row_wf(#[trigger] rows[i])
}

/// The sponge column absorbs the instruction stream from zero and ends at the program hash.
pub open spec fn path_ok(hash: Seq<u8>, rows: Seq<RowModel>, ops: Seq<Instruction>) -> bool {
    &&& rows[0].sponge == seq![0u128, 0u128, 0u128, 0u128]
    &&& forall|i: int|
        0 <= i < ops.len() ==> #[trigger] rows[i + 1].sponge == sponge_step(
            rows[i].sponge,
            ops[i],
            (i % CYCLE_LENGTH as int) as nat,
        )
    &&& hash_bytes(rows.last().sponge) == hash
}

/// Row `i + 1` is what instruction `i` makes of row `i`, tape reads taken from row `i + 1`.
pub open spec fn transition_ok(ins: Instruction, pos: nat, cur: RowModel, nxt: RowModel) -> bool {
    stack_step(ins, pos, cur.stack, cur.depth, read_a(ins.op, nxt.stack), read_b(nxt.stack)) == Ok::<
        (Seq<u128>, nat),
        crate::opcodes::ExecError,
    >((nxt.stack, nxt.depth))
}

/// The trace starts from the public inputs, ends with the outputs on top, and every
/// step is a valid transition.
pub open spec fn trace_ok(
    public: Seq<u128>,
    outputs: Seq<u128>,
    rows: Seq<RowModel>,
    ops: Seq<Instruction>,
) -> bool {
    &&& public.len() <= MAX_PUBLIC_INPUTS
    &&& all_elems(public)
    &&& rows[0].stack == initial_stack(public)
    &&& rows[0].depth == MIN_STACK_DEPTH
    &&& outputs.len() <= MAX_OUTPUTS
    &&& outputs == rows.last().stack.subrange(0, outputs.len() as int)
    &&& forall|i: int|
        0 <= i < ops.len() ==> transition_ok(
            #[trigger] ops[i],
            (i % CYCLE_LENGTH as int) as nat,
            rows[i],
            rows[i + 1],
        )
}

pub open spec fn low_degree_message() -> Seq<char> {
    "verification of low-degree proof failed: evaluations did not match column value at depth 0"@
}

pub open spec fn path_message() -> Seq<char> {
    "verification of program execution path failed"@
}

/// What the verifier decides: `Ok(true)`, or the error message.
pub open spec fn verdict(
    hash: Seq<u8>,
    public: Seq<u128>,
    outputs: Seq<u128>,
    rows: Seq<RowModel>,
    ops: Seq<Instruction>,
) -> Result<bool, Seq<char>> {
    if !shape_ok(rows, ops) {
        Err(low_degree_message())
    } else if !path_ok(hash, rows, ops) {
        Err(path_message())
    } else if !trace_ok(public, outputs, rows, ops) {
        Err(low_degree_message())
    } else {
        Ok(true)
    }
}

pub open spec fn result_view(r: Result<bool, String>) -> Result<bool, Seq<char>> {
    match r {
        Ok(b) => Ok(b),
        Err(m) => Err(m@),
    }
}

/// Packs the execution trace and the instruction stream into a proof.
pub fn prove(trace: Vec<TraceState>, ops: Vec<Instruction>, options: &ProofOptions) -> (r:
    StarkProof)
    ensures
        r.rows() == models(trace@),
        r.ops_spec() == ops@,
        r.options_spec() == *options,
{
    StarkProof { trace, ops, options: *options }
}

/// Whether `n` is a power of two of at least sixteen.
fn check_trace_length(n: usize) -> (r: bool)
    ensures
        r == is_trace_length(n as nat),
{
    let mut m: usize = n;
    while m > MIN_TRACE_LENGTH && m % 2 == 0
        invariant
            is_trace_length(m as nat) == is_trace_length(n as nat),
        decreases m,
    {
        m = m / 2;
    }
    m == MIN_TRACE_LENGTH
}

pub(crate) fn check_shape(proof: &StarkProof) -> (r: bool)
    ensures
        r == shape_ok(proof.rows(), proof.ops_spec()),
{
    let rows = &proof.trace;
    let ops = &proof.ops;
    if rows.len() == 0 || rows.len() - 1 != ops.len() || ops.len() >= 2 * MAX_PROGRAM_LENGTH {
        return false;
    }
    if !check_trace_length(rows.len()) {
        return false;
    }
    let mut i: usize = 0;
    while i < ops.len()
        invariant
            i <= ops@.len(),
            ops@ == proof.ops_spec(),
            forall|k: int| 0 <= k < i ==> is_elem(#[trigger] ops@[k].imm),
        decreases ops@.len() - i,
    {
        if ops[i].imm >= crate::field::MODULUS {
            assert(!is_elem(ops@[i as int].imm));
            return false;
        }
        i += 1;
    }
    let mut i: usize = 0;
    while i < rows.len()
        invariant
            i <= rows@.len(),
            rows@ == proof.trace@,
            proof.rows() == models(rows@),
            forall|k: int| 0 <= k < i ==> row_wf(#[trigger] models(rows@)[k]),
        decreases rows@.len() - i,
    {
        let row = &rows[i];
        assert(models(rows@)[i as int] == row.model());
        if row.stack.len() != MAX_STACK_DEPTH || row.sponge.len() != 4 || row.depth
            < MIN_STACK_DEPTH || row.depth > MAX_STACK_DEPTH {
            return false;
        }
        if !all_below_modulus(&row.stack) || !all_below_modulus(&row.sponge) {
            return false;
        }
        assert(row_wf(models(rows@)[i as int]));
        i += 1;
    }
    true
}

fn all_below_modulus(v: &Vec<u128>) -> (r: bool)
    ensures
        r == all_elems(v@),
{
    let mut i: usize = 0;
    while i < v.len()
        invariant
            i <= v@.len(),
            forall|k: int| 0 <= k < i ==> is_elem(#[trigger] v@[k]),
        decreases v@.len() - i,
    {
        if v[i] >= crate::field::MODULUS {
            return false;
        }
        i += 1;
    }
    true
}

fn vec_eq(a: &Vec<u128>, b: &Vec<u128>) -> (r: bool)
    ensures
        r == (a@ == b@),
{
    if a.len() != b.len() {
        return false;
    }
    let mut i: usize = 0;
    while i < a.len()
        invariant
            i <= a@.len(),
            a@.len() == b@.len(),
            forall|k: int| 0 <= k < i ==> a@[k] == b@[k],
        decreases a@.len() - i,
    {
        if a[i] != b[i] {
            return false;
        }
        i += 1;
    }
    assert(a@ =~= b@);
    true
}

pub(crate) fn check_path(hash: &[u8; 32], proof: &StarkProof) -> (r: bool)
    requires
        shape_ok(proof.rows(), proof.ops_spec()),
    ensures
        r == path_ok(hash@, proof.rows(), proof.ops_spec()),
{
    let rows = &proof.trace;
    let ops = &proof.ops;
    let ghost m = proof.rows();
    assert(row_wf(m[0]));
    let zero: Vec<u128> = vec![0, 0, 0, 0];
    if !vec_eq(&rows[0].sponge, &zero) {
        assert(m[0].sponge != seq![0u128, 0u128, 0u128, 0u128]) by {
            assert(zero@ =~= seq![0u128, 0u128, 0u128, 0u128]);
        }
        return false;
    }
    assert(zero@ =~= seq![0u128, 0u128, 0u128, 0u128]);
    let mut i: usize = 0;
    while i < ops.len()
        invariant
            i <= ops@.len(),
            ops@ == proof.ops_spec(),
            rows@ == proof.trace@,
            m == models(rows@),
            shape_ok(m, ops@),
            forall|k: int|
                0 <= k < i ==> #[trigger] m[k + 1].sponge == sponge_step(
                    m[k].sponge,
                    ops@[k],
                    (k % CYCLE_LENGTH as int) as nat,
                ),
        decreases ops@.len() - i,
    {
        assert(row_wf(m[i as int]));
        assert(is_elem(ops@[i as int].imm));
        let mut s = rows[i].sponge.clone();
        assert(s@ == m[i as int].sponge);
        crate::programs::absorb(&mut s, ops[i], i % CYCLE_LENGTH);
        assert(m[i + 1] == rows@[i + 1].model());
        if !vec_eq(&s, &rows[i + 1].sponge) {
            assert(!(m[i + 1].sponge == sponge_step(
                m[i as int].sponge,
                ops@[i as int],
                (i as int % CYCLE_LENGTH as int) as nat,
            )));
            return false;
        }
        i += 1;
    }
    let last = &rows[rows.len() - 1];
    assert(row_wf(m[m.len() - 1]));
    assert(last.model() == m.last());
    let computed = crate::programs::compute_hash_bytes(&last.sponge);
    let mut k: usize = 0;
    while k < 32
        invariant
            k <= 32,
            computed@.len() == 32,
            hash@.len() == 32,
            m.len() > 0,
            m == proof.rows(),
            computed@ == hash_bytes(m.last().sponge),
            forall|j: int| 0 <= j < k ==> computed@[j] == hash@[j],
        decreases 32 - k,
    {
        if computed[k] != hash[k] {
            assert(computed@ != hash@);
            assert(hash_bytes(m.last().sponge) != hash@);
            return false;
        }
        k += 1;
    }
    assert(computed@ =~= hash@);
    true
}

/// Checks the transition from row `i` to row `i + 1`.
fn check_step(proof: &StarkProof, i: usize, table: &mut Vec<Vec<u128>>) -> (r: bool)
    requires
        shape_ok(proof.rows(), proof.ops_spec()),
        i < proof.ops_spec().len(),
        old(table)@.len() == MAX_STACK_DEPTH,
        forall|j: int| 0 <= j < MAX_STACK_DEPTH ==> i < (#[trigger] old(table)@[j])@.len(),
    ensures
        r == transition_ok(
            proof.ops_spec()[i as int],
            (i as int % CYCLE_LENGTH as int) as nat,
            proof.rows()[i as int],
            proof.rows()[i + 1],
        ),
        final(table)@.len() == MAX_STACK_DEPTH,
        forall|j: int|
            0 <= j < MAX_STACK_DEPTH ==> (#[trigger] final(table)@[j])@.len() == old(table)@[j]@.len(),
{
    let ghost m = proof.rows();
    let rows = &proof.trace;
    let ins = proof.ops[i];
    let cur = &rows[i];
    let nxt = &rows[i + 1];
    assert(row_wf(m[i as int]) && row_wf(m[i + 1]));
    assert(cur.model() == m[i as int] && nxt.model() == m[i + 1]);
    assert(is_elem(ins.imm));
    let pos = i % CYCLE_LENGTH;
    let code = ins.op.code() as usize;
    let mut flags = [0u128; 32];
    flags[code] = 1;
    assert(one_hot(flags@, code as nat));
    proof {
        crate::opcodes::lemma_op_code_round_trip(ins.op);
    }
    crate::stack::evaluate(cur, nxt, &flags, ins.imm, pos, table, i);
    let ghost eff = effect(ins.op, cur.stack@, nxt.stack@, pos as nat, ins.imm);
    proof {
        lemma_effect_wf(ins.op, cur.stack@, nxt.stack@, pos as nat, ins.imm);
    }
    let mut same = true;
    let mut r: usize = 0;
    while r < MAX_STACK_DEPTH
        invariant
            r <= MAX_STACK_DEPTH,
            table@.len() == MAX_STACK_DEPTH,
            forall|j: int| 0 <= j < MAX_STACK_DEPTH ==> i < (#[trigger] table@[j])@.len(),
            forall|j: int|
                0 <= j < MAX_STACK_DEPTH ==> (#[trigger] table@[j])@[i as int] == fsub(
                    nxt.stack@[j],
                    weighted_effect(flags@, cur.stack@, nxt.stack@, pos as nat, ins.imm, NUM_OPS as nat, j),
                ),
            is_stack(cur.stack@),
            is_stack(nxt.stack@),
            is_stack(eff),
            one_hot(flags@, op_code(ins.op)),
            eff == effect(ins.op, cur.stack@, nxt.stack@, pos as nat, ins.imm),
            pos < CYCLE_LENGTH,
            op_code(ins.op) < NUM_OPS,
            crate::opcodes::op_of_code(op_code(ins.op)) == ins.op,
            is_elem(ins.imm),
            same <==> forall|j: int| 0 <= j < r ==> nxt.stack@[j] == eff[j],
        decreases MAX_STACK_DEPTH - r,
    {
        proof {
            lemma_one_hot(flags@, cur.stack@, nxt.stack@, pos as nat, ins.imm, op_code(ins.op), NUM_OPS as nat, r as int);
            lemma_sub_zero(nxt.stack@[r as int], eff[r as int]);
        }
        let res = table[r][i];
        assert(res == table@[r as int]@[i as int]);
        assert(res == fsub(nxt.stack@[r as int], weighted_effect(flags@, cur.stack@, nxt.stack@, pos as nat, ins.imm, NUM_OPS as nat, r as int)));
        assert(weighted_effect(flags@, cur.stack@, nxt.stack@, pos as nat, ins.imm, NUM_OPS as nat, r as int) == eff[r as int]);
        assert(is_elem(nxt.stack@[r as int]) && is_elem(eff[r as int]));
        if res != 0 {
            same = false;
        }
        r += 1;
    }
    if !same {
        assert(nxt.stack@ != eff);
        return false;
    }
    assert(nxt.stack@ =~= eff);
    let fault = crate::opcodes::compute_fault(ins.op, &cur.stack);
    if fault.is_some() {
        return false;
    }
    let (k, mm) = crate::opcodes::arity(ins.op);
    proof {
        crate::opcodes::lemma_outs_len(ins.op, cur.stack@, pos as nat, ins.imm, 0, 0);
    }
    let raw = cur.depth - k + mm;
    if raw > MAX_STACK_DEPTH {
        return false;
    }
    let depth = if raw < MIN_STACK_DEPTH { MIN_STACK_DEPTH } else { raw };
    depth == nxt.depth
}

proof fn lemma_sub_zero(a: u128, b: u128)
    requires
        is_elem(a),
        is_elem(b),
    ensures
        (fsub(a, b) == 0) == (a == b),
{
    if a >= b {
        vstd::arithmetic::div_mod::lemma_small_mod((a - b) as nat, crate::field::p() as nat);
    } else {
        vstd::arithmetic::div_mod::lemma_fundamental_div_mod_converse(
            a - b,
            crate::field::p(),
            -1,
            a - b + crate::field::p(),
        );
    }
}

pub(crate) fn check_trace(public: &[u128], outputs: &[u128], proof: &StarkProof) -> (r: bool)
    requires
        shape_ok(proof.rows(), proof.ops_spec()),
    ensures
        r == trace_ok(public@, outputs@, proof.rows(), proof.ops_spec()),
{
    let ghost m = proof.rows();
    let rows = &proof.trace;
    let n = proof.ops.len();
    if public.len() > MAX_PUBLIC_INPUTS || outputs.len() > MAX_OUTPUTS {
        return false;
    }
    let mut i: usize = 0;
    while i < public.len()
        invariant
            i <= public@.len(),
            forall|k: int| 0 <= k < i ==> is_elem(#[trigger] public@[k]),
        decreases public@.len() - i,
    {
        if public[i] >= crate::field::MODULUS {
            assert(!is_elem(public@[i as int]));
            return false;
        }
        i += 1;
    }
    assert(row_wf(m[0]));
    let first = &rows[0];
    assert(first.model() == m[0]);
    let mut j: usize = 0;
    while j < MAX_STACK_DEPTH
        invariant
            j <= MAX_STACK_DEPTH,
            first.stack@.len() == MAX_STACK_DEPTH,
            m.len() > 0,
            m == proof.rows(),
            first.stack@ == m[0].stack,
            public@.len() <= MAX_PUBLIC_INPUTS,
            forall|k: int| 0 <= k < j ==> first.stack@[k] == #[trigger] initial_stack(public@)[k],
        decreases MAX_STACK_DEPTH - j,
    {
        let expected = if j < public.len() { public[j] } else { 0 };
        if first.stack[j] != expected {
            assert(first.stack@[j as int] != initial_stack(public@)[j as int]);
            return false;
        }
        j += 1;
    }
    assert(first.stack@ =~= initial_stack(public@));
    if first.depth != MIN_STACK_DEPTH {
        return false;
    }
    let last = &rows[n];
    assert(last.model() == m[n as int]);
    assert(row_wf(m[n as int]));
    let mut j: usize = 0;
    while j < outputs.len()
        invariant
            j <= outputs@.len(),
            outputs@.len() <= MAX_OUTPUTS,
            last.stack@.len() == MAX_STACK_DEPTH,
            m.len() == n + 1,
            m == proof.rows(),
            last.stack@ == m.last().stack,
            forall|k: int| 0 <= k < j ==> outputs@[k] == last.stack@[k],
        decreases outputs@.len() - j,
    {
        if outputs[j] != last.stack[j] {
            assert(outputs@ != m.last().stack.subrange(0, outputs@.len() as int)) by {
                assert(m.last().stack.subrange(0, outputs@.len() as int)[j as int] == last.stack@[j as int]);
            }
            return false;
        }
        j += 1;
    }
    assert(outputs@ =~= m.last().stack.subrange(0, outputs@.len() as int));
    let mut table: Vec<Vec<u128>> = Vec::new();
    let mut c: usize = 0;
    while c < MAX_STACK_DEPTH
        invariant
            c <= MAX_STACK_DEPTH,
            table@.len() == c,
            forall|k: int| 0 <= k < c ==> (#[trigger] table@[k])@.len() == n,
        decreases MAX_STACK_DEPTH - c,
    {
        let mut column: Vec<u128> = Vec::new();
        let mut t: usize = 0;
        while t < n
            invariant
                t <= n,
                column@.len() == t,
            decreases n - t,
        {
            column.push(0);
            t += 1;
        }
        table.push(column);
        c += 1;
    }
    let mut s: usize = 0;
    while s < n
        invariant
            s <= n,
            n == proof.ops_spec().len(),
            m == proof.rows(),
            shape_ok(m, proof.ops_spec()),
            table@.len() == MAX_STACK_DEPTH,
            forall|k: int| 0 <= k < MAX_STACK_DEPTH ==> n <= (#[trigger] table@[k])@.len(),
            forall|k: int|
                0 <= k < s ==> transition_ok(
                    #[trigger] proof.ops_spec()[k],
                    (k % CYCLE_LENGTH as int) as nat,
                    m[k],
                    m[k + 1],
                ),
        decreases n - s,
    {
        if !check_step(proof, s, &mut table) {
            assert(!transition_ok(
                proof.ops_spec()[s as int],
                (s as int % CYCLE_LENGTH as int) as nat,
                m[s as int],
                m[s + 1],
            ));
            return false;
        }
        s += 1;
    }
    true
}

} // verus!
