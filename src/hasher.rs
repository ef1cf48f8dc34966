use crate::field::{fadd, fexp, fmul, is_elem, INV_ALPHA};
use vstd::prelude::*;

verus! {

/// Number of lanes of the hash state: four rate lanes and two capacity lanes.
pub const STATE_WIDTH: usize = 6;

pub const STATE_RATE: usize = 4;

pub const NUM_ROUNDS: usize = 10;

/// Round constants repeat with this period.
pub const CYCLE_LENGTH: usize = 16;

pub const DIGEST_SIZE: usize = 2;

/// Seed from which the round constants are drawn as successive powers.
pub const ARK_SEED: u128 = 0x9e3779b97f4a7c15f39cc0605cedc834;

/// The `k`-th round constant.
pub open spec fn ark(k: nat) -> u128 {
    fexp(ARK_SEED, (k + 1) as u128)
}

/// Entry `(i, j)` of the mixing matrix, a Vandermonde matrix on the nodes 2, 3, ...
pub open spec fn mds(i: nat, j: nat) -> u128 {
    fexp((i + 2) as u128, j as u128)
}

pub open spec fn all_elems(s: Seq<u128>) -> bool {
    forall|i: int| 0 <= i < s.len() ==> is_elem(#[trigger] s[i])
}

pub open spec fn add_constants(s: Seq<u128>, offset: nat) -> Seq<u128> {
    Seq::new(s.len(), |j: int| fadd(s[j], ark(offset + j as nat)))
}

pub open spec fn sbox(s: Seq<u128>, e: u128) -> Seq<u128> {
    Seq::new(s.len(), |j: int| fexp(s[j], e))
}

/// The sum of `mds(i, j) * s[j]` over `j < n`.
pub open spec fn mds_dot(s: Seq<u128>, i: nat, n: nat) -> u128
    decreases n,
{
    if n == 0 {
        0
    } else {
        fadd(mds_dot(s, i, (n - 1) as nat), fmul(mds(i, (n - 1) as nat), s[n - 1]))
    }
}

pub open spec fn mix(s: Seq<u128>) -> Seq<u128> {
    Seq::new(s.len(), |i: int| mds_dot(s, i as nat, s.len()))
}

/// One Rescue round at position `r` of the cycle: constants, cube, mix, constants,
/// cube root, mix.
#[verifier::opaque]
pub open spec fn round(s: Seq<u128>, r: nat) -> Seq<u128> {
    let w = s.len();
    let half = mix(sbox(add_constants(s, 2 * r * w), 3));
    mix(sbox(add_constants(half, (2 * r + 1) * w), INV_ALPHA))
}

/// Rounds `0 .. n` applied in order.
pub open spec fn rounds(s: Seq<u128>, n: nat) -> Seq<u128>
    decreases n,
{
    if n == 0 {
        s
    } else {
        round(rounds(s, (n - 1) as nat), (n - 1) as nat)
    }
}

/// Up to four values, followed by zeros to fill the state.
pub open spec fn initial_state(values: Seq<u128>) -> Seq<u128> {
    Seq::new(STATE_WIDTH as nat, |i: int| if i < values.len() { values[i] } else { 0u128 })
}

/// The two first lanes of the state after all rounds.
pub open spec fn digest_spec(values: Seq<u128>) -> Seq<u128> {
    rounds(initial_state(values), NUM_ROUNDS as nat).subrange(0, DIGEST_SIZE as int)
}

pub proof fn lemma_mds_dot_elem(s: Seq<u128>, i: nat, n: nat)
    ensures
        is_elem(mds_dot(s, i, n)),
{
}

pub proof fn lemma_round_shape(s: Seq<u128>, r: nat)
    ensures
        round(s, r).len() == s.len(),
        all_elems(round(s, r)),
{
    reveal(round);
    let w = s.len();
    let half = mix(sbox(add_constants(s, 2 * r * w), 3));
    let out = mix(sbox(add_constants(half, (2 * r + 1) * w), INV_ALPHA));
    assert forall|i: int| 0 <= i < out.len() implies is_elem(#[trigger] out[i]) by {
        lemma_mds_dot_elem(sbox(add_constants(half, (2 * r + 1) * w), INV_ALPHA), i as nat, w);
    }
}

fn add_round_constants(state: &mut Vec<u128>, offset: usize)
    requires
        all_elems(old(state)@),
        offset + old(state)@.len() < 1000,
    ensures
        final(state)@ == add_constants(old(state)@, offset as nat),
        all_elems(final(state)@),
        final(state)@.len() == old(state)@.len(),
{
    let n = state.len();
    let mut j: usize = 0;
    while j < n
        invariant
            n == state@.len(),
            n == old(state)@.len(),
            offset + n < 1000,
            j <= n,
            all_elems(state@),
            forall|k: int| j <= k < n ==> state@[k] == old(state)@[k],
            forall|k: int|
                0 <= k < j ==> state@[k] == fadd(old(state)@[k], ark(offset as nat + k as nat)),
        decreases n - j,
    {
        let c = crate::field::exp(ARK_SEED, (offset + j + 1) as u128);
        let v = crate::field::add(state[j], c);
        state.set(j, v);
        j += 1;
    }
    assert(state@ =~= add_constants(old(state)@, offset as nat));
}

fn apply_sbox(state: &mut Vec<u128>, e: u128)
    requires
        all_elems(old(state)@),
    ensures
        final(state)@ == sbox(old(state)@, e),
        all_elems(final(state)@),
        final(state)@.len() == old(state)@.len(),
{
    let n = state.len();
    let mut j: usize = 0;
    while j < n
        invariant
            n == state@.len(),
            n == old(state)@.len(),
            j <= n,
            all_elems(state@),
            forall|k: int| j <= k < n ==> state@[k] == old(state)@[k],
            forall|k: int| 0 <= k < j ==> state@[k] == fexp(old(state)@[k], e),
        decreases n - j,
    {
        let v = crate::field::exp(state[j], e);
        state.set(j, v);
        j += 1;
    }
    assert(state@ =~= sbox(old(state)@, e));
}

fn apply_mix(state: &mut Vec<u128>)
    requires
        all_elems(old(state)@),
        old(state)@.len() < 100,
    ensures
        final(state)@ == mix(old(state)@),
        all_elems(final(state)@),
        final(state)@.len() == old(state)@.len(),
{
    let n = state.len();
    let mut result: Vec<u128> = Vec::new();
    let mut i: usize = 0;
    while i < n
        invariant
            n == state@.len(),
            n < 100,
            i <= n,
            all_elems(state@),
            result@.len() == i,
            all_elems(result@),
            forall|k: int| 0 <= k < i ==> result@[k] == mds_dot(state@, k as nat, n as nat),
        decreases n - i,
    {
        let mut acc: u128 = 0;
        let mut j: usize = 0;
        while j < n
            invariant
                n == state@.len(),
                n < 100,
                i < n,
                j <= n,
                all_elems(state@),
                is_elem(acc),
                acc == mds_dot(state@, i as nat, j as nat),
            decreases n - j,
        {
            let m = crate::field::exp((i + 2) as u128, j as u128);
            let t = crate::field::mul(m, state[j]);
            acc = crate::field::add(acc, t);
            j += 1;
        }
        result.push(acc);
        i += 1;
    }
    assert(result@ =~= mix(state@));
    *state = result;
}

/// Applies the Rescue round at cycle position `r` to the state in place.
pub fn apply_round(state: &mut Vec<u128>, r: usize)
    requires
        all_elems(old(state)@),
        old(state)@.len() <= STATE_WIDTH,
        r < CYCLE_LENGTH,
    ensures
        final(state)@ == round(old(state)@, r as nat),
        all_elems(final(state)@),
        final(state)@.len() == old(state)@.len(),
{
    reveal(round);
    let w = state.len();
    assert(2 * r * w + w <= 192 && (2 * r + 1) * w + w <= 192) by (nonlinear_arith)
        requires
            r < 16,
            w <= 6,
    ;
    add_round_constants(state, 2 * r * w);
    apply_sbox(state, 3);
    apply_mix(state);
    add_round_constants(state, (2 * r + 1) * w);
    apply_sbox(state, INV_ALPHA);
    apply_mix(state);
}

/// Hashes up to four field elements into two.
pub fn digest(values: &[u128]) -> (r: Vec<u128>)
    requires
        values@.len() <= STATE_RATE,
        all_elems(values@),
    ensures
        r@ == digest_spec(values@),
        all_elems(r@),
{
    let mut state: Vec<u128> = Vec::new();
    let mut i: usize = 0;
    while i < STATE_WIDTH
        invariant
            i <= STATE_WIDTH,
            values@.len() <= STATE_RATE,
            all_elems(values@),
            state@.len() == i,
            forall|k: int| 0 <= k < i ==> state@[k] == initial_state(values@)[k],
        decreases STATE_WIDTH - i,
    {
        if i < values.len() {
            state.push(values[i]);
        } else {
            state.push(0);
        }
        i += 1;
    }
    assert(state@ =~= initial_state(values@));
    let mut r: usize = 0;
    while r < NUM_ROUNDS
        invariant
            r <= NUM_ROUNDS,
            state@ == rounds(initial_state(values@), r as nat),
            state@.len() == STATE_WIDTH,
            all_elems(state@),
        decreases NUM_ROUNDS - r,
    {
        apply_round(&mut state, r);
        r += 1;
    }
    let mut out: Vec<u128> = Vec::new();
    out.push(state[0]);
    out.push(state[1]);
    assert(out@ =~= digest_spec(values@));
    out
}

} // verus!
