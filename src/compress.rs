//! The Poseidon permutation and the compression step that absorbs one block.

use vstd::prelude::*;
use crate::field::{FieldElement, MODULUS, fe_add, fe_mul, fe_pow5};

verus! {

/// Width of the permutation state, in field elements.
pub const STATE_LEN: usize = 3;

/// Number of full rounds at each end of the round schedule.
pub const FULL_ROUNDS: usize = 8;

/// Number of partial rounds in the middle of the round schedule.
pub const PARTIAL_ROUNDS: usize = 56;

/// Size in bytes of one absorbed block.
pub const BLOCK_SIZE: usize = 64;

/// Number of bytes of a block that make up one field element.
pub const ELEMENT_BYTES: usize = 8;

/// The permutation state.
pub type State = [FieldElement; 3];

/// The values that a state holds.
pub open spec fn state_view(s: State) -> Seq<nat> {
    s@.map_values(|e: FieldElement| e@)
}

/// Every element of the state is reduced.
pub open spec fn state_wf(s: State) -> bool {
    forall|i: int| 0 <= i < 3 ==> #[trigger] s[i].wf()
}

/// A sequence of field values of the state's width.
pub open spec fn values_wf(s: Seq<nat>) -> bool {
    s.len() == 3 && forall|i: int| 0 <= i < 3 ==> #[trigger] s[i] < MODULUS as nat
}

/// The constant added to element `i` in round `round`.
pub open spec fn round_constant(round: nat, i: nat) -> nat {
    round + i
}

/// The entry at row `i`, column `j` of the diffusion matrix.
pub open spec fn mds_entry(i: int, j: int) -> nat {
    if i == 0 {
        if j == 0 { 2 } else if j == 1 { 3 } else { 1 }
    } else if i == 1 {
        if j == 0 { 1 } else if j == 1 { 2 } else { 3 }
    } else {
        if j == 0 { 3 } else if j == 1 { 1 } else { 2 }
    }
}

/// The state after the round constants of `round` are added.
pub open spec fn add_constants_spec(s: Seq<nat>, round: nat) -> Seq<nat> {
    Seq::new(3, |i: int| fe_add(s[i], round_constant(round, i as nat)))
}

/// The state with the S-box applied to every element.
pub open spec fn sbox_all_spec(s: Seq<nat>) -> Seq<nat> {
    Seq::new(3, |i: int| fe_pow5(s[i]))
}

/// The state with the S-box applied to its first element only.
pub open spec fn sbox_first_spec(s: Seq<nat>) -> Seq<nat> {
    s.update(0, fe_pow5(s[0]))
}

/// Row `i` of the diffusion matrix times the state, in the field.
pub open spec fn mds_row(s: Seq<nat>, i: int) -> nat {
    fe_add(
        fe_add(fe_mul(s[0], mds_entry(i, 0)), fe_mul(s[1], mds_entry(i, 1))),
        fe_mul(s[2], mds_entry(i, 2)),
    )
}

/// The diffusion matrix times the state.
pub open spec fn mds_spec(s: Seq<nat>) -> Seq<nat> {
    Seq::new(3, |i: int| mds_row(s, i))
}

/// Round `k` applies the S-box to every element in the first and last `FULL_ROUNDS`.
pub open spec fn is_full_round(k: nat) -> bool {
    k < FULL_ROUNDS || k >= FULL_ROUNDS + PARTIAL_ROUNDS
}

/// Round `k` of the schedule.
pub open spec fn round_spec(s: Seq<nat>, k: nat) -> Seq<nat> {
    if is_full_round(k) {
        mds_spec(sbox_all_spec(add_constants_spec(s, k)))
    } else {
        mds_spec(sbox_first_spec(add_constants_spec(s, k)))
    }
}

/// The state after the first `n` rounds of the schedule.
pub open spec fn rounds_spec(s: Seq<nat>, n: nat) -> Seq<nat>
    decreases n,
{
    if n == 0 {
        s
    } else {
        round_spec(rounds_spec(s, (n - 1) as nat), (n - 1) as nat)
    }
}

/// The whole permutation: all rounds of the schedule.
pub open spec fn permutation_spec(s: Seq<nat>) -> Seq<nat> {
    rounds_spec(s, (2 * FULL_ROUNDS + PARTIAL_ROUNDS) as nat)
}

/// The integer that bytes encode, least significant first.
pub open spec fn le_value(b: Seq<u8>) -> nat
    decreases b.len(),
{
    if b.len() == 0 {
        0
    } else {
        b[0] as nat + 256 * le_value(b.drop_first())
    }
}

/// 256 to the power `n`.
pub open spec fn pow256(n: nat) -> nat
    decreases n,
{
    if n == 0 {
        1
    } else {
        256 * pow256((n - 1) as nat)
    }
}

/// The field values that a block contributes: one for each `ELEMENT_BYTES` bytes
/// at its start, reduced modulo `MODULUS`.
pub open spec fn block_elements(b: Seq<u8>) -> Seq<nat> {
    Seq::new(
        3,
        |i: int| le_value(b.subrange(8 * i, 8 * i + 8)) % (MODULUS as nat),
    )
}

/// One absorption: the block is added into the state, then permuted.
pub open spec fn compress_spec(s: Seq<nat>, b: Seq<u8>) -> Seq<nat> {
    let e = block_elements(b);
    permutation_spec(Seq::new(3, |i: int| fe_add(s[i], e[i])))
}

/// An encoding of `n` bytes is below 256 to the power `n`.
pub proof fn lemma_le_value_bound(b: Seq<u8>)
    ensures
        le_value(b) < pow256(b.len()),
    decreases b.len(),
{
    if b.len() > 0 {
        lemma_le_value_bound(b.drop_first());
    }
}

/// Reads the unsigned integer that the `ELEMENT_BYTES` bytes at `start` encode,
/// least significant byte first.
pub fn read_u64_le(input: &[u8], start: usize) -> (r: u64)
    requires
        start + 8 <= input@.len(),
    ensures
        r as nat == le_value(input@.subrange(start as int, start + 8)),
{
    let len = input.len();
    let mut v: u64 = 0;
    let mut j: usize = 8;
    while j > 0
        invariant
            len == input@.len(),
            start + 8 <= input@.len(),
            j <= 8,
            v as nat == le_value(input@.subrange(start + j, start + 8)),
        decreases j,
    {
        let b = input[start + j - 1];
        let ghost tail = input@.subrange(start + j - 1, start + 8);
        proof {
            assert(tail.drop_first() =~= input@.subrange(start + j, start + 8));
            lemma_le_value_bound(tail);
            lemma_pow256_eight();
            lemma_pow256_mono(tail.len(), 8);
        }
        v = v * 256 + b as u64;
        j = j - 1;
    }
    v
}

/// Eight bytes encode integers below 2^64.
pub proof fn lemma_pow256_eight()
    ensures
        pow256(8) == 0x1_0000_0000_0000_0000,
{
    reveal_with_fuel(pow256, 9);
}

/// Entry `i`, `j` of the diffusion matrix.
fn mds_matrix_entry(i: usize, j: usize) -> (r: u64)
    requires
        i < 3,
        j < 3,
    ensures
        r as nat == mds_entry(i as int, j as int),
{
    if i == 0 {
        if j == 0 { 2 } else if j == 1 { 3 } else { 1 }
    } else if i == 1 {
        if j == 0 { 1 } else if j == 1 { 2 } else { 3 }
    } else {
        if j == 0 { 3 } else if j == 1 { 1 } else { 2 }
    }
}

/// Adds the round constants of round `round` to the state.
fn add_round_constants(state: &mut State, round: usize)
    requires
        state_wf(*old(state)),
        round < 2 * FULL_ROUNDS + PARTIAL_ROUNDS,
    ensures
        state_wf(*final(state)),
        state_view(*final(state)) == add_constants_spec(state_view(*old(state)), round as nat),
{
    let mut i: usize = 0;
    while i < STATE_LEN
        invariant
            i <= 3,
            round < 2 * FULL_ROUNDS + PARTIAL_ROUNDS,
            state_wf(*state),
            forall|k: int| 0 <= k < i ==> (#[trigger] state[k])@ == fe_add(
                old(state)[k]@,
                round_constant(round as nat, k as nat),
            ),
            forall|k: int| i <= k < 3 ==> #[trigger] state[k] == old(state)[k],
        decreases 3 - i,
    {
        let constant = FieldElement::new((round + i) as u64);
        state[i] = state[i].add(constant);
        i = i + 1;
    }
    assert(state_view(*state) =~= add_constants_spec(state_view(*old(state)), round as nat));
}

/// Applies the S-box to every element of the state.
fn sbox_all(state: &mut State)
    requires
        state_wf(*old(state)),
    ensures
        state_wf(*final(state)),
        state_view(*final(state)) == sbox_all_spec(state_view(*old(state))),
{
    let mut i: usize = 0;
    while i < STATE_LEN
        invariant
            i <= 3,
            state_wf(*state),
            forall|k: int| 0 <= k < i ==> (#[trigger] state[k])@ == fe_pow5(old(state)[k]@),
            forall|k: int| i <= k < 3 ==> #[trigger] state[k] == old(state)[k],
        decreases 3 - i,
    {
        state[i] = state[i].sbox();
        i = i + 1;
    }
    assert(state_view(*state) =~= sbox_all_spec(state_view(*old(state))));
}

/// Multiplies the state, as a vector, by the diffusion matrix.
fn apply_mds_matrix(state: &mut State)
    requires
        state_wf(*old(state)),
    ensures
        state_wf(*final(state)),
        state_view(*final(state)) == mds_spec(state_view(*old(state))),
{
    let input_state: State = *state;
    let mut i: usize = 0;
    while i < STATE_LEN
        invariant
            i <= 3,
            input_state == *old(state),
            state_wf(input_state),
            state_wf(*state),
            forall|k: int| 0 <= k < i ==> (#[trigger] state[k])@ == mds_row(
                state_view(input_state),
                k,
            ),
        decreases 3 - i,
    {
        let mut acc = FieldElement::new(0);
        let mut j: usize = 0;
        while j < STATE_LEN
            invariant
                i < 3,
                j <= 3,
                state_wf(input_state),
                acc.wf(),
                acc@ == mds_row_partial(state_view(input_state), i as int, j as int),
            decreases 3 - j,
        {
            let entry = FieldElement::new(mds_matrix_entry(i, j));
            acc = acc.add(input_state[j].mul(entry));
            j = j + 1;
        }
        proof {
            let s = state_view(input_state);
            let t0 = fe_mul(s[0], mds_entry(i as int, 0));
            assert(t0 < MODULUS as nat);
            assert(fe_add(0, t0) == t0);
            reveal_with_fuel(mds_row_partial, 4);
            assert(acc@ == mds_row(s, i as int));
        }
        state[i] = acc;
        i = i + 1;
    }
    assert(state_view(*state) =~= mds_spec(state_view(*old(state))));
}

/// Applies the whole round schedule to the state in place: `FULL_ROUNDS` full
/// rounds, `PARTIAL_ROUNDS` partial rounds, then `FULL_ROUNDS` full rounds again,
/// with the round constants indexed across the whole schedule.
pub fn poseidon_permutation(state: &mut State)
    requires
        state_wf(*old(state)),
    ensures
        state_wf(*final(state)),
        state_view(*final(state)) == permutation_spec(state_view(*old(state))),
{
    let ghost init = state_view(*state);
    let mut round: usize = 0;
    while round < FULL_ROUNDS
        invariant
            round <= FULL_ROUNDS,
            state_wf(*state),
            state_view(*state) == rounds_spec(init, round as nat),
        decreases FULL_ROUNDS - round,
    {
        add_round_constants(state, round);
        sbox_all(state);
        apply_mds_matrix(state);
        round = round + 1;
    }
    let mut round: usize = 0;
    while round < PARTIAL_ROUNDS
        invariant
            round <= PARTIAL_ROUNDS,
            state_wf(*state),
            state_view(*state) == rounds_spec(init, (FULL_ROUNDS + round) as nat),
        decreases PARTIAL_ROUNDS - round,
    {
        let ghost before = state_view(*state);
        add_round_constants(state, FULL_ROUNDS + round);
        let ghost added = state_view(*state);
        state[0] = state[0].sbox();
        assert(state_view(*state) =~= sbox_first_spec(added));
        apply_mds_matrix(state);
        assert(rounds_spec(init, (FULL_ROUNDS + round + 1) as nat) == round_spec(
            before,
            (FULL_ROUNDS + round) as nat,
        ));
        round = round + 1;
    }
    let mut round: usize = 0;
    while round < FULL_ROUNDS
        invariant
            round <= FULL_ROUNDS,
            state_wf(*state),
            state_view(*state) == rounds_spec(
                init,
                (FULL_ROUNDS + PARTIAL_ROUNDS + round) as nat,
            ),
        decreases FULL_ROUNDS - round,
    {
        add_round_constants(state, FULL_ROUNDS + PARTIAL_ROUNDS + round);
        sbox_all(state);
        apply_mds_matrix(state);
        round = round + 1;
    }
}

/// Absorbs one block: each `ELEMENT_BYTES` bytes at the start of the block,
/// read least significant first and reduced, are added to one element of the
/// state, which is then permuted.
pub fn compress(state: &mut State, input: &[u8])
    requires
        state_wf(*old(state)),
        input@.len() == BLOCK_SIZE,
    ensures
        state_wf(*final(state)),
        state_view(*final(state)) == compress_spec(state_view(*old(state)), input@),
{
    let ghost e = block_elements(input@);
    let mut i: usize = 0;
    while i < STATE_LEN
        invariant
            i <= 3,
            input@.len() == BLOCK_SIZE,
            e == block_elements(input@),
            state_wf(*state),
            forall|k: int| 0 <= k < i ==> (#[trigger] state[k])@ == fe_add(old(state)[k]@, e[k]),
            forall|k: int| i <= k < 3 ==> #[trigger] state[k] == old(state)[k],
        decreases 3 - i,
    {
        let value = read_u64_le(input, ELEMENT_BYTES * i);
        let element = FieldElement::new(value);
        state[i] = state[i].add(element);
        i = i + 1;
    }
    let ghost s = state_view(*old(state));
    assert(state_view(*state) =~= Seq::new(3, |k: int| fe_add(s[k], e[k])));
    poseidon_permutation(state);
}

/// The first `j` terms of row `i` of the matrix product, summed in the field
/// from zero.
spec fn mds_row_partial(s: Seq<nat>, i: int, j: int) -> nat
    decreases j,
{
    if j <= 0 {
        0
    } else {
        fe_add(mds_row_partial(s, i, j - 1), fe_mul(s[j - 1], mds_entry(i, j - 1)))
    }
}

/// Powers of 256 grow with the exponent.
proof fn lemma_pow256_mono(a: nat, b: nat)
    requires
        a <= b,
    ensures
        pow256(a) <= pow256(b),
    decreases b,
{
    if a < b {
        lemma_pow256_mono(a, (b - 1) as nat);
    }
}

} // verus!
