//! The sponge: a block-level core with a running state and block counter, the
//! byte-level hasher that buffers a partial block, padding, output, and the
//! encoding of the core's state for suspension and resumption.

use vstd::prelude::*;
use crate::compress::{
    BLOCK_SIZE, ELEMENT_BYTES, STATE_LEN, State, compress, compress_spec, le_value, pow256,
    read_u64_le, state_view, state_wf, values_wf,
};
use crate::field::{FieldElement, MODULUS};

verus! {

/// Size in bytes of a digest: one `ELEMENT_BYTES` encoding per state element.
pub const OUTPUT_SIZE: usize = 24;

/// Size in bytes of an encoded core: the state's elements, then the block counter.
pub const SERIALIZED_STATE_SIZE: usize = 32;

/// Number of bytes at the end of the last padded block that hold the bit length.
pub const LENGTH_BYTES: usize = 8;

/// The byte that marks the end of the message in the padding.
pub const PADDING_DELIMITER: u8 = 0x80;

/// Why an encoded core was refused.
#[derive(Clone, Copy, Debug, PartialEq, Eq)]
pub enum StateError {
    /// The encoding does not have `SERIALIZED_STATE_SIZE` bytes.
    InvalidLength,
    /// An encoded state element is not below the field's modulus.
    ValueOutOfRange,
}

/// What a core holds: its state's values and its count of absorbed blocks.
pub struct CoreModel {
    pub state: Seq<nat>,
    pub blocks: nat,
}

/// What a hasher holds: its core, and the bytes of a block not yet complete.
pub struct SpongeModel {
    pub state: Seq<nat>,
    pub blocks: nat,
    pub pending: Seq<u8>,
}

/// 2^64: the block counter and the bit length are kept modulo this.
pub open spec fn two_pow_64() -> nat {
    0x1_0000_0000_0000_0000
}

/// The all-zero state of a fresh hasher.
pub open spec fn zero_state() -> Seq<nat> {
    seq![0nat, 0nat, 0nat]
}

/// A fresh hasher: zero state, no block absorbed, nothing pending.
pub open spec fn fresh() -> SpongeModel {
    SpongeModel { state: zero_state(), blocks: 0, pending: Seq::empty() }
}

/// The hasher after `bytes` follow what is pending in a core at `state`, `blocks`:
/// every complete block is compressed in order and counted.
pub open spec fn absorb(state: Seq<nat>, blocks: nat, bytes: Seq<u8>) -> SpongeModel
    decreases bytes.len(),
{
    if bytes.len() < BLOCK_SIZE {
        SpongeModel { state, blocks, pending: bytes }
    } else {
        absorb(
            compress_spec(state, bytes.take(BLOCK_SIZE as int)),
            (blocks + 1) % two_pow_64(),
            bytes.skip(BLOCK_SIZE as int),
        )
    }
}

/// The hasher after it absorbs `data`.
pub open spec fn update_spec(m: SpongeModel, data: Seq<u8>) -> SpongeModel {
    absorb(m.state, m.blocks, m.pending + data)
}

/// The number of bits hashed, modulo 2^64.
pub open spec fn bit_length(m: SpongeModel) -> nat {
    ((8 * (m.pending.len() + BLOCK_SIZE * m.blocks)) % (two_pow_64() as int)) as nat
}

/// `n` zero bytes.
pub open spec fn zeros(n: nat) -> Seq<u8> {
    Seq::new(n, |i: int| 0u8)
}

/// The `n` bytes that encode `v`, least significant first.
pub open spec fn le_bytes(v: nat, n: nat) -> Seq<u8>
    decreases n,
{
    if n == 0 {
        Seq::empty()
    } else {
        seq![(v % 256) as u8] + le_bytes(v / 256, (n - 1) as nat)
    }
}

/// The state after padding: the pending bytes, the delimiter and zeros fill a
/// block whose last `LENGTH_BYTES` bytes hold the bit length; where the pending
/// bytes leave no room for it, the length goes in a block of its own.
pub open spec fn padded_state(m: SpongeModel) -> Seq<nat> {
    let pos = m.pending.len();
    let len = le_bytes(bit_length(m), LENGTH_BYTES as nat);
    if pos + 1 + LENGTH_BYTES <= BLOCK_SIZE {
        let block = m.pending + seq![PADDING_DELIMITER] + zeros(
            (BLOCK_SIZE - LENGTH_BYTES - 1 - pos) as nat,
        ) + len;
        compress_spec(m.state, block)
    } else {
        let first = m.pending + seq![PADDING_DELIMITER] + zeros((BLOCK_SIZE - 1 - pos) as nat);
        let second = zeros((BLOCK_SIZE - LENGTH_BYTES) as nat) + len;
        compress_spec(compress_spec(m.state, first), second)
    }
}

/// The encoding of the state's elements, in order.
pub open spec fn state_bytes(s: Seq<nat>) -> Seq<u8> {
    le_bytes(s[0], 8) + le_bytes(s[1], 8) + le_bytes(s[2], 8)
}

/// The digest of what the hasher has absorbed.
pub open spec fn finalize_spec(m: SpongeModel) -> Seq<u8> {
    state_bytes(padded_state(m))
}

/// The hasher after a reset: fresh, whatever it held.
pub open spec fn reset_spec(m: SpongeModel) -> SpongeModel {
    fresh()
}

/// The digest of `data`, hashed from a fresh hasher.
pub open spec fn hash_spec(data: Seq<u8>) -> Seq<u8> {
    finalize_spec(update_spec(fresh(), data))
}

/// The encoding of a core: its state's elements, then its block counter.
pub open spec fn serialize_spec(c: CoreModel) -> Seq<u8> {
    state_bytes(c.state) + le_bytes(c.blocks, 8)
}

/// The core that `b` encodes, or why it is refused.
pub open spec fn deserialize_spec(b: Seq<u8>) -> Result<CoreModel, StateError> {
    if b.len() != SERIALIZED_STATE_SIZE {
        Err(StateError::InvalidLength)
    } else {
        let s = Seq::new(3, |i: int| le_value(b.subrange(8 * i, 8 * i + 8)));
        if exists|i: int| 0 <= i < 3 && s[i] >= MODULUS as nat {
            Err(StateError::ValueOutOfRange)
        } else {
            Ok(CoreModel { state: s, blocks: le_value(b.subrange(24, 32)) })
        }
    }
}

/// A core that the library can hold: reduced values and a 64-bit counter.
pub open spec fn core_model_wf(c: CoreModel) -> bool {
    values_wf(c.state) && c.blocks < two_pow_64()
}

/// A hasher that the library can hold: a valid core and less than a block pending.
pub open spec fn sponge_model_wf(m: SpongeModel) -> bool {
    values_wf(m.state) && m.blocks < two_pow_64() && m.pending.len() < BLOCK_SIZE
}

/// Absorbing `b` and then `x` leaves the hasher where absorbing `b + x` does.
pub proof fn lemma_absorb_append(state: Seq<nat>, blocks: nat, b: Seq<u8>, x: Seq<u8>)
    ensures
        absorb(state, blocks, b + x) == update_spec(absorb(state, blocks, b), x),
    decreases b.len(),
{
    if b.len() >= BLOCK_SIZE {
        let k = BLOCK_SIZE as int;
        assert((b + x).take(k) =~= b.take(k));
        assert((b + x).skip(k) =~= b.skip(k) + x);
        lemma_absorb_append(
            compress_spec(state, b.take(k)),
            (blocks + 1) % two_pow_64(),
            b.skip(k),
            x,
        );
    }
}

/// The encoding of `v` in `n` bytes has `n` bytes.
pub proof fn lemma_le_bytes_len(v: nat, n: nat)
    ensures
        le_bytes(v, n).len() == n,
    decreases n,
{
    if n > 0 {
        lemma_le_bytes_len(v / 256, (n - 1) as nat);
    }
}

/// Reading back the encoding of `v` in `n` bytes gives `v`, where `v` fits.
pub proof fn lemma_le_round_trip(v: nat, n: nat)
    requires
        v < pow256(n),
    ensures
        le_value(le_bytes(v, n)) == v,
    decreases n,
{
    if n > 0 {
        let rest = (n - 1) as nat;
        assert(v / 256 < pow256(rest)) by (nonlinear_arith)
            requires v < 256 * pow256(rest);
        lemma_le_round_trip(v / 256, rest);
        let e = le_bytes(v, n);
        assert(e.drop_first() =~= le_bytes(v / 256, rest));
        assert(v == v % 256 + 256 * (v / 256)) by (nonlinear_arith);
    }
}

/// Appends the `LENGTH_BYTES` bytes that encode `v`, least significant first.
fn push_u64_le(out: &mut Vec<u8>, v: u64)
    ensures
        final(out)@ == old(out)@ + le_bytes(v as nat, 8),
{
    let mut rem: u64 = v;
    let mut j: usize = 0;
    while j < LENGTH_BYTES
        invariant
            j <= 8,
            out@ + le_bytes(rem as nat, (8 - j) as nat) == old(out)@ + le_bytes(v as nat, 8),
        decreases 8 - j,
    {
        let ghost before = out@;
        let ghost n = (8 - j) as nat;
        out.push((rem % 256) as u8);
        proof {
            assert(le_bytes(rem as nat, n) == seq![(rem as nat % 256) as u8] + le_bytes(
                rem as nat / 256,
                (n - 1) as nat,
            ));
            assert(out@ + le_bytes(rem as nat / 256, (n - 1) as nat) =~= before + le_bytes(
                rem as nat,
                n,
            ));
        }
        rem = rem / 256;
        j = j + 1;
    }
    assert(out@ =~= out@ + le_bytes(rem as nat, 0));
}

/// The encoding of every element of the state, in order.
fn state_to_bytes(state: &State) -> (r: Vec<u8>)
    ensures
        r@ == state_bytes(state_view(*state)),
{
    let mut out: Vec<u8> = Vec::new();
    let mut i: usize = 0;
    while i < STATE_LEN
        invariant
            i <= 3,
            out@ == state_prefix_bytes(state_view(*state), i as int),
        decreases 3 - i,
    {
        push_u64_le(&mut out, state[i].value());
        i = i + 1;
    }
    proof {
        let sv = state_view(*state);
        reveal_with_fuel(state_prefix_bytes, 4);
        assert(Seq::<u8>::empty() + le_bytes(sv[0], 8) =~= le_bytes(sv[0], 8));
        assert(out@ =~= state_bytes(sv));
    }
    out
}

/// The block-level state of the hash: the permutation state and the number of
/// blocks absorbed so far, modulo 2^64.
#[derive(Clone, Copy, Debug)]
pub struct PoseidonCore {
    block_len: u64,
    state: State,
}

impl View for PoseidonCore {
    type V = CoreModel;

    closed spec fn view(&self) -> CoreModel {
        CoreModel { state: state_view(self.state), blocks: self.block_len as nat }
    }
}

/// A state whose values are reduced has reduced elements.
proof fn lemma_state_wf(s: State)
    ensures
        state_wf(s) <==> values_wf(state_view(s)),
{
    assert(state_view(s).len() == 3);
    if state_wf(s) {
        assert forall|i: int| 0 <= i < 3 implies #[trigger] state_view(s)[i] < MODULUS as nat by {
            assert(s[i].wf());
        }
    }
    if values_wf(state_view(s)) {
        assert forall|i: int| 0 <= i < 3 implies #[trigger] s[i].wf() by {
            assert(state_view(s)[i] == s[i]@);
        }
    }
}

/// The block counter plus one, modulo 2^64.
fn next_block_count(n: u64) -> (r: u64)
    ensures
        r as nat == (n as nat + 1) % two_pow_64(),
{
    if n == u64::MAX {
        0
    } else {
        n + 1
    }
}

impl PoseidonCore {
    /// The core holds reduced values.
    pub open spec fn wf(&self) -> bool {
        core_model_wf(self@)
    }

    /// A fresh core: the zero state, no block absorbed.
    pub fn new() -> (r: Self)
        ensures
            r@ == (CoreModel { state: zero_state(), blocks: 0 }),
            r.wf(),
    {
        let zero = FieldElement::new(0);
        let r = PoseidonCore { block_len: 0, state: [zero, zero, zero] };
        assert(r@.state =~= zero_state());
        r
    }

    /// Returns the core to the fresh state.
    pub fn reset(&mut self)
        ensures
            final(self)@ == (CoreModel { state: zero_state(), blocks: 0 }),
            final(self).wf(),
    {
        *self = PoseidonCore::new();
    }

    /// Absorbs `data`, a whole number of blocks: each block is compressed into
    /// the state in order and counted.
    pub fn update_blocks(&mut self, data: &[u8])
        requires
            old(self).wf(),
            data@.len() % (BLOCK_SIZE as nat) == 0,
        ensures
            final(self).wf(),
            absorb(old(self)@.state, old(self)@.blocks, data@) == (SpongeModel {
                state: final(self)@.state,
                blocks: final(self)@.blocks,
                pending: Seq::empty(),
            }),
    {
        let len = data.len();
        let mut i: usize = 0;
        proof {
            lemma_state_wf(self.state);
            assert(data@.skip(0) =~= data@);
        }
        while i < len
            invariant
                len == data@.len(),
                len % BLOCK_SIZE == 0,
                i <= len,
                i % BLOCK_SIZE == 0,
                self.wf(),
                state_wf(self.state),
                absorb(old(self)@.state, old(self)@.blocks, data@) == absorb(
                    self@.state,
                    self@.blocks,
                    data@.skip(i as int),
                ),
            decreases len - i,
        {
            let block = vstd::slice::slice_subrange(data, i, i + BLOCK_SIZE);
            proof {
                let rest = data@.skip(i as int);
                assert(rest.take(BLOCK_SIZE as int) =~= block@);
                assert(rest.skip(BLOCK_SIZE as int) =~= data@.skip(i + BLOCK_SIZE));
            }
            compress(&mut self.state, block);
            self.block_len = next_block_count(self.block_len);
            proof {
                lemma_state_wf(self.state);
            }
            i = i + BLOCK_SIZE;
        }
        assert(data@.skip(i as int) =~= Seq::<u8>::empty());
    }

    /// Pads `pending`, the bytes after the last whole block, compresses the
    /// padded block (or two, where the length does not fit after the pending
    /// bytes), and returns the encoding of the resulting state.
    pub fn finalize_fixed_core(&mut self, pending: &[u8]) -> (r: Vec<u8>)
        requires
            old(self).wf(),
            pending@.len() < BLOCK_SIZE,
        ensures
            final(self).wf(),
            final(self)@.blocks == old(self)@.blocks,
            final(self)@.state == padded_state(
                SpongeModel { state: old(self)@.state, blocks: old(self)@.blocks, pending: pending@ },
            ),
            r@ == finalize_spec(
                SpongeModel { state: old(self)@.state, blocks: old(self)@.blocks, pending: pending@ },
            ),
            r@.len() == OUTPUT_SIZE,
    {
        let ghost m = SpongeModel { state: self@.state, blocks: self@.blocks, pending: pending@ };
        let pos = pending.len();
        let total: u128 = 8 * (pos as u128 + BLOCK_SIZE as u128 * self.block_len as u128);
        let bit_len: u64 = (total % 0x1_0000_0000_0000_0000) as u64;
        assert(bit_len as nat == bit_length(m));
        proof {
            lemma_state_wf(self.state);
        }
        pad_and_compress(&mut self.state, pending, bit_len, Ghost(m));
        proof {
            lemma_state_wf(self.state);
        }
        let r = state_to_bytes(&self.state);
        proof {
            lemma_le_bytes_len(self@.state[0], 8);
            lemma_le_bytes_len(self@.state[1], 8);
            lemma_le_bytes_len(self@.state[2], 8);
        }
        r
    }

    /// The encoding of the core: each state element in `ELEMENT_BYTES` bytes,
    /// then the block counter in `LENGTH_BYTES` bytes, least significant first.
    /// Bytes pending in a hasher are not part of it.
    pub fn serialize(&self) -> (r: Vec<u8>)
        requires
            self.wf(),
        ensures
            r@ == serialize_spec(self@),
            r@.len() == SERIALIZED_STATE_SIZE,
    {
        let mut out = state_to_bytes(&self.state);
        push_u64_le(&mut out, self.block_len);
        proof {
            lemma_le_bytes_len(self@.state[0], 8);
            lemma_le_bytes_len(self@.state[1], 8);
            lemma_le_bytes_len(self@.state[2], 8);
            lemma_le_bytes_len(self@.blocks, 8);
        }
        out
    }

    /// The core that `bytes` encode; refused where the length is not
    /// `SERIALIZED_STATE_SIZE` or an element is not below the modulus.
    pub fn deserialize(bytes: &[u8]) -> (r: Result<Self, StateError>)
        ensures
            match r {
                Ok(c) => deserialize_spec(bytes@) == Ok::<CoreModel, StateError>(c@) && c.wf(),
                Err(e) => deserialize_spec(bytes@) == Err::<CoreModel, StateError>(e),
            },
    {
        if bytes.len() != SERIALIZED_STATE_SIZE {
            return Err(StateError::InvalidLength);
        }
        let v0 = read_u64_le(bytes, 0);
        let v1 = read_u64_le(bytes, ELEMENT_BYTES);
        let v2 = read_u64_le(bytes, 2 * ELEMENT_BYTES);
        let ghost s = Seq::new(3, |i: int| le_value(bytes@.subrange(8 * i, 8 * i + 8)));
        assert(s[0] == v0 && s[1] == v1 && s[2] == v2);
        if v0 >= MODULUS || v1 >= MODULUS || v2 >= MODULUS {
            return Err(StateError::ValueOutOfRange);
        }
        let block_len = read_u64_le(bytes, 3 * ELEMENT_BYTES);
        let state: State = [FieldElement::new(v0), FieldElement::new(v1), FieldElement::new(v2)];
        let r = PoseidonCore { block_len, state };
        assert(r@.state =~= s);
        Ok(r)
    }
}

/// The padded bytes: `pending`, the delimiter, zeros, and the `LENGTH_BYTES`
/// bytes that encode `bit_len` at the end of a block; one block where they fit
/// after the delimiter, else two.
pub open spec fn padding_bytes(pending: Seq<u8>, bit_len: nat) -> Seq<u8> {
    let pos = pending.len();
    let len = le_bytes(bit_len, LENGTH_BYTES as nat);
    if pos + 1 + LENGTH_BYTES <= BLOCK_SIZE {
        pending + seq![PADDING_DELIMITER] + zeros((BLOCK_SIZE - LENGTH_BYTES - 1 - pos) as nat)
            + len
    } else {
        pending + seq![PADDING_DELIMITER] + zeros((BLOCK_SIZE - 1 - pos) as nat) + zeros(
            (BLOCK_SIZE - LENGTH_BYTES) as nat,
        ) + len
    }
}

/// Relies on `BlockBuffer::len64_padding_le` of block-buffer (through digest),
/// on an eager 64-byte buffer holding `pending`: it writes 0x80 after the
/// pending bytes, fills with zeros, and puts `bit_len` in little-endian order in
/// the last eight bytes; where fewer than eight bytes follow the 0x80, that block
/// is handed out first and a zeroed block takes the length. The blocks handed to
/// the callback are returned one after the other.
#[verifier::external_body]
fn len64_padding_le(pending: &[u8], bit_len: u64) -> (r: Vec<u8>)
    requires
        pending@.len() < BLOCK_SIZE,
    ensures
        r@ == padding_bytes(pending@, bit_len as nat),
{
    let mut buffer =
        digest::block_buffer::BlockBuffer::<digest::consts::U64, digest::block_buffer::Eager>::new(
        pending,
    );
    let mut out: Vec<u8> = Vec::new();
    buffer.len64_padding_le(bit_len, |block| out.extend_from_slice(block.as_slice()));
    out
}

/// Pads `pending` with the bit length `bit_len` and compresses the padded
/// block or blocks into the state.
fn pad_and_compress(state: &mut State, pending: &[u8], bit_len: u64, Ghost(m): Ghost<SpongeModel>)
    requires
        state_wf(*old(state)),
        pending@.len() < BLOCK_SIZE,
        m.state == state_view(*old(state)),
        m.pending == pending@,
        bit_len as nat == bit_length(m),
    ensures
        state_wf(*final(state)),
        state_view(*final(state)) == padded_state(m),
{
    let pos = pending.len();
    let ghost len = le_bytes(bit_len as nat, LENGTH_BYTES as nat);
    proof {
        lemma_le_bytes_len(bit_len as nat, 8);
    }
    let padded = len64_padding_le(pending, bit_len);
    if pos + 1 + LENGTH_BYTES <= BLOCK_SIZE {
        compress(state, padded.as_slice());
    } else {
        let ghost first = pending@ + seq![PADDING_DELIMITER] + zeros((BLOCK_SIZE - 1 - pos) as nat);
        let ghost second = zeros((BLOCK_SIZE - LENGTH_BYTES) as nat) + len;
        assert(padded@ =~= first + second);
        let all = padded.as_slice();
        let block = vstd::slice::slice_subrange(all, 0, BLOCK_SIZE);
        assert(block@ =~= first);
        compress(state, block);
        let block = vstd::slice::slice_subrange(all, BLOCK_SIZE, 2 * BLOCK_SIZE);
        assert(block@ =~= second);
        compress(state, block);
    }
}

impl Default for PoseidonCore {
    fn default() -> (r: Self)
        ensures
            r@ == (CoreModel { state: zero_state(), blocks: 0 }),
            r.wf(),
    {
        PoseidonCore::new()
    }
}

/// The encoding of the first `i` elements of the state.
spec fn state_prefix_bytes(s: Seq<nat>, i: int) -> Seq<u8>
    decreases i,
{
    if i <= 0 {
        Seq::empty()
    } else {
        state_prefix_bytes(s, i - 1) + le_bytes(s[i - 1], 8)
    }
}

} // verus!
