//! The byte-level hasher: absorbs bytes in any number of calls, then pads and
//! returns the digest.

use vstd::prelude::*;
use crate::compress::{BLOCK_SIZE, le_value, lemma_pow256_eight};
use crate::block_api::{
    CoreModel, OUTPUT_SIZE, PoseidonCore, SpongeModel, StateError,
    core_model_wf, deserialize_spec, finalize_spec, fresh, hash_spec, lemma_absorb_append,
    serialize_spec, sponge_model_wf, reset_spec, update_spec, le_bytes, lemma_le_bytes_len,
    lemma_le_round_trip,
};

verus! {

/// The Poseidon hasher: a block-level core and the bytes of a block not yet
/// complete.
#[derive(Clone, Debug)]
pub struct Poseidon {
    core: PoseidonCore,
    buffer: Vec<u8>,
}

impl View for Poseidon {
    type V = SpongeModel;

    closed spec fn view(&self) -> SpongeModel {
        SpongeModel { state: self.core@.state, blocks: self.core@.blocks, pending: self.buffer@ }
    }
}

impl Poseidon {
    /// The hasher holds a valid core and less than a block of pending bytes.
    pub closed spec fn wf(&self) -> bool {
        self.core.wf() && self.buffer@.len() < BLOCK_SIZE
    }

    /// A fresh hasher.
    pub fn new() -> (r: Self)
        ensures
            r@ == fresh(),
            r.wf(),
    {
        let r = Poseidon { core: PoseidonCore::new(), buffer: Vec::new() };
        assert(r@.state == fresh().state);
        r
    }

    /// Absorbs `data` after everything absorbed so far.
    pub fn update(&mut self, data: &[u8])
        requires
            old(self).wf(),
        ensures
            final(self).wf(),
            final(self)@ == update_spec(old(self)@, data@),
    {
        let len = data.len();
        let mut i: usize = 0;
        proof {
            assert(old(self)@.pending + data@.take(0) =~= old(self)@.pending);
            assert(old(self)@.pending.len() < BLOCK_SIZE);
        }
        while i < len
            invariant
                len == data@.len(),
                i <= len,
                self.wf(),
                self@ == update_spec(old(self)@, data@.take(i as int)),
            decreases len - i,
        {
            let ghost cur = self@;
            let b = data[i];
            self.buffer.push(b);
            assert(self.buffer@ =~= cur.pending + seq![b]);
            if self.buffer.len() == BLOCK_SIZE {
                self.core.update_blocks(self.buffer.as_slice());
                self.buffer = Vec::new();
            }
            proof {
                let o = old(self)@;
                lemma_absorb_append(o.state, o.blocks, o.pending + data@.take(i as int), seq![b]);
                assert(o.pending + data@.take(i + 1) =~= o.pending + data@.take(i as int) + seq![b]);
                let joined = cur.pending + seq![b];
                if joined.len() == BLOCK_SIZE {
                    assert(joined.skip(BLOCK_SIZE as int) =~= Seq::<u8>::empty());
                    assert(joined.take(BLOCK_SIZE as int) =~= joined);
                }
            }
            i = i + 1;
        }
        assert(data@.take(len as int) =~= data@);
    }

    /// Pads what is pending and returns the digest of everything absorbed.
    pub fn finalize(self) -> (r: Vec<u8>)
        requires
            self.wf(),
        ensures
            r@ == finalize_spec(self@),
            r@.len() == OUTPUT_SIZE,
    {
        let mut core = self.core;
        core.finalize_fixed_core(self.buffer.as_slice())
    }

    /// Returns the hasher to the fresh state, discarding everything absorbed.
    pub fn reset(&mut self)
        ensures
            final(self).wf(),
            final(self)@ == reset_spec(old(self)@),
    {
        *self = Poseidon::new();
    }

    /// The encoding of the hasher's core (see `PoseidonCore::serialize`).
    /// Pending bytes are not part of it: the encoding resumes a hash exactly
    /// where nothing is pending.
    pub fn serialize(&self) -> (r: Vec<u8>)
        requires
            self.wf(),
        ensures
            r@ == serialize_spec(CoreModel { state: self@.state, blocks: self@.blocks }),
    {
        self.core.serialize()
    }

    /// A hasher that resumes from an encoded core, with nothing pending.
    pub fn deserialize(bytes: &[u8]) -> (r: Result<Self, StateError>)
        ensures
            match r {
                Ok(h) => h.wf() && deserialize_spec(bytes@) == Ok::<CoreModel, StateError>(
                    CoreModel { state: h@.state, blocks: h@.blocks },
                ) && h@.pending.len() == 0,
                Err(e) => deserialize_spec(bytes@) == Err::<CoreModel, StateError>(e),
            },
    {
        match PoseidonCore::deserialize(bytes) {
            Ok(core) => Ok(Poseidon { core, buffer: Vec::new() }),
            Err(e) => Err(e),
        }
    }
}

/// Hashing the same bytes twice from a fresh hasher gives the same digest.
pub proof fn lemma_deterministic(x: Seq<u8>)
    ensures
        finalize_spec(update_spec(fresh(), x)) == finalize_spec(update_spec(fresh(), x)),
        hash_spec(x) == finalize_spec(update_spec(fresh(), x)),
{
}

/// How the bytes are split between calls of `update` does not change the digest.
pub proof fn lemma_chunk_invariance(x1: Seq<u8>, x2: Seq<u8>)
    ensures
        update_spec(update_spec(fresh(), x1), x2) == update_spec(fresh(), x1 + x2),
        finalize_spec(update_spec(update_spec(fresh(), x1), x2)) == hash_spec(x1 + x2),
{
    lemma_update_append(fresh(), x1, x2);
}

/// Absorbing `x1` and then `x2` is absorbing `x1 + x2`, from any hasher state.
pub proof fn lemma_update_append(m: SpongeModel, x1: Seq<u8>, x2: Seq<u8>)
    ensures
        update_spec(update_spec(m, x1), x2) == update_spec(m, x1 + x2),
{
    lemma_absorb_append(m.state, m.blocks, m.pending + x1, x2);
    assert(m.pending + x1 + x2 =~= m.pending + (x1 + x2));
}

/// Decoding the encoding of a core gives the core back, so a hash suspended
/// where nothing is pending and resumed from its encoding gives the digest of
/// the uninterrupted hash, whatever bytes follow.
pub proof fn lemma_state_round_trip(c: CoreModel, rest: Seq<u8>)
    requires
        core_model_wf(c),
    ensures
        deserialize_spec(serialize_spec(c)) == Ok::<CoreModel, StateError>(c),
        finalize_spec(update_spec(resumed(serialize_spec(c)), rest)) == finalize_spec(
            update_spec(SpongeModel { state: c.state, blocks: c.blocks, pending: Seq::empty() }, rest),
        ),
{
    let b = serialize_spec(c);
    lemma_pow256_eight();
    let l0 = le_bytes(c.state[0], 8);
    let l1 = le_bytes(c.state[1], 8);
    let l2 = le_bytes(c.state[2], 8);
    let l3 = le_bytes(c.blocks, 8);
    lemma_le_bytes_len(c.state[0], 8);
    lemma_le_bytes_len(c.state[1], 8);
    lemma_le_bytes_len(c.state[2], 8);
    lemma_le_bytes_len(c.blocks, 8);
    lemma_le_round_trip(c.state[0], 8);
    lemma_le_round_trip(c.state[1], 8);
    lemma_le_round_trip(c.state[2], 8);
    lemma_le_round_trip(c.blocks, 8);
    assert(b.subrange(0, 8) =~= l0);
    assert(b.subrange(8, 16) =~= l1);
    assert(b.subrange(16, 24) =~= l2);
    assert(b.subrange(24, 32) =~= l3);
    let s = Seq::new(3, |i: int| le_value(b.subrange(8 * i, 8 * i + 8)));
    assert(s[0] == c.state[0] && s[1] == c.state[1] && s[2] == c.state[2]);
    assert(s =~= c.state);
}

/// The hasher that resumes from an encoded core, with nothing pending (the
/// fresh hasher where the encoding is refused).
pub open spec fn resumed(b: Seq<u8>) -> SpongeModel {
    match deserialize_spec(b) {
        Ok(c) => SpongeModel { state: c.state, blocks: c.blocks, pending: Seq::empty() },
        Err(_) => fresh(),
    }
}

/// A hasher that was reset hashes as a fresh one does.
pub proof fn lemma_reset_equivalence(used: SpongeModel, x: Seq<u8>)
    requires
        sponge_model_wf(used),
    ensures
        finalize_spec(update_spec(reset_spec(used), x)) == hash_spec(x),
{
}

} // verus!
