use poseidon::block_api::{PoseidonCore, StateError};
use poseidon::compress::{compress, poseidon_permutation};
use poseidon::field::{FieldElement, MODULUS};
use poseidon::Poseidon;

fn hash(data: &[u8]) -> Vec<u8> {
    let mut h = Poseidon::new();
    h.update(data);
    h.finalize()
}

fn zero_state() -> [FieldElement; 3] {
    [FieldElement::new(0), FieldElement::new(0), FieldElement::new(0)]
}

#[test]
fn field_new_reduces() {
    assert_eq!(FieldElement::new(5).value(), 5);
    assert_eq!(FieldElement::new(MODULUS).value(), 0);
    assert_eq!(FieldElement::new(u64::MAX).value(), 58);
}

#[test]
fn field_add_wraps_at_modulus() {
    let a = FieldElement::new(MODULUS - 1);
    assert_eq!(a.add(FieldElement::new(2)).value(), 1);
    assert_eq!(FieldElement::new(3).add(FieldElement::new(4)).value(), 7);
}

#[test]
fn field_sub_wraps_below_zero() {
    let r = FieldElement::new(0).sub(FieldElement::new(1));
    assert_eq!(r.value(), MODULUS - 1);
    assert_eq!(FieldElement::new(9).sub(FieldElement::new(4)).value(), 5);
}

#[test]
fn field_mul_reduces() {
    let m = FieldElement::new(MODULUS - 1);
    assert_eq!(m.mul(m).value(), 1);
    assert_eq!(FieldElement::new(6).mul(FieldElement::new(7)).value(), 42);
}

#[test]
fn field_sbox_is_fifth_power() {
    assert_eq!(FieldElement::new(2).sbox().value(), 32);
    assert_eq!(FieldElement::new(3).sbox().value(), 243);
    assert_eq!(FieldElement::new(MODULUS - 1).sbox().value(), MODULUS - 1);
    assert_eq!(FieldElement::new(0).sbox().value(), 0);
}

#[test]
fn field_inverse_sbox_simplified() {
    assert_eq!(FieldElement::new(0).inverse_sbox().value(), 0);
    assert_eq!(FieldElement::new(12345).inverse_sbox().value(), 1);
}

#[test]
fn permutation_changes_zero_state_deterministically() {
    let mut a = zero_state();
    let mut b = zero_state();
    poseidon_permutation(&mut a);
    poseidon_permutation(&mut b);
    assert_eq!(a, b);
    assert_ne!(a, zero_state());
}

#[test]
fn compress_adds_block_words_then_permutes() {
    let mut block = [0u8; 64];
    block[0] = 1;
    block[8] = 2;
    block[16] = 3;
    let mut state = zero_state();
    compress(&mut state, &block);
    let mut expected = [FieldElement::new(1), FieldElement::new(2), FieldElement::new(3)];
    poseidon_permutation(&mut expected);
    assert_eq!(state, expected);
}

#[test]
fn compress_ignores_bytes_after_the_element_words() {
    let mut state1 = zero_state();
    let mut state2 = zero_state();
    let block1 = [0u8; 64];
    let mut block2 = [0u8; 64];
    block2[40] = 0xAB;
    compress(&mut state1, &block1);
    compress(&mut state2, &block2);
    assert_eq!(state1, state2);
}

#[test]
fn chunking_across_block_boundary() {
    let data: Vec<u8> = (0..200u32).map(|i| (i * 7 % 251) as u8).collect();
    let whole = hash(&data);
    for split in [0usize, 1, 63, 64, 65, 127, 128, 199, 200] {
        let mut h = Poseidon::new();
        h.update(&data[..split]);
        h.update(&data[split..]);
        assert_eq!(h.finalize(), whole, "split at {}", split);
    }
}

#[test]
fn chunking_hello_poseidon() {
    let mut h = Poseidon::new();
    h.update(b"Hello, ");
    h.update(b"Poseidon!");
    assert_eq!(h.finalize(), hash(b"Hello, Poseidon!"));
}

#[test]
fn digest_size_fixed_for_all_lengths() {
    for len in [0usize, 1, 55, 56, 57, 63, 64, 65, 1000] {
        assert_eq!(hash(&vec![0x5Au8; len]).len(), 24);
    }
}

#[test]
fn distinct_inputs_give_distinct_digests() {
    assert_ne!(hash(b"Hello"), hash(b"World"));
    assert_ne!(hash(b""), hash(b"\0"));
}

#[test]
fn reset_behaves_as_fresh() {
    let mut h = Poseidon::new();
    h.update(&[7u8; 150]);
    h.reset();
    h.update(b"abc");
    assert_eq!(h.finalize(), hash(b"abc"));
}

#[test]
fn large_zero_input_is_deterministic() {
    let data = vec![0u8; 10000];
    let a = hash(&data);
    let b = hash(&data);
    assert_eq!(a, b);
    assert_eq!(a.len(), 24);
}

#[test]
fn state_round_trip_resumes_the_hash() {
    let data: Vec<u8> = (0..300u32).map(|i| (i % 256) as u8).collect();
    let mut h = Poseidon::new();
    h.update(&data[..128]);
    let bytes = h.serialize();
    assert_eq!(bytes.len(), 32);
    let mut resumed = Poseidon::deserialize(&bytes).unwrap();
    assert_eq!(resumed.serialize(), bytes);
    resumed.update(&data[128..]);
    assert_eq!(resumed.finalize(), hash(&data));
}

#[test]
fn core_serialize_layout() {
    let mut core = PoseidonCore::new();
    let fresh = core.serialize();
    assert_eq!(fresh, vec![0u8; 32]);
    core.update_blocks(&[1u8; 128]);
    let bytes = core.serialize();
    assert_eq!(&bytes[24..], &[2u8, 0, 0, 0, 0, 0, 0, 0]);
    let back = PoseidonCore::deserialize(&bytes).unwrap();
    assert_eq!(back.serialize(), bytes);
}

#[test]
fn deserialize_rejects_wrong_length() {
    assert_eq!(PoseidonCore::deserialize(&[0u8; 31]).err(), Some(StateError::InvalidLength));
    assert_eq!(PoseidonCore::deserialize(&[0u8; 33]).err(), Some(StateError::InvalidLength));
    assert!(matches!(Poseidon::deserialize(&[]), Err(StateError::InvalidLength)));
}

#[test]
fn deserialize_rejects_unreduced_element() {
    let mut bytes = vec![0u8; 32];
    bytes[8..16].copy_from_slice(&MODULUS.to_le_bytes());
    assert_eq!(PoseidonCore::deserialize(&bytes).err(), Some(StateError::ValueOutOfRange));
    bytes[8..16].copy_from_slice(&(MODULUS - 1).to_le_bytes());
    assert!(PoseidonCore::deserialize(&bytes).is_ok());
}

#[test]
fn finalize_core_matches_hasher() {
    let data = [3u8; 70];
    let mut core = PoseidonCore::new();
    core.update_blocks(&data[..64]);
    let digest = core.finalize_fixed_core(&data[64..]);
    assert_eq!(digest, hash(&data));
}

#[test]
fn padding_with_length_in_its_own_block() {
    // 60 pending bytes leave no room for the length in the same block, so a
    // second block is compressed; 30 pending bytes take one.
    let a = hash(&[1u8; 60]);
    let b = hash(&[1u8; 30]);
    assert_eq!(a.len(), 24);
    assert_ne!(a, b);
}

fn state_to_bytes(state: &[FieldElement; 3]) -> Vec<u8> {
    let mut out = Vec::new();
    for e in state.iter() {
        out.extend_from_slice(&e.value().to_le_bytes());
    }
    out
}

#[test]
fn padding_matches_manual_block() {
    let mut block = [0u8; 64];
    block[0] = 0x80;
    let mut state = zero_state();
    compress(&mut state, &block);
    assert_eq!(hash(b""), state_to_bytes(&state));

    let mut block = [0u8; 64];
    block[..3].copy_from_slice(b"abc");
    block[3] = 0x80;
    block[56..].copy_from_slice(&24u64.to_le_bytes());
    let mut state = zero_state();
    compress(&mut state, &block);
    assert_eq!(hash(b"abc"), state_to_bytes(&state));
}

#[test]
fn padding_in_two_blocks_matches_manual_blocks() {
    let data = [9u8; 60];
    let mut first = [0u8; 64];
    first[..60].copy_from_slice(&data);
    first[60] = 0x80;
    let mut second = [0u8; 64];
    second[56..].copy_from_slice(&480u64.to_le_bytes());
    let mut state = zero_state();
    compress(&mut state, &first);
    compress(&mut state, &second);
    assert_eq!(hash(&data), state_to_bytes(&state));
}

#[test]
fn core_reset_and_default_are_fresh() {
    let mut core = PoseidonCore::default();
    core.update_blocks(&[5u8; 64]);
    core.reset();
    assert_eq!(core.serialize(), PoseidonCore::new().serialize());
}
