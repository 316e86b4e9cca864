use vstd::prelude::*;

verus! {

/// The fixed serialization of an aggregator value: the sixteen little-endian
/// bytes of the `u128`. Every place a delta value is stored or read uses this
/// one encoding.
pub open spec fn u128_le_bytes(v: u128) -> Seq<u8> {
    Seq::new(16, |i: int| (v >> ((8 * i) as u128)) as u8)
}

/// The value a sixteen-byte payload stands for: the unique `u128` whose
/// encoding it is.
pub open spec fn spec_decode_u128(s: Seq<u8>) -> u128 {
    choose|v: u128| u128_le_bytes(v) == s
}

/// Two distinct values never share an encoding.
pub proof fn lemma_le_bytes_injective(v: u128, w: u128)
    requires
        u128_le_bytes(v) == u128_le_bytes(w),
    ensures
        v == w,
{
    let s1 = u128_le_bytes(v);
    let s2 = u128_le_bytes(w);
    assert(s1[0] == s2[0]);
    assert(s1[1] == s2[1]);
    assert(s1[2] == s2[2]);
    assert(s1[3] == s2[3]);
    assert(s1[4] == s2[4]);
    assert(s1[5] == s2[5]);
    assert(s1[6] == s2[6]);
    assert(s1[7] == s2[7]);
    assert(s1[8] == s2[8]);
    assert(s1[9] == s2[9]);
    assert(s1[10] == s2[10]);
    assert(s1[11] == s2[11]);
    assert(s1[12] == s2[12]);
    assert(s1[13] == s2[13]);
    assert(s1[14] == s2[14]);
    assert(s1[15] == s2[15]);
    assert(v == w) by (bit_vector)
        requires
            (v >> 0u128) as u8 == (w >> 0u128) as u8,
            (v >> 8u128) as u8 == (w >> 8u128) as u8,
            (v >> 16u128) as u8 == (w >> 16u128) as u8,
            (v >> 24u128) as u8 == (w >> 24u128) as u8,
            (v >> 32u128) as u8 == (w >> 32u128) as u8,
            (v >> 40u128) as u8 == (w >> 40u128) as u8,
            (v >> 48u128) as u8 == (w >> 48u128) as u8,
            (v >> 56u128) as u8 == (w >> 56u128) as u8,
            (v >> 64u128) as u8 == (w >> 64u128) as u8,
            (v >> 72u128) as u8 == (w >> 72u128) as u8,
            (v >> 80u128) as u8 == (w >> 80u128) as u8,
            (v >> 88u128) as u8 == (w >> 88u128) as u8,
            (v >> 96u128) as u8 == (w >> 96u128) as u8,
            (v >> 104u128) as u8 == (w >> 104u128) as u8,
            (v >> 112u128) as u8 == (w >> 112u128) as u8,
            (v >> 120u128) as u8 == (w >> 120u128) as u8,
    ;
}

/// A payload equal to some value's encoding decodes to exactly that value.
pub proof fn lemma_decode_of_encoding(v: u128, s: Seq<u8>)
    requires
        u128_le_bytes(v) == s,
    ensures
        spec_decode_u128(s) == v,
{
    let w = choose|w: u128| u128_le_bytes(w) == s;
    assert(u128_le_bytes(v) == s);
    lemma_le_bytes_injective(v, w);
}

/// Relies on bcs::to_bytes::<u128>: a u128 serializes to its sixteen
/// little-endian bytes, and serialization of an integer never fails.
#[verifier::external_body]
pub(crate) fn serialize_u128(v: u128) -> (r: Vec<u8>)
    ensures
        r@ == u128_le_bytes(v),
{
    bcs::to_bytes(&v).expect("serializing a u128 cannot fail")
}

/// Relies on bcs::from_bytes::<u128>: it succeeds exactly on sixteen-byte
/// input, returning the u128 whose little-endian encoding that input is, and
/// fails on shorter input (end of input) or longer input (remaining input).
#[verifier::external_body]
pub(crate) fn deserialize_u128(bytes: &Vec<u8>) -> (r: Option<u128>)
    ensures
        match r {
            Some(v) => bytes@.len() == 16 && u128_le_bytes(v) == bytes@,
            None => bytes@.len() != 16,
        },
{
    bcs::from_bytes::<u128>(bytes.as_slice()).ok()
}

} // verus!
