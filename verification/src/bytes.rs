//! Little-endian encoding of unsigned integers.

use vstd::prelude::*;

verus! {

/// `v` with its `i` least significant bytes dropped.
pub open spec fn drop_low_bytes(v: nat, i: nat) -> nat
    decreases i,
{
    if i == 0 {
        v
    } else {
        drop_low_bytes(v, (i - 1) as nat) / 256
    }
}

/// The byte of weight `256^i` in the base-256 expansion of `v`.
pub open spec fn byte_at(v: nat, i: nat) -> u8 {
    (drop_low_bytes(v, i) % 256) as u8
}

/// The `n` least significant bytes of `v`, least significant first.
pub open spec fn le_bytes(v: nat, n: nat) -> Seq<u8> {
    Seq::new(n, |i: int| byte_at(v, i as nat))
}

/// The number that a little-endian byte string stands for.
pub open spec fn le_value(bytes: Seq<u8>) -> nat
    decreases bytes.len(),
{
    if bytes.len() == 0 {
        0
    } else {
        bytes[0] as nat + 256 * le_value(bytes.drop_first())
    }
}

/// Splits a value into its two bytes, least significant first.
pub fn u16_to_bytes_little_endian(value: u16) -> (a: [u8; 2])
    ensures
        a@ == le_bytes(value as nat, 2),
{
    let ghost orig: nat = value as nat;
    let mut a: [u8; 2] = [0; 2];
    let mut value = value;
    for i in 0..2usize
        invariant
            value as nat == drop_low_bytes(orig, i as nat),
            forall|j: int| 0 <= j < i ==> a@[j] == byte_at(orig, j as nat),
    {
        proof {
            assert((value & 0xFF) == value % 256) by (bit_vector);
            assert((value >> 8) == value / 256) by (bit_vector);
        }
        a[i] = (value & 0xFF) as u8;
        value = value >> 8
    }
    assert(a@ =~= le_bytes(orig, 2));
    return a;
}

/// Splits a value into its four bytes, least significant first.
pub fn u32_to_bytes_little_endian(value: u32) -> (a: [u8; 4])
    ensures
        a@ == le_bytes(value as nat, 4),
{
    let ghost orig: nat = value as nat;
    let mut a: [u8; 4] = [0; 4];
    let mut value = value;
    for i in 0..4usize
        invariant
            value as nat == drop_low_bytes(orig, i as nat),
            forall|j: int| 0 <= j < i ==> a@[j] == byte_at(orig, j as nat),
    {
        proof {
            assert((value & 0xFF) == value % 256) by (bit_vector);
            assert((value >> 8) == value / 256) by (bit_vector);
        }
        a[i] = (value & 0xFF) as u8;
        value = value >> 8
    }
    assert(a@ =~= le_bytes(orig, 4));
    return a;
}

/// The bytes that stand for `v` hold, one by one, `v`'s base-256 digits.
pub proof fn lemma_le_bytes_u16(v: u16)
    ensures
        le_bytes(v as nat, 2) == seq![(v % 256) as u8, (v / 256) as u8],
{
    reveal_with_fuel(drop_low_bytes, 3);
    assert(le_bytes(v as nat, 2) =~= seq![(v % 256) as u8, (v / 256) as u8]);
}

/// The bytes that stand for `v` hold, one by one, `v`'s base-256 digits.
pub proof fn lemma_le_bytes_u32(v: u32)
    ensures
        le_bytes(v as nat, 4) == seq![
            (v % 256) as u8,
            ((v / 256) % 256) as u8,
            ((v / 65536) % 256) as u8,
            (v / 16777216) as u8,
        ],
{
    reveal_with_fuel(drop_low_bytes, 5);
    assert(le_bytes(v as nat, 4) =~= seq![
        (v % 256) as u8,
        ((v / 256) % 256) as u8,
        ((v / 65536) % 256) as u8,
        (v / 16777216) as u8,
    ]);
}

/// Decoding the two bytes of a value gives the value back.
pub proof fn lemma_le_round_trip_u16(v: u16)
    ensures
        le_value(le_bytes(v as nat, 2)) == v,
{
    lemma_le_bytes_u16(v);
    let s = le_bytes(v as nat, 2);
    reveal_with_fuel(le_value, 3);
    assert(s.drop_first() =~= seq![(v / 256) as u8]);
    assert(s.drop_first().drop_first() =~= Seq::<u8>::empty());
}

/// Decoding the four bytes of a value gives the value back.
pub proof fn lemma_le_round_trip_u32(v: u32)
    ensures
        le_value(le_bytes(v as nat, 4)) == v,
{
    lemma_le_bytes_u32(v);
    let s = le_bytes(v as nat, 4);
    let s1 = s.drop_first();
    let s2 = s1.drop_first();
    let s3 = s2.drop_first();
    reveal_with_fuel(le_value, 5);
    assert(s1 =~= seq![((v / 256) % 256) as u8, ((v / 65536) % 256) as u8, (v / 16777216) as u8]);
    assert(s2 =~= seq![((v / 65536) % 256) as u8, (v / 16777216) as u8]);
    assert(s3 =~= seq![(v / 16777216) as u8]);
    assert(s3.drop_first() =~= Seq::<u8>::empty());
}

} // verus!
