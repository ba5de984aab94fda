//! The 24-byte form in which a spending record is kept on the ledger.
//!
//! Bytes 0..8 hold `last_reset_time` and bytes 8..24 hold `accumulated_amount`
//! in two's complement, both big-endian.

use vstd::prelude::*;

verus! {

/// The host environment that byte strings live in. Opaque.
#[verifier::external_type_specification]
#[verifier::external_body]
pub struct ExHostEnv(soroban_sdk::Env);

/// A host byte string of fixed length. Opaque: [`packed_bytes`] names what it holds.
#[verifier::external_type_specification]
#[verifier::external_body]
pub struct ExBytesN<const N: usize>(soroban_sdk::BytesN<N>);

/// The bytes that a host byte string holds, first byte first.
pub uninterp spec fn packed_bytes(packed: soroban_sdk::BytesN<24>) -> Seq<u8>;

/// Calls `soroban_sdk::BytesN::from_array`, which makes a host byte string that
/// holds the bytes of the array, in order.
#[verifier::external_body]
fn bytes_from_array(env: &soroban_sdk::Env, buf: &[u8; 24]) -> (packed: soroban_sdk::BytesN<24>)
    ensures
        packed_bytes(packed) == buf@,
{
    soroban_sdk::BytesN::from_array(env, buf)
}

/// Calls `soroban_sdk::BytesN::to_array`, which copies the bytes that a host
/// byte string holds into an array, in order.
#[verifier::external_body]
fn bytes_to_array(packed: &soroban_sdk::BytesN<24>) -> (buf: [u8; 24])
    ensures
        buf@ == packed_bytes(*packed),
{
    packed.to_array()
}

/// The number that a string of bytes spells, most significant byte first.
pub open spec fn be_value(bytes: Seq<u8>) -> nat
    decreases bytes.len(),
{
    if bytes.len() == 0 {
        0
    } else {
        be_value(bytes.drop_last()) * 256 + bytes.last() as nat
    }
}

/// The unsigned 128-bit number with the same bits as `amount`.
pub open spec fn twos_complement(amount: i128) -> int {
    if amount >= 0 {
        amount as int
    } else {
        amount + u128::MAX + 1
    }
}

/// Whether `bytes` is the 24-byte form of the record `(last_reset_time, accumulated_amount)`.
pub open spec fn packs(bytes: Seq<u8>, last_reset_time: u64, accumulated_amount: i128) -> bool {
    &&& bytes.len() == 24
    &&& be_value(bytes.subrange(0, 8)) == last_reset_time
    &&& be_value(bytes.subrange(8, 24)) == twos_complement(accumulated_amount)
}

/// `256` to the power of `n`.
spec fn pow256(n: nat) -> nat
    decreases n,
{
    if n == 0 {
        1
    } else {
        256 * pow256((n - 1) as nat)
    }
}

proof fn lemma_pow256()
    ensures
        pow256(8) == u64::MAX + 1,
        pow256(16) == u128::MAX + 1,
{
    reveal_with_fuel(pow256, 17);
}

/// `n` bytes spell a number below `256` to the power of `n`.
proof fn lemma_be_value_bound(bytes: Seq<u8>)
    ensures
        be_value(bytes) < pow256(bytes.len()),
    decreases bytes.len(),
{
    if bytes.len() > 0 {
        lemma_be_value_bound(bytes.drop_last());
    }
}

/// Byte strings of one length that spell the same number are the same.
proof fn lemma_be_value_injective(a: Seq<u8>, b: Seq<u8>)
    requires
        a.len() == b.len(),
        be_value(a) == be_value(b),
    ensures
        a == b,
    decreases a.len(),
{
    if a.len() > 0 {
        lemma_be_value_injective(a.drop_last(), b.drop_last());
        assert(a =~= a.drop_last().push(a.last()));
        assert(b =~= b.drop_last().push(b.last()));
    }
    assert(a =~= b);
}

/// Writes `value` into `buf[start..end]`, most significant byte first.
fn write_be(buf: &mut [u8; 24], start: usize, end: usize, value: u128)
    requires
        start <= end <= 24,
        value < pow256((end - start) as nat),
    ensures
        be_value(final(buf)@.subrange(start as int, end as int)) == value,
        forall|i: int| 0 <= i < start || end <= i < 24 ==> final(buf)@[i] == old(buf)@[i],
{
    let mut rest: u128 = value;
    let mut at: usize = end;
    let ghost mut scale: nat = 1;
    while at > start
        invariant
            start <= at <= end <= 24,
            rest < pow256((at - start) as nat),
            scale == pow256((end - at) as nat),
            value == rest * scale + be_value(buf@.subrange(at as int, end as int)),
            forall|i: int| 0 <= i < at || end <= i < 24 ==> buf@[i] == old(buf)@[i],
        decreases at,
    {
        let ghost before = buf@;
        let ghost tail = buf@.subrange(at as int, end as int);
        let digit: u8 = (rest % 256) as u8;
        at = at - 1;
        buf[at] = digit;
        proof {
            assert(buf@.subrange(at as int, end as int) =~= seq![digit] + tail);
            lemma_be_value_prepend(digit, tail);
            let high = rest / 256;
            assert(rest == high * 256 + digit);
            assert(rest * scale == high * (256 * scale) + digit * scale) by (nonlinear_arith)
                requires
                    rest == high * 256 + digit,
            ;
            scale = 256 * scale;
        }
        rest = rest / 256;
    }
    assert(rest * scale == 0) by (nonlinear_arith)
        requires
            rest == 0,
    ;
}

/// A byte in front adds its weight.
proof fn lemma_be_value_prepend(digit: u8, tail: Seq<u8>)
    ensures
        be_value(seq![digit] + tail) == digit * pow256(tail.len()) + be_value(tail),
    decreases tail.len(),
{
    let all = seq![digit] + tail;
    if tail.len() == 0 {
        reveal_with_fuel(be_value, 2);
        assert(all.last() == digit);
        assert(pow256(tail.len()) == 1);
    } else {
        assert(all.drop_last() =~= seq![digit] + tail.drop_last());
        lemma_be_value_prepend(digit, tail.drop_last());
        assert(all.last() == tail.last());
        let p = pow256((tail.len() - 1) as nat);
        assert((digit * p + be_value(tail.drop_last())) * 256 == digit * (256 * p) + be_value(
            tail.drop_last(),
        ) * 256) by (nonlinear_arith);
    }
}

/// Reads `buf[start..end]`, most significant byte first.
fn read_be(buf: &[u8; 24], start: usize, end: usize) -> (value: u128)
    requires
        start <= end <= 24,
        end - start <= 16,
    ensures
        value == be_value(buf@.subrange(start as int, end as int)),
{
    let mut value: u128 = 0;
    let mut at: usize = start;
    assert(buf@.subrange(start as int, start as int) =~= Seq::empty());
    while at < end
        invariant
            start <= at <= end <= 24,
            end - start <= 16,
            value == be_value(buf@.subrange(start as int, at as int)),
        decreases end - at,
    {
        proof {
            let next = buf@.subrange(start as int, at + 1);
            assert(next.drop_last() =~= buf@.subrange(start as int, at as int));
            lemma_be_value_bound(next);
            lemma_pow256_monotone(next.len(), 16);
            lemma_pow256();
        }
        value = value * 256 + buf[at] as u128;
        at = at + 1;
    }
    value
}

proof fn lemma_pow256_monotone(a: nat, b: nat)
    requires
        a <= b,
    ensures
        pow256(a) <= pow256(b),
    decreases b,
{
    if a < b {
        lemma_pow256_monotone(a, (b - 1) as nat);
    }
}

/// Pack `last_reset_time` and `accumulated_amount` into a 24-byte big-endian buffer.
pub fn pack_spending(
    env: &soroban_sdk::Env,
    last_reset_time: u64,
    accumulated_amount: i128,
) -> (packed: soroban_sdk::BytesN<24>)
    ensures
        packs(packed_bytes(packed), last_reset_time, accumulated_amount),
{
    proof {
        lemma_pow256();
    }
    let bits: u128 = if accumulated_amount >= 0 {
        accumulated_amount as u128
    } else {
        u128::MAX - (-(accumulated_amount + 1)) as u128
    };
    let mut buf: [u8; 24] = [0u8; 24];
    write_be(&mut buf, 0, 8, last_reset_time as u128);
    let ghost times = buf@.subrange(0, 8);
    write_be(&mut buf, 8, 24, bits);
    assert(buf@.subrange(0, 8) =~= times);
    bytes_from_array(env, &buf)
}

/// Unpack a 24-byte buffer into `(last_reset_time, accumulated_amount)`.
pub fn unpack_spending(packed: &soroban_sdk::BytesN<24>) -> (record: (u64, i128))
    ensures
        packs(packed_bytes(*packed), record.0, record.1),
{
    let buf: [u8; 24] = bytes_to_array(packed);
    proof {
        lemma_be_value_bound(buf@.subrange(0, 8));
        lemma_pow256();
    }
    let last_reset_time: u64 = read_be(&buf, 0, 8) as u64;
    let bits: u128 = read_be(&buf, 8, 24);
    let accumulated_amount: i128 = if bits <= i128::MAX as u128 {
        bits as i128
    } else {
        -((u128::MAX - bits) as i128) - 1
    };
    (last_reset_time, accumulated_amount)
}

/// Packing loses nothing: a buffer is the packed form of one record only.
pub proof fn law_unpack_inverts_pack(bytes: Seq<u8>, t1: u64, a1: i128, t2: u64, a2: i128)
    requires
        packs(bytes, t1, a1),
        packs(bytes, t2, a2),
    ensures
        t1 == t2,
        a1 == a2,
{
}

/// Every buffer comes back from unpacking and packing it again: a record has
/// one packed form only.
pub proof fn law_pack_inverts_unpack(b1: Seq<u8>, b2: Seq<u8>, t: u64, a: i128)
    requires
        packs(b1, t, a),
        packs(b2, t, a),
    ensures
        b1 == b2,
{
    lemma_be_value_injective(b1.subrange(0, 8), b2.subrange(0, 8));
    lemma_be_value_injective(b1.subrange(8, 24), b2.subrange(8, 24));
    assert(b1 =~= b1.subrange(0, 8) + b1.subrange(8, 24));
    assert(b2 =~= b2.subrange(0, 8) + b2.subrange(8, 24));
}

/// One more byte at the end.
proof fn lemma_be_value_step(bytes: Seq<u8>, start: int, end: int)
    requires
        0 <= start < end <= bytes.len(),
    ensures
        be_value(bytes.subrange(start, end)) == be_value(bytes.subrange(start, end - 1)) * 256
            + bytes[end - 1],
        be_value(bytes.subrange(start, start)) == 0,
{
    let all = bytes.subrange(start, end);
    assert(all.drop_last() =~= bytes.subrange(start, end - 1));
    assert(all.last() == bytes[end - 1]);
    assert(bytes.subrange(start, start) =~= Seq::empty());
}

/// Where each byte of a record stands: the first eight are the time, the other sixteen
/// the amount in two's complement, and of each the most significant byte comes first.
pub proof fn law_packed_layout(bytes: Seq<u8>, last_reset_time: u64, accumulated_amount: i128)
    requires
        bytes.len() == 24,
    ensures
        packs(bytes, last_reset_time, accumulated_amount) <==> {
            &&& bytes[0] * 0x100000000000000
                + bytes[1] * 0x1000000000000
                + bytes[2] * 0x10000000000
                + bytes[3] * 0x100000000
                + bytes[4] * 0x1000000
                + bytes[5] * 0x10000
                + bytes[6] * 0x100
                + bytes[7] == last_reset_time
            &&& bytes[8] * 0x1000000000000000000000000000000
                + bytes[9] * 0x10000000000000000000000000000
                + bytes[10] * 0x100000000000000000000000000
                + bytes[11] * 0x1000000000000000000000000
                + bytes[12] * 0x10000000000000000000000
                + bytes[13] * 0x100000000000000000000
                + bytes[14] * 0x1000000000000000000
                + bytes[15] * 0x10000000000000000
                + bytes[16] * 0x100000000000000
                + bytes[17] * 0x1000000000000
                + bytes[18] * 0x10000000000
                + bytes[19] * 0x100000000
                + bytes[20] * 0x1000000
                + bytes[21] * 0x10000
                + bytes[22] * 0x100
                + bytes[23] == if accumulated_amount >= 0 {
                accumulated_amount as int
            } else {
                accumulated_amount + 0x100000000000000000000000000000000
            }
        },
{
    lemma_be_value_step(bytes, 0, 1);
    lemma_be_value_step(bytes, 0, 2);
    lemma_be_value_step(bytes, 0, 3);
    lemma_be_value_step(bytes, 0, 4);
    lemma_be_value_step(bytes, 0, 5);
    lemma_be_value_step(bytes, 0, 6);
    lemma_be_value_step(bytes, 0, 7);
    lemma_be_value_step(bytes, 0, 8);
    lemma_be_value_step(bytes, 8, 9);
    lemma_be_value_step(bytes, 8, 10);
    lemma_be_value_step(bytes, 8, 11);
    lemma_be_value_step(bytes, 8, 12);
    lemma_be_value_step(bytes, 8, 13);
    lemma_be_value_step(bytes, 8, 14);
    lemma_be_value_step(bytes, 8, 15);
    lemma_be_value_step(bytes, 8, 16);
    lemma_be_value_step(bytes, 8, 17);
    lemma_be_value_step(bytes, 8, 18);
    lemma_be_value_step(bytes, 8, 19);
    lemma_be_value_step(bytes, 8, 20);
    lemma_be_value_step(bytes, 8, 21);
    lemma_be_value_step(bytes, 8, 22);
    lemma_be_value_step(bytes, 8, 23);
    lemma_be_value_step(bytes, 8, 24);
}

} // verus!
