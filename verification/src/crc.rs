//! The CRC-32 checksum used by the PNG chunk format: the reflected
//! IEEE 802.3 polynomial `0xEDB88320`, computed bit by bit.

use vstd::prelude::*;

verus! {

/// One shift of the CRC register: divide out the polynomial when the
/// low bit is set.
pub open spec fn crc_step(c: u32) -> u32 {
    if c & 1 == 1 {
        0xEDB8_8320u32 ^ (c >> 1)
    } else {
        c >> 1
    }
}

/// `n` repeated register shifts.
pub open spec fn crc_steps(c: u32, n: nat) -> u32
    decreases n,
{
    if n == 0 {
        c
    } else {
        crc_step(crc_steps(c, (n - 1) as nat))
    }
}

/// Folding one byte into the running remainder: xor it in, then shift
/// eight times.
pub open spec fn crc_push_byte(c: u32, b: u8) -> u32 {
    crc_steps(c ^ (b as u32), 8)
}

/// Folding a whole byte sequence into the remainder, left to right.
pub open spec fn crc_fold(c: u32, s: Seq<u8>) -> u32
    decreases s.len(),
{
    if s.len() == 0 {
        c
    } else {
        crc_fold(crc_push_byte(c, s[0]), s.drop_first())
    }
}

/// The PNG CRC-32 of `s`: fold from an all-ones register, then invert.
/// Opaque: callers see the checksum as a pure function of `s`, through
/// the contract of [`crc32`].
#[verifier::opaque]
pub open spec fn spec_crc32(s: Seq<u8>) -> u32 {
    crc_fold(0xFFFF_FFFFu32, s) ^ 0xFFFF_FFFFu32
}

/// Folding distributes over appending one byte at the end.
pub proof fn lemma_crc_fold_push(c: u32, s: Seq<u8>, b: u8)
    ensures
        crc_fold(c, s.push(b)) == crc_push_byte(crc_fold(c, s), b),
    decreases s.len(),
{
    assert(s.push(b)[0] == if s.len() == 0 { b } else { s[0] });
    if s.len() == 0 {
        assert(s.push(b).drop_first() =~= Seq::<u8>::empty());
        assert(crc_fold(c, s.push(b)) == crc_fold(crc_push_byte(c, b), s.push(b).drop_first()));
        assert(crc_fold(crc_push_byte(c, b), Seq::<u8>::empty()) == crc_push_byte(c, b));
    } else {
        assert(s.push(b).drop_first() =~= s.drop_first().push(b));
        lemma_crc_fold_push(crc_push_byte(c, s[0]), s.drop_first(), b);
        assert(crc_fold(c, s.push(b)) == crc_fold(crc_push_byte(c, s[0]), s.drop_first().push(b)));
    }
}

/// One register shift keeps distinct states distinct.
proof fn lemma_crc_step_injective(c1: u32, c2: u32)
    requires
        c1 != c2,
    ensures
        crc_step(c1) != crc_step(c2),
{
    assert((if c1 & 1 == 1 {
        0xEDB8_8320u32 ^ (c1 >> 1)
    } else {
        c1 >> 1
    }) != (if c2 & 1 == 1 {
        0xEDB8_8320u32 ^ (c2 >> 1)
    } else {
        c2 >> 1
    })) by (bit_vector)
        requires
            c1 != c2,
    ;
}

/// Repeated register shifts keep distinct states distinct.
proof fn lemma_crc_steps_injective(c1: u32, c2: u32, n: nat)
    requires
        c1 != c2,
    ensures
        crc_steps(c1, n) != crc_steps(c2, n),
    decreases n,
{
    if n != 0 {
        lemma_crc_steps_injective(c1, c2, (n - 1) as nat);
        lemma_crc_step_injective(crc_steps(c1, (n - 1) as nat), crc_steps(c2, (n - 1) as nat));
    }
}

/// Folding the same byte into distinct states leaves them distinct.
proof fn lemma_crc_push_state(c1: u32, c2: u32, b: u8)
    requires
        c1 != c2,
    ensures
        crc_push_byte(c1, b) != crc_push_byte(c2, b),
{
    let x1 = c1 ^ (b as u32);
    let x2 = c2 ^ (b as u32);
    assert(x1 != x2) by (bit_vector)
        requires
            x1 == c1 ^ (b as u32),
            x2 == c2 ^ (b as u32),
            c1 != c2,
    ;
    lemma_crc_steps_injective(x1, x2, 8);
}

/// Folding distinct bytes into the same state leaves it distinct.
proof fn lemma_crc_push_bytes_differ(c: u32, b1: u8, b2: u8)
    requires
        b1 != b2,
    ensures
        crc_push_byte(c, b1) != crc_push_byte(c, b2),
{
    let x1 = c ^ (b1 as u32);
    let x2 = c ^ (b2 as u32);
    assert(x1 != x2) by (bit_vector)
        requires
            x1 == c ^ (b1 as u32),
            x2 == c ^ (b2 as u32),
            b1 != b2,
    ;
    lemma_crc_steps_injective(x1, x2, 8);
}

/// Folding the same bytes from distinct states ends distinct.
proof fn lemma_crc_fold_distinct(c1: u32, c2: u32, s: Seq<u8>)
    requires
        c1 != c2,
    ensures
        crc_fold(c1, s) != crc_fold(c2, s),
    decreases s.len(),
{
    if s.len() != 0 {
        lemma_crc_push_state(c1, c2, s[0]);
        lemma_crc_fold_distinct(crc_push_byte(c1, s[0]), crc_push_byte(c2, s[0]), s.drop_first());
    }
}

/// Folding sequences that differ in exactly one byte ends distinct.
proof fn lemma_crc_fold_single_change(c: u32, s1: Seq<u8>, s2: Seq<u8>, j: int)
    requires
        s1.len() == s2.len(),
        0 <= j < s1.len(),
        s1[j] != s2[j],
        forall|i: int| 0 <= i < s1.len() && i != j ==> s1[i] == s2[i],
    ensures
        crc_fold(c, s1) != crc_fold(c, s2),
    decreases j,
{
    if j == 0 {
        lemma_crc_push_bytes_differ(c, s1[0], s2[0]);
        assert(s1.drop_first() =~= s2.drop_first());
        lemma_crc_fold_distinct(
            crc_push_byte(c, s1[0]),
            crc_push_byte(c, s2[0]),
            s1.drop_first(),
        );
    } else {
        assert(s1[0] == s2[0]);
        assert(s1.drop_first()[j - 1] != s2.drop_first()[j - 1]);
        assert(forall|i: int|
            0 <= i < s1.drop_first().len() && i != j - 1 ==> s1.drop_first()[i]
                == s2.drop_first()[i]);
        lemma_crc_fold_single_change(crc_push_byte(c, s1[0]), s1.drop_first(), s2.drop_first(), j - 1);
    }
}

/// Law: two byte sequences of the same length that differ in exactly
/// one byte never share a checksum, so any corruption of a single byte
/// is caught.
pub proof fn lemma_crc32_single_byte_change(s1: Seq<u8>, s2: Seq<u8>, j: int)
    requires
        s1.len() == s2.len(),
        0 <= j < s1.len(),
        s1[j] != s2[j],
        forall|i: int| 0 <= i < s1.len() && i != j ==> s1[i] == s2[i],
    ensures
        spec_crc32(s1) != spec_crc32(s2),
{
    reveal(spec_crc32);
    lemma_crc_fold_single_change(0xFFFF_FFFFu32, s1, s2, j);
    let f1 = crc_fold(0xFFFF_FFFFu32, s1);
    let f2 = crc_fold(0xFFFF_FFFFu32, s2);
    assert(f1 ^ 0xFFFF_FFFFu32 != f2 ^ 0xFFFF_FFFFu32) by (bit_vector)
        requires
            f1 != f2,
    ;
}

/// The PNG CRC-32 of a byte slice.
pub fn crc32(bytes: &[u8]) -> (r: u32)
    ensures
        r == spec_crc32(bytes@),
{
    let mut c: u32 = 0xFFFF_FFFF;
    let mut i: usize = 0;
    while i < bytes.len()
        invariant
            i <= bytes@.len(),
            c == crc_fold(0xFFFF_FFFFu32, bytes@.take(i as int)),
        decreases bytes@.len() - i,
    {
        let b: u8 = bytes[i];
        c = c ^ (b as u32);
        let ghost c0: u32 = c;
        let mut k: usize = 0;
        while k < 8
            invariant
                k <= 8,
                c == crc_steps(c0, k as nat),
            decreases 8 - k,
        {
            if c & 1 == 1 {
                c = 0xEDB8_8320 ^ (c >> 1);
            } else {
                c = c >> 1;
            }
            k = k + 1;
        }
        proof {
            lemma_crc_fold_push(0xFFFF_FFFFu32, bytes@.take(i as int), bytes@[i as int]);
            assert(bytes@.take(i as int).push(bytes@[i as int]) =~= bytes@.take(i + 1));
        }
        i = i + 1;
    }
    proof {
        reveal(spec_crc32);
        assert(bytes@.take(i as int) =~= bytes@);
    }
    c ^ 0xFFFF_FFFF
}

} // verus!
