//! Field elements and their fixed 32-byte serialization.
//!
//! The protocol computes over elements of the finite field underlying the
//! algebraic hash. This library models an element by its canonical integer
//! value, carried as a minimal big-endian byte string (no leading zero
//! byte); the zero element is the empty string. The commitment digest is
//! that integer encoded big-endian into exactly 32 bytes: left-padded with
//! zero bytes when narrower, truncated to the low-order 32 bytes when wider.

use vstd::prelude::*;

verus! {

/// The integer value of a big-endian byte string.
pub open spec fn be_nat(s: Seq<u8>) -> nat
    decreases s.len(),
{
    if s.len() == 0 {
        0
    } else {
        be_nat(s.drop_last()) * 256 + s.last() as nat
    }
}

/// A big-endian byte string is canonical when it carries no leading zero
/// byte, so that each integer has exactly one canonical representation.
pub open spec fn is_canonical(s: Seq<u8>) -> bool {
    s.len() == 0 || s[0] != 0
}

/// A big-endian byte string fitted to exactly 32 bytes: left-padded with
/// zero bytes when narrower, truncated to its low-order 32 bytes when wider.
pub open spec fn fit32(s: Seq<u8>) -> Seq<u8> {
    if s.len() >= 32 {
        s.subrange(s.len() - 32, s.len() as int)
    } else {
        Seq::new((32 - s.len()) as nat, |i: int| 0u8) + s
    }
}

/// Appending one byte multiplies the value by 256 and adds the byte.
pub proof fn lemma_be_nat_push(s: Seq<u8>, x: u8)
    ensures
        be_nat(s.push(x)) == be_nat(s) * 256 + x,
{
    assert(s.push(x).drop_last() =~= s);
    assert(s.push(x).last() == x);
}

/// A leading zero byte does not change the value.
pub proof fn lemma_be_nat_prepend_zero(t: Seq<u8>)
    ensures
        be_nat(seq![0u8] + t) == be_nat(t),
    decreases t.len(),
{
    let s = seq![0u8] + t;
    if t.len() == 0 {
        assert(s =~= seq![0u8]);
        assert(seq![0u8].drop_last() =~= Seq::<u8>::empty());
        assert(be_nat(s) == be_nat(s.drop_last()) * 256 + s.last() as nat);
    } else {
        assert(s.drop_last() =~= seq![0u8] + t.drop_last());
        assert(s.last() == t.last());
        lemma_be_nat_prepend_zero(t.drop_last());
        assert(be_nat(s) == be_nat(s.drop_last()) * 256 + s.last() as nat);
        assert(be_nat(t) == be_nat(t.drop_last()) * 256 + t.last() as nat);
    }
}

/// Stripping a prefix of zero bytes does not change the value.
pub proof fn lemma_be_nat_zero_prefix(s: Seq<u8>, k: int)
    requires
        0 <= k <= s.len(),
        forall|j: int| 0 <= j < k ==> s[j] == 0,
    ensures
        be_nat(s.skip(k)) == be_nat(s),
    decreases k,
{
    if k > 0 {
        assert(s =~= seq![0u8] + s.skip(1));
        lemma_be_nat_prepend_zero(s.skip(1));
        lemma_be_nat_zero_prefix(s.skip(1), k - 1);
        assert(s.skip(1).skip(k - 1) =~= s.skip(k));
    } else {
        assert(s.skip(0) =~= s);
    }
}

/// 256 to the power `n`: the number of byte strings of length `n`.
pub open spec fn pow256(n: nat) -> nat
    decreases n,
{
    if n == 0 {
        1
    } else {
        256 * pow256((n - 1) as nat)
    }
}

proof fn lemma_pow256_pos(n: nat)
    ensures
        pow256(n) >= 1,
    decreases n,
{
    if n > 0 {
        lemma_pow256_pos((n - 1) as nat);
    }
}

proof fn lemma_be_nat_lower_bound(s: Seq<u8>)
    requires
        s.len() > 0,
        s[0] != 0,
    ensures
        be_nat(s) >= pow256((s.len() - 1) as nat),
    decreases s.len(),
{
    if s.len() == 1 {
        assert(s.drop_last() =~= Seq::<u8>::empty());
    } else {
        let d = s.drop_last();
        assert(d[0] == s[0]);
        lemma_be_nat_lower_bound(d);
    }
}

/// Canonical representations are unique: two canonical byte strings with
/// the same value are the same string, so equality of values and equality
/// of canonical representations coincide.
pub proof fn lemma_canonical_unique(s1: Seq<u8>, s2: Seq<u8>)
    requires
        is_canonical(s1),
        is_canonical(s2),
        be_nat(s1) == be_nat(s2),
    ensures
        s1 == s2,
    decreases s1.len(),
{
    if s1.len() == 0 && s2.len() == 0 {
        assert(s1 =~= s2);
    } else if s1.len() == 0 {
        lemma_be_nat_lower_bound(s2);
        lemma_pow256_pos((s2.len() - 1) as nat);
        assert(false);
    } else if s2.len() == 0 {
        lemma_be_nat_lower_bound(s1);
        lemma_pow256_pos((s1.len() - 1) as nat);
        assert(false);
    } else {
        let d1 = s1.drop_last();
        let d2 = s2.drop_last();
        assert(be_nat(s1) == be_nat(d1) * 256 + s1.last() as nat);
        assert(be_nat(s2) == be_nat(d2) * 256 + s2.last() as nat);
        assert(be_nat(d1) == be_nat(d2) && s1.last() == s2.last());
        if s1.len() == 1 {
            assert(d1 =~= Seq::<u8>::empty());
        } else {
            assert(d1[0] == s1[0]);
        }
        if s2.len() == 1 {
            assert(d2 =~= Seq::<u8>::empty());
        } else {
            assert(d2[0] == s2[0]);
        }
        lemma_canonical_unique(d1, d2);
        assert(s1.len() == s2.len());
        assert forall|j: int| 0 <= j < s1.len() implies s1[j] == s2[j] by {
            if j < s1.len() - 1 {
                assert(d1[j] == s1[j]);
                assert(d2[j] == s2[j]);
            } else {
                assert(s1[j] == s1.last());
                assert(s2[j] == s2.last());
            }
        }
        assert(s1 =~= s2);
    }
}

/// An element of the finite field underlying the algebraic hash, modeled by
/// its canonical big-endian integer representation.
pub struct FieldElement {
    bytes: Vec<u8>,
}

impl View for FieldElement {
    type V = Seq<u8>;

    closed spec fn view(&self) -> Seq<u8> {
        self.bytes@
    }
}

impl FieldElement {
    /// The representation is canonical: minimal big-endian bytes.
    pub open spec fn wf(self) -> bool {
        is_canonical(self@)
    }

    /// The integer value of the element.
    pub open spec fn value(self) -> nat {
        be_nat(self@)
    }

    /// The zero element, the "no prior state" root of an unseen chain.
    pub fn zero() -> (r: Self)
        ensures
            r@ == Seq::<u8>::empty(),
            r.wf(),
            r.value() == 0,
    {
        FieldElement { bytes: Vec::new() }
    }

    /// The element with a given small integer value.
    pub fn from_u32(x: u32) -> (r: Self)
        ensures
            r.wf(),
            r.value() == x,
    {
        let mut limbs: Vec<u8> = Vec::new();
        if x >= 0x1000000 {
            proof {
                assert(x >> 24 < 0x100) by (bit_vector);
            }
            limbs.push((x >> 24) as u8);
        }
        if x >= 0x10000 {
            proof {
                assert((x >> 16) & 0xff < 0x100) by (bit_vector);
            }
            limbs.push(((x >> 16) & 0xff) as u8);
        }
        if x >= 0x100 {
            proof {
                assert((x >> 8) & 0xff < 0x100) by (bit_vector);
            }
            limbs.push(((x >> 8) & 0xff) as u8);
        }
        if x >= 1 {
            proof {
                assert(x & 0xff < 0x100) by (bit_vector);
            }
            limbs.push((x & 0xff) as u8);
        }
        proof {
            lemma_from_u32_value(x, limbs@);
        }
        FieldElement { bytes: limbs }
    }

    /// The element whose value is the big-endian value of `bytes`; its
    /// representation is `bytes` with any leading zero bytes stripped.
    pub fn from_bytes(bytes: &Vec<u8>) -> (r: Self)
        ensures
            r.wf(),
            r.value() == be_nat(bytes@),
    {
        let mut start: usize = 0;
        while start < bytes.len() && bytes[start] == 0
            invariant
                start <= bytes@.len(),
                forall|j: int| 0 <= j < start ==> bytes@[j] == 0,
            decreases bytes@.len() - start,
        {
            start += 1;
        }
        let mut limbs: Vec<u8> = Vec::new();
        let mut i: usize = start;
        while i < bytes.len()
            invariant
                start <= i <= bytes@.len(),
                limbs@ == bytes@.subrange(start as int, i as int),
            decreases bytes@.len() - i,
        {
            let b = bytes[i];
            limbs.push(b);
            proof {
                assert(limbs@ =~= bytes@.subrange(start as int, i + 1));
            }
            i += 1;
        }
        proof {
            assert(limbs@ =~= bytes@.skip(start as int));
            lemma_be_nat_zero_prefix(bytes@, start as int);
        }
        FieldElement { bytes: limbs }
    }

    /// A copy of this element.
    pub fn duplicate(&self) -> (r: FieldElement)
        ensures
            r@ == self@,
    {
        let mut copied: Vec<u8> = Vec::new();
        let mut i: usize = 0;
        while i < self.bytes.len()
            invariant
                i <= self@.len(),
                copied@ == self@.subrange(0, i as int),
            decreases self@.len() - i,
        {
            let b = self.bytes[i];
            copied.push(b);
            proof {
                assert(copied@ =~= self@.subrange(0, i + 1));
            }
            i += 1;
        }
        proof {
            assert(copied@ =~= self@);
        }
        FieldElement { bytes: copied }
    }

    /// The element serialized to the fixed 32-byte commitment encoding.
    pub fn to_digest(&self) -> (d: Digest32)
        ensures
            d@ == fit32(self@),
            d.wf(),
    {
        let mut out: Vec<u8> = Vec::new();
        let n = self.bytes.len();
        if n >= 32 {
            let mut i: usize = n - 32;
            while i < n
                invariant
                    n == self@.len(),
                    n >= 32,
                    n - 32 <= i <= n,
                    out@ == self@.subrange(n - 32, i as int),
                decreases n - i,
            {
                let b = self.bytes[i];
                out.push(b);
                proof {
                    assert(out@ =~= self@.subrange(n - 32, i + 1));
                }
                i += 1;
            }
            proof {
                assert(out@ =~= fit32(self@));
            }
        } else {
            let mut i: usize = 0;
            while i < 32 - n
                invariant
                    n == self@.len(),
                    n < 32,
                    i <= 32 - n,
                    out@.len() == i,
                    forall|j: int| 0 <= j < i ==> out@[j] == 0,
                decreases 32 - n - i,
            {
                out.push(0);
                i += 1;
            }
            let mut k: usize = 0;
            while k < n
                invariant
                    n == self@.len(),
                    n < 32,
                    k <= n,
                    out@.len() == 32 - n + k,
                    forall|j: int| 0 <= j < 32 - n ==> out@[j] == 0,
                    forall|j: int| 32 - n <= j < out@.len() ==> out@[j] == self@[j - (32 - n)],
                decreases n - k,
            {
                let b = self.bytes[k];
                out.push(b);
                k += 1;
            }
            proof {
                assert(out@ =~= fit32(self@));
            }
        }
        Digest32 { bytes: out }
    }
}

/// A fixed 32-byte digest: the serialized form of a commitment.
pub struct Digest32 {
    pub bytes: Vec<u8>,
}

impl View for Digest32 {
    type V = Seq<u8>;

    open spec fn view(&self) -> Seq<u8> {
        self.bytes@
    }
}

impl Digest32 {
    pub open spec fn wf(self) -> bool {
        self@.len() == 32
    }
}

/// Commitment serialization is deterministic: elements with equal canonical
/// representations serialize to byte-for-byte equal digests.
pub proof fn lemma_serialization_deterministic(a: FieldElement, b: FieldElement)
    requires
        a@ == b@,
    ensures
        fit32(a@) == fit32(b@),
{
}

/// Commitment serialization is injective on canonical representations that
/// fit the digest width: distinct field elements of at most 32 canonical
/// bytes never serialize to the same digest.
pub proof fn lemma_serialization_injective(s1: Seq<u8>, s2: Seq<u8>)
    requires
        is_canonical(s1),
        is_canonical(s2),
        s1.len() <= 32,
        s2.len() <= 32,
        fit32(s1) == fit32(s2),
    ensures
        s1 == s2,
{
    if s1.len() == s2.len() {
        let pad = 32 - s1.len();
        assert forall|j: int| 0 <= j < s1.len() implies s1[j] == s2[j] by {
            assert(fit32(s1)[pad + j] == s1[j]);
            assert(fit32(s2)[pad + j] == s2[j]);
        }
        assert(s1 =~= s2);
    } else {
        let (shorter, longer) = if s1.len() < s2.len() {
            (s1, s2)
        } else {
            (s2, s1)
        };
        let j = 32 - longer.len();
        assert(fit32(longer)[j] == longer[0]);
        assert(fit32(shorter)[j] == 0);
        assert(false);
    }
}

proof fn lemma_from_u32_value(x: u32, s: Seq<u8>)
    requires
        x == 0 ==> s == Seq::<u8>::empty(),
        1 <= x < 0x100 ==> s == Seq::<u8>::empty().push((x & 0xff) as u8),
        0x100 <= x < 0x10000 ==> s == Seq::<u8>::empty().push(((x >> 8) & 0xff) as u8).push(
            (x & 0xff) as u8,
        ),
        0x10000 <= x < 0x1000000 ==> s == Seq::<u8>::empty().push(((x >> 16) & 0xff) as u8).push(
            ((x >> 8) & 0xff) as u8,
        ).push((x & 0xff) as u8),
        0x1000000 <= x ==> s == Seq::<u8>::empty().push((x >> 24) as u8).push(
            ((x >> 16) & 0xff) as u8,
        ).push(((x >> 8) & 0xff) as u8).push((x & 0xff) as u8),
    ensures
        is_canonical(s),
        be_nat(s) == x,
{
    let e = Seq::<u8>::empty();
    if x == 0 {
    } else if x < 0x100 {
        lemma_be_nat_push(e, (x & 0xff) as u8);
        assert(((x & 0xff) as u8) as nat == x && ((x & 0xff) as u8) != 0) by (bit_vector)
            requires
                1 <= x < 0x100,
        ;
    } else if x < 0x10000 {
        let hi = ((x >> 8) & 0xff) as u8;
        let lo = (x & 0xff) as u8;
        lemma_be_nat_push(e, hi);
        lemma_be_nat_push(e.push(hi), lo);
        assert((((x >> 8) & 0xff) as u8) as nat * 256 + ((x & 0xff) as u8) as nat == x && (((x >> 8)
            & 0xff) as u8) != 0) by (bit_vector)
            requires
                0x100 <= x < 0x10000,
        ;
    } else if x < 0x1000000 {
        let b2 = ((x >> 16) & 0xff) as u8;
        let b1 = ((x >> 8) & 0xff) as u8;
        let b0 = (x & 0xff) as u8;
        lemma_be_nat_push(e, b2);
        lemma_be_nat_push(e.push(b2), b1);
        lemma_be_nat_push(e.push(b2).push(b1), b0);
        assert((((x >> 16) & 0xff) as u8) as nat * 0x10000 + (((x >> 8) & 0xff) as u8) as nat * 0x100
            + ((x & 0xff) as u8) as nat == x && (((x >> 16) & 0xff) as u8) != 0) by (bit_vector)
            requires
                0x10000 <= x < 0x1000000,
        ;
    } else {
        let b3 = (x >> 24) as u8;
        let b2 = ((x >> 16) & 0xff) as u8;
        let b1 = ((x >> 8) & 0xff) as u8;
        let b0 = (x & 0xff) as u8;
        lemma_be_nat_push(e, b3);
        lemma_be_nat_push(e.push(b3), b2);
        lemma_be_nat_push(e.push(b3).push(b2), b1);
        lemma_be_nat_push(e.push(b3).push(b2).push(b1), b0);
        assert(((x >> 24) as u8) as nat * 0x1000000 + (((x >> 16) & 0xff) as u8) as nat * 0x10000 + ((
        (x >> 8) & 0xff) as u8) as nat * 0x100 + ((x & 0xff) as u8) as nat == x && ((x
            >> 24) as u8) != 0) by (bit_vector)
            requires
                0x1000000 <= x,
        ;
    }
}

} // verus!
