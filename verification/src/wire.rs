//! The reference backend's wire format, as specification functions, and the
//! laws that hold of it: little-endian fixed-width images, and the compact
//! sign-folded variable-length integer (a zigzag fold followed by base-128
//! groups with a continuation bit).
//!
//! The round-trip lemmas here are the heart of the framework's guarantees:
//! whatever value a decoder can answer for the encoding of `v` is `v`
//! itself.

use vstd::prelude::*;

verus! {

/// `256^n`: the number of values `n` bytes can carry.
pub open spec fn pow256(n: nat) -> nat
    decreases n,
{
    if n == 0 {
        1
    } else {
        256 * pow256((n - 1) as nat)
    }
}

/// The byte counts the backend uses, spelled out.
pub proof fn lemma_pow256_vals()
    ensures
        pow256(0) == 1,
        pow256(1) == 0x100,
        pow256(2) == 0x10000,
        pow256(4) == 0x100000000,
        pow256(8) == 0x10000000000000000,
        pow256(15) == 0x1000000000000000000000000000000,
        pow256(16) == 0x100000000000000000000000000000000,
{
    assert(pow256(0) == 1);
    assert(pow256(1) == 0x100);
    assert(pow256(2) == 0x10000);
    assert(pow256(3) == 0x1000000);
    assert(pow256(4) == 0x100000000);
    assert(pow256(5) == 0x10000000000);
    assert(pow256(6) == 0x1000000000000);
    assert(pow256(7) == 0x100000000000000);
    assert(pow256(8) == 0x10000000000000000);
    assert(pow256(9) == 0x1000000000000000000);
    assert(pow256(10) == 0x100000000000000000000);
    assert(pow256(11) == 0x10000000000000000000000);
    assert(pow256(12) == 0x1000000000000000000000000);
    assert(pow256(13) == 0x100000000000000000000000000);
    assert(pow256(14) == 0x10000000000000000000000000000);
    assert(pow256(15) == 0x1000000000000000000000000000000);
    assert(pow256(16) == 0x100000000000000000000000000000000);
}

/// A byte width always carries at least one value.
pub proof fn lemma_pow256_pos(n: nat)
    ensures
        pow256(n) >= 1,
    decreases n,
{
    if n > 0 {
        lemma_pow256_pos((n - 1) as nat);
    }
}

/// More bytes can carry no fewer values.
pub proof fn lemma_pow256_mono(a: nat, b: nat)
    requires
        a <= b,
    ensures
        pow256(a) <= pow256(b),
    decreases b,
{
    if a < b && b > 0 {
        lemma_pow256_mono(a, (b - 1) as nat);
    }
}

/// The `n` little-endian bytes of `v` (low byte first).
pub open spec fn le_bytes(v: nat, n: nat) -> Seq<u8>
    decreases n,
{
    if n == 0 {
        Seq::empty()
    } else {
        seq![(v % 256) as u8] + le_bytes(v / 256, (n - 1) as nat)
    }
}

/// The value carried by little-endian bytes (low byte first).
pub open spec fn from_le(s: Seq<u8>) -> nat
    decreases s.len(),
{
    if s.len() == 0 {
        0
    } else {
        s[0] as nat + 256 * from_le(s.skip(1))
    }
}

pub proof fn lemma_le_bytes_len(v: nat, n: nat)
    ensures
        le_bytes(v, n).len() == n,
    decreases n,
{
    if n > 0 {
        lemma_le_bytes_len(v / 256, (n - 1) as nat);
    }
}

/// Reading back the little-endian bytes recovers the value up to the
/// width's capacity.
pub proof fn lemma_le_round_trip_mod(v: nat, n: nat)
    ensures
        from_le(le_bytes(v, n)) == v % pow256(n),
    decreases n,
{
    if n == 0 {
        assert(v % 1 == 0) by (nonlinear_arith);
    } else {
        let p = pow256((n - 1) as nat);
        lemma_le_bytes_len(v / 256, (n - 1) as nat);
        assert(le_bytes(v, n).skip(1) =~= le_bytes(v / 256, (n - 1) as nat));
        lemma_le_round_trip_mod(v / 256, (n - 1) as nat);
        lemma_pow256_pos((n - 1) as nat);
        vstd::arithmetic::div_mod::lemma_mod_breakdown(v as int, 256, p as int);
    }
}

/// Reading back the little-endian bytes of a value recovers the value.
pub proof fn lemma_le_round_trip(v: nat, n: nat)
    requires
        v < pow256(n),
    ensures
        from_le(le_bytes(v, n)) == v,
{
    lemma_le_round_trip_mod(v, n);
    lemma_pow256_pos(n);
    vstd::arithmetic::div_mod::lemma_small_mod(v, pow256(n));
}

/// A prefix splits into a prefix and a prefix of what follows it.
pub proof fn lemma_prefix_parts(a: Seq<u8>, b: Seq<u8>, s: Seq<u8>)
    requires
        (a + b).is_prefix_of(s),
    ensures
        a.is_prefix_of(s),
        b.is_prefix_of(s.skip(a.len() as int)),
{
    assert((a + b) =~= s.subrange(0, (a.len() + b.len()) as int));
    assert(a =~= s.subrange(0, a.len() as int)) by {
        assert(forall|i: int| #![auto] 0 <= i < a.len() ==> a[i] == (a + b)[i]);
    }
    assert(b =~= s.skip(a.len() as int).subrange(0, b.len() as int)) by {
        assert(forall|i: int| #![auto] 0 <= i < b.len() ==> b[i] == (a + b)[a.len() + i]);
    }
}

/// A little-endian byte sequence carries a value below `256^len`.
pub proof fn lemma_from_le_bound(s: Seq<u8>)
    ensures
        from_le(s) < pow256(s.len()),
    decreases s.len(),
{
    if s.len() > 0 {
        lemma_from_le_bound(s.skip(1));
    }
}

/// Any byte sequence is the little-endian image of the value it carries:
/// the witness side of decode completeness.
pub proof fn lemma_le_of_from_le(s: Seq<u8>)
    ensures
        le_bytes(from_le(s), s.len()) =~= s,
    decreases s.len(),
{
    if s.len() > 0 {
        let v = from_le(s);
        let k = from_le(s.skip(1));
        assert(v == s[0] as nat + 256 * k);
        assert(v % 256 == s[0] as nat && v / 256 == k) by (nonlinear_arith)
            requires
                v == s[0] as nat + 256 * k,
                0 <= s[0] < 256,
                k >= 0,
        ;
        lemma_le_of_from_le(s.skip(1));
        assert(le_bytes(v, s.len()).skip(1) =~= le_bytes(k, (s.len() - 1) as nat));
        assert(le_bytes(v, s.len()) =~= s);
    }
}

/// Two values whose little-endian images open the same byte stream are the
/// same value: decoding is unambiguous.
pub proof fn lemma_le_prefix_unique(a: nat, b: nat, n: nat, t: Seq<u8>)
    requires
        a < pow256(n),
        b < pow256(n),
        le_bytes(b, n).is_prefix_of(le_bytes(a, n) + t),
    ensures
        b == a,
{
    lemma_le_bytes_len(a, n);
    lemma_le_bytes_len(b, n);
    assert(le_bytes(b, n) =~= le_bytes(a, n)) by {
        assert(forall|i: int|
            0 <= i < n ==> le_bytes(b, n)[i] == (le_bytes(a, n) + t)[i] && (le_bytes(a, n) + t)[i]
                == le_bytes(a, n)[i]);
    }
    lemma_le_round_trip(a, n);
    lemma_le_round_trip(b, n);
}

/// The sign fold: small magnitudes of either sign become small naturals.
pub open spec fn zigzag(v: i32) -> u32 {
    if v >= 0 {
        (2 * (v as int)) as u32
    } else {
        (-2 * (v as int) - 1) as u32
    }
}

/// The inverse sign fold.
pub open spec fn unzigzag(z: u32) -> i32 {
    if z % 2 == 0 {
        ((z / 2) as int) as i32
    } else {
        (-(((z as int) + 1) / 2)) as i32
    }
}

pub proof fn lemma_zigzag_round_trip(v: i32)
    ensures
        unzigzag(zigzag(v)) == v,
{
}

pub proof fn lemma_unzigzag_round_trip(z: u32)
    ensures
        zigzag(unzigzag(z)) == z,
{
}

/// Base-128 groups, low group first; every group but the last carries the
/// continuation bit. The image is canonical: the last group is never zero
/// unless it is the only one.
pub open spec fn leb(z: u32) -> Seq<u8>
    decreases z,
{
    if z < 0x80 {
        seq![z as u8]
    } else {
        seq![((z % 0x80) + 0x80) as u8] + leb(z / 0x80)
    }
}

pub proof fn lemma_leb_len(z: u32)
    ensures
        1 <= leb(z).len(),
    decreases z,
{
    if z >= 0x80 {
        lemma_leb_len(z / 0x80);
    }
}

/// Dropping a shared first byte keeps the prefix relation.
pub proof fn lemma_tail_prefix(h: u8, q: Seq<u8>, s: Seq<u8>)
    requires
        (seq![h] + q).is_prefix_of(s),
    ensures
        q.is_prefix_of(s.skip(1)),
{
    assert((seq![h] + q) =~= s.subrange(0, q.len() as int + 1));
    assert(q =~= s.skip(1).subrange(0, q.len() as int)) by {
        assert(forall|i: int| #![auto] 0 <= i < q.len() ==> q[i] == (seq![h] + q)[i + 1]);
    }
}

/// Two values whose variable-length images open the same byte stream are
/// the same value: the continuation bits make the image self-delimiting.
pub proof fn lemma_leb_prefix_unique(a: u32, b: u32, s: Seq<u8>)
    requires
        leb(a).is_prefix_of(s),
        leb(b).is_prefix_of(s),
    ensures
        a == b,
    decreases s.len(),
{
    let la = leb(a);
    let lb = leb(b);
    assert(la == s.subrange(0, la.len() as int));
    assert(lb == s.subrange(0, lb.len() as int));
    assert(la[0] == s[0]);
    assert(lb[0] == s[0]);
    if a < 0x80 {
        assert(s[0] == a as u8);
        if b >= 0x80 {
            assert(s[0] == ((b % 0x80) + 0x80) as u8);
        }
    } else {
        assert(s[0] == ((a % 0x80) + 0x80) as u8);
        if b < 0x80 {
            assert(s[0] == b as u8);
        } else {
            lemma_tail_prefix(((a % 0x80) + 0x80) as u8, leb(a / 0x80), s);
            lemma_tail_prefix(((b % 0x80) + 0x80) as u8, leb(b / 0x80), s);
            lemma_leb_prefix_unique(a / 0x80, b / 0x80, s.skip(1));
            assert(a % 0x80 == b % 0x80) by {
                assert(((a % 0x80) + 0x80) as u8 == ((b % 0x80) + 0x80) as u8);
            }
            assert(a == 0x80 * (a / 0x80) + a % 0x80);
            assert(b == 0x80 * (b / 0x80) + b % 0x80);
        }
    }
}

} // verus!
