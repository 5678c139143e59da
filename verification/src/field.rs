//! Byte-level arithmetic over the BN254 scalar field.
//!
//! Field elements travel through this crate as 32-byte big-endian arrays.
//! The spec-level model of such an array is the natural number it encodes,
//! given by [`be_nat`].

use vstd::prelude::*;

verus! {

/// The BN254 scalar field modulus, as a mathematical integer.
pub open spec fn p_nat() -> nat {
    21888242871839275222246405745257275088548364400416034343698204186575808495617nat
}

/// The natural number encoded by a big-endian byte string.
pub open spec fn be_nat(s: Seq<u8>) -> nat
    decreases s.len(),
{
    if s.len() == 0 {
        0nat
    } else {
        (be_nat(s.drop_last()) * 256 + s.last()) as nat
    }
}

/// The natural number encoded by a little-endian byte string.
pub open spec fn le_nat(s: Seq<u8>) -> nat
    decreases s.len(),
{
    if s.len() == 0 {
        0nat
    } else {
        (le_nat(s.drop_first()) * 256 + s.first()) as nat
    }
}

/// Big-endian encoding of the BN254 scalar field modulus.
pub const FIELD_SIZE_BE: [u8; 32] = [
    48, 100, 78, 114, 225, 49, 160, 41, 184, 80, 69, 182, 129, 129, 88, 93, 40, 51, 232, 72, 121,
    185, 112, 145, 67, 225, 245, 147, 240, 0, 0, 1,
];

/// One step of evaluating `be_nat` along the prefixes of a byte string.
pub proof fn lemma_be_nat_take_step(s: Seq<u8>, k: int)
    requires
        0 <= k < s.len(),
    ensures
        be_nat(s.take(k + 1)) == be_nat(s.take(k)) * 256 + s[k],
{
    assert(s.take(k + 1).drop_last() =~= s.take(k));
}

/// `FIELD_SIZE_BE` encodes the field modulus; its upper half encodes the
/// upper 128 bits of the modulus.
pub proof fn lemma_field_size_be_value()
    ensures
        be_nat(FIELD_SIZE_BE@) == p_nat(),
        be_nat(FIELD_SIZE_BE@.take(16)) == 64323764613183177041862057485226039389nat,
{
    let s = FIELD_SIZE_BE@;
    assert(s.take(0) =~= Seq::<u8>::empty());
    assert(be_nat(s.take(0)) == 0);
    lemma_be_nat_take_step(s, 0);
    assert(be_nat(s.take(1)) == 48nat);
    lemma_be_nat_take_step(s, 1);
    assert(be_nat(s.take(2)) == 12388nat);
    lemma_be_nat_take_step(s, 2);
    assert(be_nat(s.take(3)) == 3171406nat);
    lemma_be_nat_take_step(s, 3);
    assert(be_nat(s.take(4)) == 811880050nat);
    lemma_be_nat_take_step(s, 4);
    assert(be_nat(s.take(5)) == 207841293025nat);
    lemma_be_nat_take_step(s, 5);
    assert(be_nat(s.take(6)) == 53207371014449nat);
    lemma_be_nat_take_step(s, 6);
    assert(be_nat(s.take(7)) == 13621086979699104nat);
    lemma_be_nat_take_step(s, 7);
    assert(be_nat(s.take(8)) == 3486998266802970665nat);
    lemma_be_nat_take_step(s, 8);
    assert(be_nat(s.take(9)) == 892671556301560490424nat);
    lemma_be_nat_take_step(s, 9);
    assert(be_nat(s.take(10)) == 228523918413199485548624nat);
    lemma_be_nat_take_step(s, 10);
    assert(be_nat(s.take(11)) == 58502123113779068300447813nat);
    lemma_be_nat_take_step(s, 11);
    assert(be_nat(s.take(12)) == 14976543517127441484914640310nat);
    lemma_be_nat_take_step(s, 12);
    assert(be_nat(s.take(13)) == 3833995140384625020138147919489nat);
    lemma_be_nat_take_step(s, 13);
    assert(be_nat(s.take(14)) == 981502755938464005155365867389313nat);
    lemma_be_nat_take_step(s, 14);
    assert(be_nat(s.take(15)) == 251264705520246785319773662051664216nat);
    lemma_be_nat_take_step(s, 15);
    assert(be_nat(s.take(16)) == 64323764613183177041862057485226039389nat);
    lemma_be_nat_take_step(s, 16);
    assert(be_nat(s.take(17)) == 16466883740974893322716686716217866083624nat);
    lemma_be_nat_take_step(s, 17);
    assert(be_nat(s.take(18)) == 4215522237689572690615471799351773717407795nat);
    lemma_be_nat_take_step(s, 18);
    assert(be_nat(s.take(19)) == 1079173692848530608797560780634054071656395752nat);
    lemma_be_nat_take_step(s, 19);
    assert(be_nat(s.take(20)) == 276268465369223835852175559842317842344037312584nat);
    lemma_be_nat_take_step(s, 20);
    assert(be_nat(s.take(21)) == 70724727134521301978156943319633367640073552021625nat);
    lemma_be_nat_take_step(s, 21);
    assert(be_nat(s.take(22)) == 18105530146437453306408177489826142115858829317536185nat);
    lemma_be_nat_take_step(s, 22);
    assert(be_nat(s.take(23)) == 4635015717487988046440493437395492381659860305289263472nat);
    lemma_be_nat_take_step(s, 23);
    assert(be_nat(s.take(24)) == 1186564023676924939888766319973246049704924238154051448977nat);
    lemma_be_nat_take_step(s, 24);
    assert(be_nat(s.take(25)) == 303760390061292784611524177913150988724460604967437170938179nat);
    lemma_be_nat_take_step(s, 25);
    assert(be_nat(s.take(26)) == 77762659855690952860550189545766653113461914871663915760174049nat);
    lemma_be_nat_take_step(s, 26);
    assert(be_nat(s.take(27)) == 19907240923056883932300848523716263197046250207145962434604556789nat);
    lemma_be_nat_take_step(s, 27);
    assert(be_nat(s.take(28)) == 5096253676302562286669017222071363378443840053029366383258766538131nat);
    lemma_be_nat_take_step(s, 28);
    assert(be_nat(s.take(29)) == 1304640941133455945387268408850269024881623053575517794114244233761776nat);
    lemma_be_nat_take_step(s, 29);
    assert(be_nat(s.take(30)) == 333988080930164722019140712665668870369695501715332555293246523843014656nat);
    lemma_be_nat_take_step(s, 30);
    assert(be_nat(s.take(31)) == 85500948718122168836900022442411230814642048439125134155071110103811751936nat);
    lemma_be_nat_take_step(s, 31);
    assert(be_nat(s.take(32)) == 21888242871839275222246405745257275088548364400416034343698204186575808495617nat);
    assert(s.take(32) =~= s);
}

/// 256 raised to the power `k`: the weight of a byte `k` positions from the
/// end of a big-endian string.
pub open spec fn pow256(k: nat) -> nat
    decreases k,
{
    if k == 0 {
        1nat
    } else {
        256 * pow256((k - 1) as nat)
    }
}

/// Every byte weight is positive.
pub proof fn lemma_pow256_pos(k: nat)
    ensures
        pow256(k) >= 1,
    decreases k,
{
    if k > 0 {
        lemma_pow256_pos((k - 1) as nat);
    }
}

/// Byte weights grow with the exponent.
pub proof fn lemma_pow256_mono(i: nat, j: nat)
    requires
        i <= j,
    ensures
        pow256(i) <= pow256(j),
{
    lemma_pow256_add(i, (j - i) as nat);
    lemma_pow256_pos((j - i) as nat);
    assert(pow256(i) * 1 <= pow256(i) * pow256((j - i) as nat)) by (nonlinear_arith)
        requires
            pow256((j - i) as nat) >= 1,
            pow256(i) >= 0,
    {}
}

/// The byte weights that the contracts in this crate mention, evaluated.
pub proof fn lemma_pow256_values()
    ensures
        pow256(0) == 1nat,
        pow256(1) == 0x100nat,
        pow256(2) == 0x1_0000nat,
        pow256(3) == 0x100_0000nat,
        pow256(4) == 0x1_0000_0000nat,
        pow256(5) == 0x100_0000_0000nat,
        pow256(6) == 0x1_0000_0000_0000nat,
        pow256(7) == 0x100_0000_0000_0000nat,
        pow256(8) == 0x1_0000_0000_0000_0000nat,
        pow256(16) == 0x1_0000_0000_0000_0000_0000_0000_0000_0000nat,
        pow256(24) == pow256(8) * pow256(16),
        pow256(32) == pow256(16) * pow256(16),
{
    assert(pow256(0) == 1);
    assert(pow256(1) == 256);
    assert(pow256(2) == 0x1_0000);
    assert(pow256(3) == 0x100_0000);
    assert(pow256(4) == 0x1_0000_0000);
    assert(pow256(5) == 0x100_0000_0000);
    assert(pow256(6) == 0x1_0000_0000_0000);
    assert(pow256(7) == 0x100_0000_0000_0000);
    assert(pow256(8) == 0x1_0000_0000_0000_0000);
    lemma_pow256_add(8, 8);
    assert(pow256(16) == pow256(8) * pow256(8));
    lemma_pow256_add(8, 16);
    lemma_pow256_add(16, 16);
}

/// `pow256` turns addition of exponents into multiplication.
pub proof fn lemma_pow256_add(a: nat, b: nat)
    ensures
        pow256(a + b) == pow256(a) * pow256(b),
    decreases b,
{
    if b == 0 {
        assert(pow256(0) == 1);
        assert(pow256(a) * 1 == pow256(a));
    } else {
        lemma_pow256_add(a, (b - 1) as nat);
        assert(pow256(a + b) == 256 * pow256((a + b - 1) as nat));
        assert(pow256((a + b - 1) as nat) == pow256(a) * pow256((b - 1) as nat));
        assert(256 * (pow256(a) * pow256((b - 1) as nat)) == pow256(a) * (256 * pow256(
            (b - 1) as nat,
        ))) by (nonlinear_arith);
        assert(pow256(b) == 256 * pow256((b - 1) as nat));
    }
}

/// A `k`-byte big-endian string encodes a number below `pow256(k)`.
pub proof fn lemma_be_nat_bound(s: Seq<u8>)
    ensures
        be_nat(s) < pow256(s.len()),
    decreases s.len(),
{
    if s.len() == 0 {
    } else {
        lemma_be_nat_bound(s.drop_last());
        assert(be_nat(s.drop_last()) * 256 + 256 <= pow256((s.len() - 1) as nat) * 256)
            by (nonlinear_arith)
            requires
                be_nat(s.drop_last()) < pow256((s.len() - 1) as nat),
        {}
        assert(pow256((s.len() - 1) as nat) * 256 == pow256(s.len()));
    }
}

/// Concatenation splits a big-endian value into a high and a low part.
pub proof fn lemma_be_nat_split(a: Seq<u8>, b: Seq<u8>)
    ensures
        be_nat(a + b) == be_nat(a) * pow256(b.len()) + be_nat(b),
    decreases b.len(),
{
    if b.len() == 0 {
        assert(a + b =~= a);
        assert(pow256(0) == 1);
        assert(be_nat(b) == 0);
        assert(be_nat(a) * 1 + 0 == be_nat(a));
    } else {
        lemma_be_nat_split(a, b.drop_last());
        assert((a + b).drop_last() =~= a + b.drop_last());
        assert((a + b).last() == b.last());
        let x = be_nat(a);
        let bd = be_nat(b.drop_last());
        let pb = pow256((b.len() - 1) as nat);
        assert(be_nat(a + b) == be_nat(a + b.drop_last()) * 256 + b.last());
        assert(be_nat(a + b.drop_last()) == x * pb + bd);
        assert((x * pb + bd) * 256 == x * (pb * 256) + bd * 256) by (nonlinear_arith);
        assert(pb * 256 == pow256(b.len()));
        assert(be_nat(b) == bd * 256 + b.last());
        assert(be_nat(a + b) == x * pow256(b.len()) + be_nat(b));
    }
}

/// Equal-length big-endian strings that encode the same number are equal.
pub proof fn lemma_be_nat_injective(a: Seq<u8>, b: Seq<u8>)
    requires
        a.len() == b.len(),
        be_nat(a) == be_nat(b),
    ensures
        a =~= b,
    decreases a.len(),
{
    if a.len() == 0 {
    } else {
        let la = a.last() as nat;
        let lb = b.last() as nat;
        let x = be_nat(a.drop_last());
        let y = be_nat(b.drop_last());
        assert(la == lb && x == y) by (nonlinear_arith)
            requires
                x * 256 + la == y * 256 + lb,
                0 <= la < 256,
                0 <= lb < 256,
        {}
        lemma_be_nat_injective(a.drop_last(), b.drop_last());
        assert(a =~= b) by {
            assert(forall|i: int|
                0 <= i < a.len() - 1 ==> a[i] == a.drop_last()[i] && b[i] == b.drop_last()[i]);
        }
    }
}

/// A big-endian string encodes zero exactly when every byte is zero.
pub proof fn lemma_be_nat_zero(s: Seq<u8>)
    ensures
        be_nat(s) == 0 <==> (forall|i: int| 0 <= i < s.len() ==> s[i] == 0),
    decreases s.len(),
{
    if s.len() == 0 {
    } else {
        lemma_be_nat_zero(s.drop_last());
        if be_nat(s) == 0 {
            assert(forall|i: int|
                0 <= i < s.len() - 1 ==> s[i] == s.drop_last()[i]);
        } else {
            if forall|i: int| 0 <= i < s.len() ==> s[i] == 0 {
                assert(forall|i: int|
                    0 <= i < s.len() - 1 ==> s.drop_last()[i] == s[i]);
                assert(be_nat(s.drop_last()) == 0);
                assert(s.last() == 0);
            }
        }
    }
}

/// If two equal-length strings share a prefix and differ at index `i` in
/// favour of `b`, then `a` encodes the smaller number.
pub proof fn lemma_be_nat_lt_at(a: Seq<u8>, b: Seq<u8>, i: int)
    requires
        a.len() == b.len(),
        0 <= i < a.len(),
        a.take(i) =~= b.take(i),
        a[i] < b[i],
    ensures
        be_nat(a) < be_nat(b),
{
    let n = a.len() as int;
    let w = pow256((n - i - 1) as nat);
    assert(a =~= a.take(i + 1) + a.skip(i + 1));
    assert(b =~= b.take(i + 1) + b.skip(i + 1));
    lemma_be_nat_split(a.take(i + 1), a.skip(i + 1));
    lemma_be_nat_split(b.take(i + 1), b.skip(i + 1));
    lemma_be_nat_take_step(a, i);
    lemma_be_nat_take_step(b, i);
    lemma_be_nat_bound(a.skip(i + 1));
    lemma_be_nat_bound(b.skip(i + 1));
    let ha = be_nat(a.take(i + 1));
    let hb = be_nat(b.take(i + 1));
    assert(ha + 1 <= hb);
    assert(ha * w + w <= hb * w) by (nonlinear_arith)
        requires
            ha + 1 <= hb,
            w >= 0,
    {}
}

/// Appends a byte slice to a byte vector.
pub fn bytes_append(v: &mut Vec<u8>, s: &[u8])
    ensures
        final(v)@ == old(v)@ + s@,
{
    let mut i: usize = 0;
    while i < s.len()
        invariant
            i <= s@.len(),
            v@ == old(v)@ + s@.take(i as int),
        decreases s@.len() - i,
    {
        v.push(s[i]);
        proof {
            assert(old(v)@ + s@.take(i as int) + seq![s@[i as int]] =~= old(v)@ + s@.take(i + 1));
        }
        i = i + 1;
    }
    proof {
        assert(s@.take(s@.len() as int) =~= s@);
    }
}

/// Compares two 32-byte values for equality.
pub fn bytes32_eq(a: &[u8; 32], b: &[u8; 32]) -> (r: bool)
    ensures
        r == (a@ == b@),
{
    let mut i: usize = 0;
    while i < 32
        invariant
            i <= 32,
            forall|j: int| 0 <= j < i ==> a@[j] == b@[j],
        decreases 32 - i,
    {
        if a[i] != b[i] {
            proof {
                assert(a@[i as int] != b@[i as int]);
            }
            return false;
        }
        i = i + 1;
    }
    proof {
        assert(a@ =~= b@);
    }
    true
}

/// Compares two 32-byte big-endian values numerically.
pub fn be32_lt(a: &[u8; 32], b: &[u8; 32]) -> (r: bool)
    ensures
        r == (be_nat(a@) < be_nat(b@)),
{
    let mut i: usize = 0;
    while i < 32
        invariant
            i <= 32,
            a@.take(i as int) =~= b@.take(i as int),
        decreases 32 - i,
    {
        let ai = a[i];
        let bi = b[i];
        if ai < bi {
            proof {
                lemma_be_nat_lt_at(a@, b@, i as int);
            }
            return true;
        }
        if bi < ai {
            proof {
                lemma_be_nat_lt_at(b@, a@, i as int);
            }
            return false;
        }
        proof {
            assert(a@.take(i + 1) =~= b@.take(i + 1));
        }
        i = i + 1;
    }
    proof {
        assert(a@.take(32) =~= a@);
        assert(b@.take(32) =~= b@);
        assert(a@ =~= b@);
    }
    false
}

/// Reads a 32-byte big-endian value as a `u64`, or reports that it is too
/// large for one.
pub fn be32_as_u64(b: &[u8; 32]) -> (r: Option<u64>)
    ensures
        match r {
            Some(v) => v as nat == be_nat(b@),
            None => be_nat(b@) >= pow256(8),
        },
{
    proof {
        assert(b@ =~= b@.take(24) + b@.skip(24));
        lemma_be_nat_split(b@.take(24), b@.skip(24));
        lemma_be_nat_bound(b@.skip(24));
        lemma_be_nat_zero(b@.take(24));
        lemma_pow256_values();
    }
    let mut i: usize = 0;
    while i < 24
        invariant
            i <= 24,
            forall|j: int| 0 <= j < i ==> b@[j] == 0,
        decreases 24 - i,
    {
        if b[i] != 0 {
            proof {
                lemma_be_nat_zero(b@.take(24));
                assert(b@ =~= b@.take(24) + b@.skip(24));
                lemma_be_nat_split(b@.take(24), b@.skip(24));
                assert(b@.take(24)[i as int] != 0);
                assert(be_nat(b@.take(24)) >= 1);
                assert(be_nat(b@.take(24)) * pow256(8) >= 1 * pow256(8)) by (nonlinear_arith)
                    requires
                        be_nat(b@.take(24)) >= 1,
                        pow256(8) >= 0,
                {}
            }
            return None;
        }
        i = i + 1;
    }
    proof {
        assert(forall|j: int| 0 <= j < 24 ==> b@.take(24)[j] == b@[j]);
        assert(be_nat(b@.take(24)) == 0);
    }
    let mut v: u64 = 0;
    let mut k: usize = 24;
    while k < 32
        invariant
            24 <= k <= 32,
            v as nat == be_nat(b@.skip(24).take(k - 24)),
            v < pow256((k - 24) as nat),
        decreases 32 - k,
    {
        proof {
            lemma_be_nat_take_step(b@.skip(24), k - 24);
            lemma_pow256_mono((k - 24 + 1) as nat, 8);
            lemma_pow256_values();
            assert(v * 256 + b@[k as int] < pow256((k - 24) as nat) * 256) by (nonlinear_arith)
                requires
                    v < pow256((k - 24) as nat),
                    0 <= b@[k as int] < 256,
            {}
            assert(pow256((k - 24) as nat) * 256 == pow256((k - 24 + 1) as nat));
            assert(b@.skip(24)[k - 24] == b@[k as int]);
        }
        v = v * 256 + (b[k] as u64);
        k = k + 1;
    }
    proof {
        assert(b@.skip(24).take(8) =~= b@.skip(24));
        assert(be_nat(b@.take(24)) == 0);
        assert(be_nat(b@) == be_nat(b@.take(24)) * pow256(8) + be_nat(b@.skip(24)));
        assert(be_nat(b@) == be_nat(b@.skip(24)));
    }
    Some(v)
}

/// Reads the low 16 bytes of a 32-byte big-endian value as a `u128`.
pub fn be32_tail_u128(b: &[u8; 32]) -> (v: u128)
    ensures
        v as nat == be_nat(b@.skip(16)),
{
    let mut v: u128 = 0;
    let mut k: usize = 16;
    while k < 32
        invariant
            16 <= k <= 32,
            v as nat == be_nat(b@.skip(16).take(k - 16)),
            v < pow256((k - 16) as nat),
        decreases 32 - k,
    {
        proof {
            lemma_be_nat_take_step(b@.skip(16), k - 16);
            lemma_pow256_mono((k - 16 + 1) as nat, 16);
            lemma_pow256_values();
            assert(v * 256 + b@[k as int] < pow256((k - 16) as nat) * 256) by (nonlinear_arith)
                requires
                    v < pow256((k - 16) as nat),
                    0 <= b@[k as int] < 256,
            {}
            assert(pow256((k - 16) as nat) * 256 == pow256((k - 16 + 1) as nat));
            assert(b@.skip(16)[k - 16] == b@[k as int]);
        }
        v = v * 256 + (b[k] as u128);
        k = k + 1;
    }
    proof {
        assert(b@.skip(16).take(16) =~= b@.skip(16));
    }
    v
}

/// Compares the high 16 bytes of two 32-byte big-endian values.
pub fn be32_prefix16_eq(a: &[u8; 32], b: &[u8; 32]) -> (r: bool)
    ensures
        r == (a@.take(16) == b@.take(16)),
{
    let mut i: usize = 0;
    while i < 16
        invariant
            i <= 16,
            forall|j: int| 0 <= j < i ==> a@[j] == b@[j],
        decreases 16 - i,
    {
        if a[i] != b[i] {
            proof {
                assert(a@.take(16)[i as int] != b@.take(16)[i as int]);
            }
            return false;
        }
        i = i + 1;
    }
    proof {
        assert(a@.take(16) =~= b@.take(16));
    }
    true
}

/// Relies on `ark_ff::PrimeField::from_be_bytes_mod_order` for BN254's
/// scalar field, and on `ark_ff::BigInteger::to_bytes_be`, which yields the
/// full-width (32-byte) big-endian encoding: the result is the canonical
/// encoding of the input value reduced modulo the field modulus.
#[verifier::external_body]
pub fn fr_reduce_be(b: &[u8; 32]) -> (r: [u8; 32])
    ensures
        be_nat(r@) == be_nat(b@) % p_nat(),
        be_nat(r@) < p_nat(),
{
    let e = <ark_bn254::Fr as ark_ff::PrimeField>::from_be_bytes_mod_order(b);
    ark_ff::BigInteger::to_bytes_be(&ark_ff::PrimeField::into_bigint(e)).try_into().unwrap()
}

/// Relies on `ark_ff::PrimeField::from_le_bytes_mod_order` for BN254's
/// scalar field, and on `ark_ff::BigInteger::to_bytes_be` as above: the
/// result is the canonical big-endian encoding of the little-endian input
/// value reduced modulo the field modulus.
#[verifier::external_body]
pub fn fr_reduce_le(b: &[u8; 32]) -> (r: [u8; 32])
    ensures
        be_nat(r@) == le_nat(b@) % p_nat(),
        be_nat(r@) < p_nat(),
{
    let e = <ark_bn254::Fr as ark_ff::PrimeField>::from_le_bytes_mod_order(b);
    ark_ff::BigInteger::to_bytes_be(&ark_ff::PrimeField::into_bigint(e)).try_into().unwrap()
}

} // verus!
