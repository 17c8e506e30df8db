use vstd::prelude::*;
use vstd::arithmetic::power2::{pow2, lemma_pow2_adds, lemma_pow2_pos, lemma2_to64};
use vstd::arithmetic::div_mod::{
    lemma_mod_mod, lemma_mod_breakdown, lemma_div_denominator,
    lemma_fundamental_div_mod_converse_div, lemma_fundamental_div_mod_converse_mod,
    lemma_small_mod,
};

verus! {

/// The little-endian value of a byte sequence: `s[0] + 256 * s[1] + 65536 * s[2] + ...`.
pub open spec fn le_value(s: Seq<u8>) -> nat
    decreases s.len(),
{
    if s.len() == 0 {
        0
    } else {
        s[0] as nat + 256 * le_value(s.drop_first())
    }
}

/// The `n` bits of `s` that start at bit `pos`, bits being numbered from the
/// least significant bit of the first byte, read as a little-endian number.
pub open spec fn bits_at(s: Seq<u8>, pos: nat, n: nat) -> nat {
    (le_value(s) / pow2(pos)) % pow2(n)
}

pub proof fn lemma_pow2_8(k: nat)
    ensures
        pow2(8 * (k + 1)) == 256 * pow2(8 * k),
{
    lemma_pow2_adds(8 * k, 8);
    lemma2_to64();
    assert(8 * (k + 1) == 8 * k + 8) by (nonlinear_arith);
}

pub proof fn lemma_le_value_bound(s: Seq<u8>)
    ensures
        le_value(s) < pow2(8 * s.len()),
    decreases s.len(),
{
    if s.len() == 0 {
        lemma2_to64();
    } else {
        let r = s.drop_first();
        lemma_le_value_bound(r);
        lemma_pow2_8(r.len());
        let a = le_value(r);
        let p = pow2(8 * r.len());
        assert(256 * a + 255 < 256 * p) by (nonlinear_arith)
            requires
                a < p,
        ;
        assert(s.len() == r.len() + 1);
    }
}

/// Splitting a byte sequence splits its little-endian value.
pub proof fn lemma_le_value_split(s: Seq<u8>, i: int)
    requires
        0 <= i <= s.len(),
    ensures
        le_value(s) == le_value(s.take(i)) + pow2(8 * (i as nat)) * le_value(s.skip(i)),
    decreases i,
{
    if i == 0 {
        lemma2_to64();
        assert(s.take(0).len() == 0);
        assert(s.skip(0) =~= s);
        assert(le_value(s.take(0)) == 0);
        assert(pow2(8 * (i as nat)) == 1);
        assert(le_value(s.skip(i)) == le_value(s));
        assert(le_value(s) == le_value(s.take(i)) + pow2(8 * (i as nat)) * le_value(s.skip(i))) by (nonlinear_arith)
            requires
                le_value(s.take(i)) == 0,
                pow2(8 * (i as nat)) == 1,
                le_value(s.skip(i)) == le_value(s),
        ;
    } else {
        let r = s.drop_first();
        lemma_le_value_split(r, i - 1);
        assert(s.take(i).drop_first() =~= r.take(i - 1));
        assert(s.take(i)[0] == s[0]);
        assert(le_value(s.take(i)) == s[0] as nat + 256 * le_value(r.take(i - 1)));
        assert(le_value(s) == s[0] as nat + 256 * le_value(r));
        assert(s.skip(i) =~= r.skip(i - 1));
        lemma_pow2_8((i - 1) as nat);
        assert(8 * (i as nat) == 8 * ((i - 1) as nat + 1));
        let a = le_value(r.take(i - 1));
        let b = le_value(r.skip(i - 1));
        let p = pow2(8 * ((i - 1) as nat));
        assert(pow2(8 * (i as nat)) == 256 * p);
        assert(le_value(r) == a + p * b);
        assert(256 * (a + p * b) == 256 * a + (256 * p) * b) by (nonlinear_arith);
        assert(le_value(s) == s[0] as nat + 256 * a + (256 * p) * b);
        assert(le_value(s.take(i)) == s[0] as nat + 256 * a);
        assert(le_value(s.skip(i)) == b);
        assert(le_value(s) == le_value(s.take(i)) + pow2(8 * (i as nat)) * le_value(s.skip(i))) by (nonlinear_arith)
            requires
                le_value(s) == s[0] as nat + 256 * a + (256 * p) * b,
                le_value(s.take(i)) == s[0] as nat + 256 * a,
                le_value(s.skip(i)) == b,
                pow2(8 * (i as nat)) == 256 * p,
        ;
    }
}

/// Shifting right by `a` then by `b` is shifting right by `a + b`.
pub proof fn lemma_div_pow2_twice(x: nat, a: nat, b: nat)
    ensures
        (x / pow2(a)) / pow2(b) == x / pow2(a + b),
{
    lemma_pow2_pos(a);
    lemma_pow2_pos(b);
    lemma_pow2_adds(a, b);
    lemma_div_denominator(x as int, pow2(a) as int, pow2(b) as int);
}

/// The low `b` bits of the low `a` bits are the low `b` bits.
pub proof fn lemma_mod_pow2_twice(x: nat, a: nat, b: nat)
    requires
        b <= a,
    ensures
        (x % pow2(a)) % pow2(b) == x % pow2(b),
{
    lemma_pow2_pos(b);
    lemma_pow2_pos((a - b) as nat);
    lemma_pow2_adds(b, (a - b) as nat);
    lemma_mod_mod(x as int, pow2(b) as int, pow2((a - b) as nat) as int);
}

/// `x mod 2^(b + c) == x mod 2^b + 2^b * ((x / 2^b) mod 2^c)`.
pub proof fn lemma_mod_pow2_breakdown(x: nat, b: nat, c: nat)
    ensures
        x % pow2(b + c) == x % pow2(b) + pow2(b) * ((x / pow2(b)) % pow2(c)),
{
    lemma_pow2_pos(b);
    lemma_pow2_pos(c);
    lemma_pow2_adds(b, c);
    lemma_mod_breakdown(x as int, pow2(b) as int, pow2(c) as int);
}

/// Taking bits `[b, a)` of the low `a` bits.
pub proof fn lemma_div_of_mod_pow2(x: nat, a: nat, b: nat)
    requires
        b <= a,
    ensures
        (x % pow2(a)) / pow2(b) == (x / pow2(b)) % pow2((a - b) as nat),
{
    let c = (a - b) as nat;
    lemma_pow2_pos(b);
    lemma_pow2_pos(c);
    lemma_pow2_adds(b, c);
    assert(b + c == a);
    let y: int = pow2(b) as int;
    let z: int = pow2(c) as int;
    let xi: int = x as int;
    lemma_mod_breakdown(xi, y, z);
    assert(pow2(a) as int == y * z);
    let q: int = (xi / y) % z;
    let r: int = xi % y;
    let m: int = xi % (y * z);
    assert(m == y * q + r);
    assert(m == q * y + r) by (nonlinear_arith)
        requires
            m == y * q + r,
    ;
    lemma_fundamental_div_mod_converse_div(m, y, q, r);
}

/// Reading `a + b` bits is reading `a` bits and then `b` more bits.
pub proof fn lemma_bits_split(s: Seq<u8>, p: nat, a: nat, b: nat)
    ensures
        bits_at(s, p, a + b) == bits_at(s, p, a) + pow2(a) * bits_at(s, p + a, b),
{
    let y = le_value(s) / pow2(p);
    lemma_mod_pow2_breakdown(y, a, b);
    lemma_div_pow2_twice(le_value(s), p, a);
}

/// The low `b` bits of an `a`-bit read are the `b`-bit read.
pub proof fn lemma_bits_prefix(s: Seq<u8>, p: nat, a: nat, b: nat)
    requires
        b <= a,
    ensures
        bits_at(s, p, a) % pow2(b) == bits_at(s, p, b),
{
    lemma_mod_pow2_twice(le_value(s) / pow2(p), a, b);
}

/// Dropping the low `b` bits of an `a`-bit read.
pub proof fn lemma_bits_shift(s: Seq<u8>, p: nat, a: nat, b: nat)
    requires
        b <= a,
    ensures
        bits_at(s, p, a) / pow2(b) == bits_at(s, p + b, (a - b) as nat),
{
    let y = le_value(s) / pow2(p);
    lemma_div_of_mod_pow2(y, a, b);
    lemma_div_pow2_twice(le_value(s), p, b);
}

/// A read bounded by `n` bits is below `2^n`.
pub proof fn lemma_bits_bound(s: Seq<u8>, p: nat, n: nat)
    ensures
        bits_at(s, p, n) < pow2(n),
{
    lemma_pow2_pos(n);
}

/// Reading whole bytes gives the little-endian value of those bytes.
pub proof fn lemma_bits_of_bytes(s: Seq<u8>, i: int, k: int)
    requires
        0 <= i,
        0 <= k,
        i + k <= s.len(),
    ensures
        bits_at(s, 8 * (i as nat), 8 * (k as nat)) == le_value(s.subrange(i, i + k)),
{
    let t = s.skip(i);
    lemma_le_value_split(s, i);
    lemma_le_value_bound(s.take(i));
    assert(s.take(i).len() == i);
    lemma_pow2_pos(8 * (i as nat));
    lemma_fundamental_div_mod_converse_div(
        le_value(s) as int,
        pow2(8 * (i as nat)) as int,
        le_value(t) as int,
        le_value(s.take(i)) as int,
    );
    assert(le_value(s) / pow2(8 * (i as nat)) == le_value(t)) by (nonlinear_arith)
        requires
            le_value(s) == le_value(s.take(i)) + pow2(8 * (i as nat)) * le_value(t),
            le_value(t) as int == (le_value(s) as int) / (pow2(8 * (i as nat)) as int),
    ;
    lemma_le_value_split(t, k);
    lemma_le_value_bound(t.take(k));
    assert(t.take(k).len() == k);
    lemma_pow2_pos(8 * (k as nat));
    lemma_fundamental_div_mod_converse_mod(
        le_value(t) as int,
        pow2(8 * (k as nat)) as int,
        le_value(t.skip(k)) as int,
        le_value(t.take(k)) as int,
    );
    assert(t.take(k) =~= s.subrange(i, i + k));
}

/// A little-endian value of at most four bytes, padded with zeros.
pub proof fn lemma_le_value_4(s: Seq<u8>)
    requires
        s.len() == 4,
    ensures
        le_value(s) == s[0] as nat + 256 * (s[1] as nat + 256 * (s[2] as nat + 256 * s[3] as nat)),
{
    let s1 = s.drop_first();
    let s2 = s1.drop_first();
    let s3 = s2.drop_first();
    let s4 = s3.drop_first();
    assert(s4.len() == 0);
    assert(s1[0] == s[1] && s2[0] == s[2] && s3[0] == s[3]);
    assert(le_value(s3) == s[3] as nat + 256 * le_value(s4));
    assert(le_value(s2) == s[2] as nat + 256 * le_value(s3));
    assert(le_value(s1) == s[1] as nat + 256 * le_value(s2));
    assert(le_value(s4) == 0);
}

/// Trailing zero bytes do not change a little-endian value.
pub proof fn lemma_le_value_zero_tail(s: Seq<u8>, k: int)
    requires
        0 <= k <= s.len(),
        forall|j: int| k <= j < s.len() ==> s[j] == 0,
    ensures
        le_value(s) == le_value(s.take(k)),
    decreases s.len(),
{
    if s.len() == 0 {
        assert(s.take(k).len() == 0);
    } else if k == 0 {
        lemma_le_value_zero_tail(s.drop_first(), 0);
        assert(s.take(0).len() == 0);
        assert(s.drop_first().take(0).len() == 0);
    } else {
        lemma_le_value_zero_tail(s.drop_first(), k - 1);
        assert(s.take(k).drop_first() =~= s.drop_first().take(k - 1));
    }
}

} // verus!
