//! Byte strings read and written as big-endian unsigned integers.
//!
//! The canonical wire format is built from 32-byte big-endian fields, and
//! each field is handled here as two 16-byte halves carried in `u128`
//! values. [`be_val`] gives the numeric reading of a byte string, and the
//! executable helpers convert between byte strings and `u128` halves,
//! proved against [`be_val`].

use vstd::arithmetic::div_mod::{
    lemma_div_basics, lemma_div_denominator, lemma_mod_breakdown,
    lemma_mod_division_less_than_divisor, lemma_small_mod,
};
use vstd::arithmetic::mul::{lemma_mul_is_associative, lemma_mul_is_commutative};
use vstd::prelude::*;

verus! {

/// The value of a byte string read as one big-endian unsigned integer.
pub open spec fn be_val(s: Seq<u8>) -> nat
    decreases s.len(),
{
    if s.len() == 0 {
        0
    } else {
        be_val(s.drop_last()) * 256 + s.last() as nat
    }
}

/// The value of a byte string read least-significant byte first.
/// Used only to reason about buffers that are filled from the low end.
pub open spec fn le_val(s: Seq<u8>) -> nat
    decreases s.len(),
{
    if s.len() == 0 {
        0
    } else {
        s.first() as nat + 256 * le_val(s.drop_first())
    }
}

/// 256 raised to the power `n`: the weight of a byte `n` places before
/// the end of a big-endian byte string.
pub open spec fn pow256(n: nat) -> nat
    decreases n,
{
    if n == 0 {
        1
    } else {
        256 * pow256((n - 1) as nat)
    }
}

pub proof fn lemma_pow256_pos(n: nat)
    ensures
        pow256(n) >= 1,
    decreases n,
{
    if n > 0 {
        lemma_pow256_pos((n - 1) as nat);
    }
}

/// `pow256` grows with its argument.
pub proof fn lemma_pow256_le(m: nat, n: nat)
    requires
        m <= n,
    ensures
        pow256(m) <= pow256(n),
    decreases n,
{
    if m < n {
        lemma_pow256_le(m, (n - 1) as nat);
        lemma_pow256_pos((n - 1) as nat);
    }
}

/// The two byte-string lengths used by the codec have these weights.
pub proof fn lemma_pow256_values()
    ensures
        pow256(16) == 0x100000000000000000000000000000000,
        pow256(32) == 0x10000000000000000000000000000000000000000000000000000000000000000,
{
    reveal_with_fuel(pow256, 33);
}

/// Concatenation shifts the left part by the weight of the right part.
pub proof fn lemma_be_val_concat(a: Seq<u8>, b: Seq<u8>)
    ensures
        be_val(a + b) == be_val(a) * pow256(b.len()) + be_val(b),
    decreases b.len(),
{
    if b.len() == 0 {
        assert(a + b =~= a);
        assert(be_val(b) == 0);
        assert(pow256(0) == 1);
    } else {
        lemma_be_val_concat(a, b.drop_last());
        let bd = b.drop_last();
        assert((a + b).drop_last() =~= a + bd);
        assert((a + b).last() == b.last());
        let va = be_val(a) as int;
        let vbd = be_val(bd) as int;
        let p = pow256(bd.len()) as int;
        let lb = b.last() as int;
        assert(be_val(a + b) == be_val(a + bd) * 256 + lb);
        assert(be_val(a + bd) == va * p + vbd);
        assert(be_val(b) == vbd * 256 + lb);
        assert(pow256(b.len()) == 256 * p);
        assert((va * p + vbd) * 256 + lb == va * (256 * p) + (vbd * 256 + lb)) by (nonlinear_arith);
        assert(va * (256 * p) >= 0) by (nonlinear_arith)
            requires
                va >= 0,
                p >= 0,
        ;
        assert(be_val(a + b) == va * (256 * p) + be_val(b));
        assert(be_val(a) * pow256(b.len()) == va * (256 * p));
    }
}

/// A big-endian value is zero exactly when every byte is zero.
pub proof fn lemma_be_val_zero(s: Seq<u8>)
    ensures
        (be_val(s) == 0) <==> (forall|i: int| 0 <= i < s.len() ==> s[i] == 0),
    decreases s.len(),
{
    if s.len() == 0 {
    } else {
        lemma_be_val_zero(s.drop_last());
        assert forall|i: int| 0 <= i < s.len() - 1 implies s.drop_last()[i] == s[i] by {}
        if be_val(s) == 0 {
            assert(be_val(s.drop_last()) == 0);
            assert(s[s.len() - 1] == s.last());
            assert forall|i: int| 0 <= i < s.len() implies s[i] == 0 by {
                if i < s.len() - 1 {
                    assert(s.drop_last()[i] == 0);
                }
            }
        } else {
            if forall|i: int| 0 <= i < s.len() ==> s[i] == 0 {
                assert(s.last() == s[s.len() - 1]);
                assert(forall|i: int| 0 <= i < s.len() - 1 ==> s.drop_last()[i] == 0);
                assert(be_val(s.drop_last()) == 0);
                assert(false);
            }
        }
    }
}

/// Appending a byte weighs it by the length of what stood before.
pub proof fn lemma_le_val_push(s: Seq<u8>, b: u8)
    ensures
        le_val(s.push(b)) == le_val(s) + b * pow256(s.len()),
    decreases s.len(),
{
    if s.len() == 0 {
        assert(s.push(b).drop_first() =~= Seq::<u8>::empty());
        assert(le_val(Seq::<u8>::empty()) == 0);
        assert(le_val(s) == 0);
        assert(pow256(0) == 1);
        assert(le_val(s.push(b)) == b);
    } else {
        assert(s.push(b).drop_first() =~= s.drop_first().push(b));
        lemma_le_val_push(s.drop_first(), b);
        let sd = s.drop_first();
        let v = b as int;
        let p = pow256(sd.len()) as int;
        assert(le_val(s.push(b)) == s.first() + 256 * le_val(sd.push(b)));
        assert(le_val(s) == s.first() + 256 * le_val(sd));
        assert(pow256(s.len()) == 256 * p);
        assert(256 * (v * p) == v * (256 * p)) by {
            lemma_mul_is_associative(v, 256, p);
            lemma_mul_is_commutative(v, 256);
            lemma_mul_is_associative(256, v, p);
        }
    }
}

/// Reads the 16 bytes at `start` as one big-endian `u128`.
pub fn read_be_u128(b: &[u8], start: usize) -> (r: u128)
    requires
        start + 16 <= b@.len(),
    ensures
        r == be_val(b@.subrange(start as int, start as int + 16)),
{
    let n = b.len();
    let mut acc: u128 = 0;
    let mut i: usize = 0;
    while i < 16
        invariant
            n == b@.len(),
            start + 16 <= b@.len(),
            i <= 16,
            acc == be_val(b@.subrange(start as int, start as int + i)),
            acc < pow256(i as nat),
        decreases 16 - i,
    {
        proof {
            lemma_pow256_le((i + 1) as nat, 16);
            lemma_pow256_values();
            let pre = b@.subrange(start as int, start as int + i);
            let post = b@.subrange(start as int, start as int + i + 1);
            assert(post.drop_last() =~= pre);
        }
        let byte = b[start + i];
        acc = acc * 256 + byte as u128;
        i = i + 1;
    }
    acc
}

/// Appends the 16-byte big-endian form of `v`, leaving what stood in
/// `out` before untouched.
pub fn push_be_u128(out: &mut Vec<u8>, v: u128)
    ensures
        final(out)@.len() == old(out)@.len() + 16,
        final(out)@.subrange(0, old(out)@.len() as int) == old(out)@,
        be_val(final(out)@.subrange(old(out)@.len() as int, final(out)@.len() as int)) == v,
{
    let mut tmp: Vec<u8> = Vec::new();
    let mut x: u128 = v;
    let mut i: usize = 0;
    proof {
        lemma_div_basics(v as int);
        lemma_mod_division_less_than_divisor(v as int, 1);
        assert(pow256(0) == 1);
        assert(le_val(tmp@) == 0);
    }
    while i < 16
        invariant
            tmp@.len() == i,
            i <= 16,
            x == v as nat / pow256(i as nat),
            le_val(tmp@) == v as nat % pow256(i as nat),
        decreases 16 - i,
    {
        proof {
            lemma_pow256_pos(i as nat);
        }
        let byte = (x % 256) as u8;
        proof {
            let p = pow256(i as nat) as int;
            lemma_le_val_push(tmp@, byte);
            lemma_mod_breakdown(v as int, p, 256);
            lemma_div_denominator(v as int, p, 256);
            lemma_mul_is_commutative(p, 256);
            lemma_mul_is_commutative(p, (x % 256) as int);
            assert(pow256((i + 1) as nat) == 256 * pow256(i as nat));
        }
        tmp.push(byte);
        x = x / 256;
        i = i + 1;
    }
    proof {
        lemma_pow256_values();
        lemma_small_mod(v as nat, pow256(16));
    }
    let ghost base = out@.len() as int;
    let mut j: usize = 0;
    while j < 16
        invariant
            tmp@.len() == 16,
            le_val(tmp@) == v,
            j <= 16,
            out@.len() == base + j,
            base == old(out)@.len(),
            out@.subrange(0, base) =~= old(out)@,
            be_val(out@.subrange(base, base + j)) == le_val(tmp@.subrange(16 - j, 16)),
        decreases 16 - j,
    {
        let byte = tmp[15 - j];
        proof {
            let app = out@.subrange(base, base + j);
            let suffix = tmp@.subrange(15 - j, 16);
            assert(suffix.drop_first() =~= tmp@.subrange(16 - j, 16));
            assert(suffix.first() == tmp@[15 - j]);
            let post = out@.push(byte).subrange(base, base + j + 1);
            assert(post.drop_last() =~= app);
            assert(post.last() == byte);
            assert(out@.push(byte).subrange(0, base) =~= out@.subrange(0, base));
        }
        out.push(byte);
        j = j + 1;
    }
    proof {
        assert(tmp@.subrange(0, 16) =~= tmp@);
        assert(out@.subrange(base, base + 16) =~= out@.subrange(base, out@.len() as int));
    }
}

} // verus!
