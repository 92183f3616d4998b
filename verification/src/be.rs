use vstd::prelude::*;

verus! {

/// `256` raised to the power `n`.
pub open spec fn pow256(n: nat) -> nat
    decreases n,
{
    if n == 0 {
        1
    } else {
        256 * pow256((n - 1) as nat)
    }
}

/// The unsigned value of a big-endian byte string.
pub open spec fn be_nat(s: Seq<u8>) -> nat
    decreases s.len(),
{
    if s.len() == 0 {
        0
    } else {
        be_nat(s.drop_last()) * 256 + s.last() as nat
    }
}

/// The two's-complement value of a big-endian byte string: negative when its
/// first byte has the high bit set.
pub open spec fn be_int(s: Seq<u8>) -> int {
    if s.len() > 0 && s[0] >= 0x80 {
        be_nat(s) - pow256(s.len())
    } else {
        be_nat(s) as int
    }
}

/// `n` zero bytes.
pub open spec fn zeros(n: nat) -> Seq<u8> {
    Seq::new(n, |i: int| 0u8)
}

/// Zero bytes in front of a big-endian string do not change its value.
pub proof fn lemma_be_nat_zeros_prefix(k: nat, s: Seq<u8>)
    ensures
        be_nat(zeros(k) + s) == be_nat(s),
    decreases s.len(), k,
{
    if s.len() == 0 {
        assert(zeros(k) + s =~= zeros(k));
        if k > 0 {
            assert(zeros(k).drop_last() =~= zeros((k - 1) as nat));
            lemma_be_nat_zeros_prefix((k - 1) as nat, s);
            assert(zeros((k - 1) as nat) + s =~= zeros((k - 1) as nat));
        }
    } else {
        assert((zeros(k) + s).drop_last() =~= zeros(k) + s.drop_last());
        lemma_be_nat_zeros_prefix(k, s.drop_last());
    }
}

/// A big-endian value is below `256` to the power of its length.
pub proof fn lemma_be_nat_bound(s: Seq<u8>)
    ensures
        be_nat(s) < pow256(s.len()),
    decreases s.len(),
{
    if s.len() > 0 {
        let t = s.drop_last();
        lemma_be_nat_bound(t);
        let a: nat = be_nat(t);
        let p: nat = pow256(t.len());
        let l: nat = s.last() as nat;
        assert(a * 256 + l < p * 256) by (nonlinear_arith)
            requires
                a < p,
                l < 256,
        ;
    }
}

/// The value of a concatenation: the front part shifted by the back part's length.
pub proof fn lemma_be_nat_concat(a: Seq<u8>, b: Seq<u8>)
    ensures
        be_nat(a + b) == be_nat(a) * pow256(b.len()) + be_nat(b),
    decreases b.len(),
{
    if b.len() == 0 {
        assert(a + b =~= a);
        assert(be_nat(a) * 1 == be_nat(a)) by (nonlinear_arith);
    } else {
        assert((a + b).drop_last() =~= a + b.drop_last());
        lemma_be_nat_concat(a, b.drop_last());
        let x: nat = be_nat(a);
        let p: nat = pow256(b.drop_last().len());
        let y: nat = be_nat(b.drop_last());
        assert(be_nat(a + b) == be_nat((a + b).drop_last()) * 256 + (a + b).last());
        assert((a + b).last() == b.last());
        assert(be_nat(b) == y * 256 + b.last());
        assert((x * p + y) * 256 + b.last() == x * (256 * p) + (y * 256 + b.last()))
            by (nonlinear_arith);
    }
}

/// The first byte of a non-empty big-endian string has its high bit set
/// exactly when the value is at least half of `256` to the power of its length.
pub proof fn lemma_be_nat_high_bit(s: Seq<u8>)
    requires
        s.len() > 0,
    ensures
        s[0] >= 0x80 <==> be_nat(s) >= 128 * pow256((s.len() - 1) as nat),
{
    let head = s.subrange(0, 1);
    let tail = s.subrange(1, s.len() as int);
    assert(s =~= head + tail);
    lemma_be_nat_concat(head, tail);
    lemma_be_nat_bound(tail);
    assert(head.drop_last() =~= Seq::<u8>::empty());
    assert(be_nat(head.drop_last()) == 0);
    assert(head.last() == s[0]);
    assert(be_nat(head) == s[0]);
    let b: nat = s[0] as nat;
    let p: nat = pow256(tail.len());
    let r: nat = be_nat(tail);
    assert(b >= 128 ==> b * p + r >= 128 * p) by (nonlinear_arith);
    assert(b < 128 ==> b * p + r < 128 * p) by (nonlinear_arith)
        requires
            r < p,
    ;
}

} // verus!
