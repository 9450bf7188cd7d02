use vstd::prelude::*;

verus! {

/// The largest vector dimension the in-memory index accepts. Keeping the
/// dimension bounded keeps every distance computation within `i128`.
pub const DIM_MAX: usize = 65536;

/// An upper bound on one squared coordinate difference of two `i32`
/// coordinates.
pub open spec fn term_bound() -> int {
    0x1_0000_0000_0000_0000
}

/// The squared Euclidean distance of two vectors of equal dimension: the
/// sum of the squared coordinate differences.
pub open spec fn dist2(a: Seq<i32>, b: Seq<i32>) -> int
    recommends
        a.len() == b.len(),
    decreases a.len(),
{
    if a.len() == 0 || b.len() == 0 {
        0
    } else {
        let d = a.last() - b.last();
        dist2(a.drop_last(), b.drop_last()) + d * d
    }
}

/// A squared distance is never negative.
pub proof fn lemma_dist2_nonneg(a: Seq<i32>, b: Seq<i32>)
    ensures
        0 <= dist2(a, b),
    decreases a.len(),
{
    if a.len() == 0 || b.len() == 0 {
    } else {
        let d = a.last() - b.last();
        assert(0 <= d * d) by (nonlinear_arith);
        lemma_dist2_nonneg(a.drop_last(), b.drop_last());
    }
}

/// Two vectors of equal dimension are at squared distance zero exactly when
/// they are equal.
pub proof fn lemma_dist2_zero_iff(a: Seq<i32>, b: Seq<i32>)
    requires
        a.len() == b.len(),
    ensures
        dist2(a, b) == 0 <==> a == b,
    decreases a.len(),
{
    if a.len() == 0 {
        assert(a =~= b);
    } else {
        let d = a.last() - b.last();
        lemma_dist2_nonneg(a.drop_last(), b.drop_last());
        assert(0 <= d * d) by (nonlinear_arith);
        assert(d * d == 0 ==> d == 0) by (nonlinear_arith);
        lemma_dist2_zero_iff(a.drop_last(), b.drop_last());
        if dist2(a, b) == 0 {
            assert(a =~= a.drop_last().push(a.last()));
            assert(b =~= b.drop_last().push(b.last()));
        }
        if a == b {
            assert(a.drop_last() =~= b.drop_last());
        }
    }
}

/// Computes the squared Euclidean distance of two vectors.
pub fn dist2_exec(a: &Vec<i32>, b: &Vec<i32>) -> (r: i128)
    requires
        a@.len() == b@.len(),
        a@.len() <= DIM_MAX,
    ensures
        r as int == dist2(a@, b@),
        0 <= r,
{
    let mut acc: i128 = 0;
    let mut i: usize = 0;
    while i < a.len()
        invariant
            0 <= i <= a@.len(),
            acc as int == dist2(a@.take(i as int), b@.take(i as int)),
            0 <= acc,
            acc <= (i as int) * term_bound(),
        decreases a@.len() - i,
    {
        let d: i64 = (a[i] as i64) - (b[i] as i64);
        proof {
            assert(-0xffff_ffff <= d <= 0xffff_ffff);
            assert(0 <= (d as int) * (d as int) < term_bound()) by (nonlinear_arith)
                requires
                    -0xffff_ffff <= d as int <= 0xffff_ffff,
            ;
            assert((i as int) * term_bound() + term_bound() == (i as int + 1) * term_bound())
                by (nonlinear_arith);
            assert((i as int + 1) * term_bound() <= DIM_MAX * term_bound()) by (nonlinear_arith)
                requires
                    i as int + 1 <= DIM_MAX as int,
            ;
        }
        let sq: i128 = (d as i128) * (d as i128);
        acc = acc + sq;
        proof {
            assert(a@.take(i + 1 as int).drop_last() =~= a@.take(i as int));
            assert(b@.take(i + 1 as int).drop_last() =~= b@.take(i as int));
            assert(a@.take(i + 1 as int).last() == a@[i as int]);
            assert(b@.take(i + 1 as int).last() == b@[i as int]);
        }
        i = i + 1;
    }
    proof {
        assert(a@.take(a@.len() as int) =~= a@);
        assert(b@.take(b@.len() as int) =~= b@);
    }
    acc
}

} // verus!
