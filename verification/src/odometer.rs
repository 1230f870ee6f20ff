//! Mixed-radix arithmetic: the mathematics of an odometer.
//!
//! An odometer has one wheel per position.  Wheel `i` shows a digit below
//! `counts[i]`; the leftmost wheel is the most significant.  `rank` numbers the
//! readings in lexicographic order, and `step` moves to the next reading with
//! carry.  Nothing here is executable; the generators and the
//! combination driver are verified against it.
use vstd::prelude::*;

verus! {

/// The number of readings of an odometer: the product of its wheel sizes.
pub open spec fn product(counts: Seq<nat>) -> nat
    decreases counts.len(),
{
    if counts.len() == 0 {
        1
    } else {
        product(counts.drop_last()) * counts.last()
    }
}

/// Every wheel has at least one digit.
pub open spec fn all_positive(counts: Seq<nat>) -> bool {
    forall|i: int| 0 <= i < counts.len() ==> counts[i] >= 1
}

/// `digits` is a reading of the odometer with wheel sizes `counts`.
pub open spec fn is_reading(counts: Seq<nat>, digits: Seq<nat>) -> bool {
    &&& counts.len() == digits.len()
    &&& forall|i: int| 0 <= i < counts.len() ==> digits[i] < counts[i]
}

/// Position of a reading in lexicographic order, leftmost wheel most
/// significant, counted from zero.
pub open spec fn rank(counts: Seq<nat>, digits: Seq<nat>) -> nat
    decreases counts.len(),
{
    if counts.len() == 0 {
        0
    } else {
        rank(counts.drop_last(), digits.drop_last()) * counts.last() + digits.last()
    }
}

/// Every wheel shows its last digit.
pub open spec fn all_last(counts: Seq<nat>, digits: Seq<nat>) -> bool {
    forall|i: int| 0 <= i < counts.len() ==> digits[i] + 1 == counts[i]
}

/// The rightmost wheel that does not show its last digit, or -1 when every
/// wheel does.
pub open spec fn pivot(counts: Seq<nat>, digits: Seq<nat>) -> int
    decreases counts.len(),
{
    if counts.len() == 0 {
        -1
    } else if digits.last() + 1 != counts.last() {
        counts.len() - 1
    } else {
        pivot(counts.drop_last(), digits.drop_last())
    }
}

/// The next reading: the pivot wheel moves on by one and every wheel to its
/// right returns to zero.  The last reading is its own successor.
pub open spec fn step(counts: Seq<nat>, digits: Seq<nat>) -> Seq<nat> {
    let p = pivot(counts, digits);
    if p < 0 {
        digits
    } else {
        Seq::new(
            digits.len(),
            |i: int|
                if i < p {
                    digits[i]
                } else if i == p {
                    digits[i] + 1
                } else {
                    0
                },
        )
    }
}

/// `a` comes before `b` in lexicographic order: they agree on the wheels left
/// of some position, and there `a` shows the smaller digit.
pub open spec fn lex_less(a: Seq<nat>, b: Seq<nat>) -> bool {
    exists|k: int|
        0 <= k < a.len() && k < b.len() && a[k] < b[k] && (forall|i: int|
            0 <= i < k ==> a[i] == b[i])
}

/// An odometer whose wheels all have a digit has at least one reading.
pub proof fn lemma_product_positive(counts: Seq<nat>)
    requires
        all_positive(counts),
    ensures
        product(counts) >= 1,
    decreases counts.len(),
{
    if counts.len() > 0 {
        lemma_product_positive(counts.drop_last());
        let p = product(counts.drop_last());
        let c = counts.last();
        assert(p * c >= 1) by (nonlinear_arith)
            requires
                p >= 1,
                c >= 1,
        ;
    }
}

/// Leaving out wheels on the right never makes the product larger.
pub proof fn lemma_product_prefix(counts: Seq<nat>, k: int)
    requires
        all_positive(counts),
        0 <= k <= counts.len(),
    ensures
        product(counts.take(k)) <= product(counts),
    decreases counts.len(),
{
    if k == counts.len() {
        assert(counts.take(k) =~= counts);
    } else {
        let front = counts.drop_last();
        assert(front.take(k) =~= counts.take(k));
        lemma_product_prefix(front, k);
        let p = product(front);
        let c = counts.last();
        assert(p <= p * c) by (nonlinear_arith)
            requires
                c >= 1,
                p >= 0,
        ;
    }
}

/// The product of the wheels up to and including wheel `k`.
pub proof fn lemma_product_take_next(counts: Seq<nat>, k: int)
    requires
        0 <= k < counts.len(),
    ensures
        product(counts.take(k + 1)) == product(counts.take(k)) * counts[k],
{
    let t = counts.take(k + 1);
    assert(t.drop_last() =~= counts.take(k));
    assert(t.last() == counts[k]);
}

/// A reading's rank is below the number of readings.
pub proof fn lemma_rank_bound(counts: Seq<nat>, digits: Seq<nat>)
    requires
        is_reading(counts, digits),
    ensures
        rank(counts, digits) < product(counts),
    decreases counts.len(),
{
    if counts.len() > 0 {
        lemma_rank_bound(counts.drop_last(), digits.drop_last());
        let r = rank(counts.drop_last(), digits.drop_last());
        let p = product(counts.drop_last());
        let c = counts.last();
        let d = digits.last();
        assert(r * c + d < p * c) by (nonlinear_arith)
            requires
                r < p,
                d < c,
        ;
    }
}

/// A reading has the highest rank exactly when every wheel shows its last
/// digit.
pub proof fn lemma_rank_last(counts: Seq<nat>, digits: Seq<nat>)
    requires
        is_reading(counts, digits),
    ensures
        all_last(counts, digits) <==> rank(counts, digits) + 1 == product(counts),
        all_last(counts, digits) <==> pivot(counts, digits) < 0,
        -1 <= pivot(counts, digits) < counts.len(),
    decreases counts.len(),
{
    if counts.len() > 0 {
        let cf = counts.drop_last();
        let df = digits.drop_last();
        lemma_rank_last(cf, df);
        lemma_rank_bound(cf, df);
        let r = rank(cf, df);
        let p = product(cf);
        let c = counts.last();
        let d = digits.last();
        if all_last(counts, digits) {
            assert(digits[counts.len() - 1] + 1 == counts[counts.len() - 1]);
            assert forall|i: int| 0 <= i < cf.len() implies df[i] + 1 == cf[i] by {
                assert(digits[i] + 1 == counts[i]);
            }
            assert(r * c + d + 1 == p * c) by (nonlinear_arith)
                requires
                    r + 1 == p,
                    d + 1 == c,
            ;
        }
        if rank(counts, digits) + 1 == product(counts) {
            if r + 1 < p {
                assert(r * c + d + 1 < p * c) by (nonlinear_arith)
                    requires
                        r + 1 < p,
                        d < c,
                ;
            }
            assert(r + 1 == p);
            assert(d + 1 == c) by (nonlinear_arith)
                requires
                    r * c + d + 1 == p * c,
                    r + 1 == p,
            ;
            assert forall|i: int| 0 <= i < counts.len() implies digits[i] + 1 == counts[i] by {
                if i < cf.len() {
                    assert(df[i] + 1 == cf[i]);
                }
            }
        }
        if pivot(counts, digits) < 0 {
            assert forall|i: int| 0 <= i < counts.len() implies digits[i] + 1 == counts[i] by {
                if i < cf.len() {
                    assert(df[i] + 1 == cf[i]);
                }
            }
        }
    }
}

/// The wheels right of the pivot show their last digit, and the pivot wheel
/// does not.
pub proof fn lemma_pivot(counts: Seq<nat>, digits: Seq<nat>)
    requires
        counts.len() == digits.len(),
    ensures
        -1 <= pivot(counts, digits) < counts.len(),
        forall|i: int| pivot(counts, digits) < i < counts.len() ==> digits[i] + 1 == counts[i],
        pivot(counts, digits) >= 0 ==> digits[pivot(counts, digits)] + 1 != counts[pivot(
            counts,
            digits,
        )],
    decreases counts.len(),
{
    if counts.len() > 0 && digits.last() + 1 == counts.last() {
        let cf = counts.drop_last();
        let df = digits.drop_last();
        lemma_pivot(cf, df);
        assert forall|i: int| pivot(counts, digits) < i < counts.len() implies digits[i] + 1
            == counts[i] by {
            if i < cf.len() {
                assert(df[i] + 1 == cf[i]);
            }
        }
    }
}

/// Stepping a reading that is not the last gives the reading of the next
/// rank; stepping the last reading changes nothing.
pub proof fn lemma_step(counts: Seq<nat>, digits: Seq<nat>)
    requires
        is_reading(counts, digits),
    ensures
        is_reading(counts, step(counts, digits)),
        all_last(counts, digits) ==> step(counts, digits) == digits,
        !all_last(counts, digits) ==> rank(counts, step(counts, digits)) == rank(counts, digits)
            + 1,
    decreases counts.len(),
{
    lemma_rank_last(counts, digits);
    lemma_pivot(counts, digits);
    let p = pivot(counts, digits);
    let next = step(counts, digits);
    if p >= 0 {
        let cf = counts.drop_last();
        let df = digits.drop_last();
        let c = counts.last();
        let d = digits.last();
        assert(is_reading(counts, next));
        if d + 1 != c {
            assert(next.drop_last() =~= df);
        } else {
            lemma_step(cf, df);
            lemma_rank_last(cf, df);
            assert(next.drop_last() =~= step(cf, df));
            let r = rank(cf, df);
            assert((r + 1) * c + 0 == r * c + d + 1) by (nonlinear_arith)
                requires
                    d + 1 == c,
            ;
        }
    }
}

/// Two readings of the same rank are the same reading.
pub proof fn lemma_rank_injective(counts: Seq<nat>, a: Seq<nat>, b: Seq<nat>)
    requires
        is_reading(counts, a),
        is_reading(counts, b),
        rank(counts, a) == rank(counts, b),
    ensures
        a == b,
    decreases counts.len(),
{
    if counts.len() > 0 {
        let cf = counts.drop_last();
        let ra = rank(cf, a.drop_last());
        let rb = rank(cf, b.drop_last());
        let c = counts.last();
        let da = a.last();
        let db = b.last();
        assert(ra == rb && da == db) by (nonlinear_arith)
            requires
                ra * c + da == rb * c + db,
                da < c,
                db < c,
                c >= 1,
        ;
        lemma_rank_injective(cf, a.drop_last(), b.drop_last());
        assert(a =~= a.drop_last().push(a.last()));
        assert(b =~= b.drop_last().push(b.last()));
    } else {
        assert(a =~= b);
    }
}

/// Rank follows lexicographic order, leftmost wheel first.
pub proof fn lemma_rank_lexicographic(counts: Seq<nat>, a: Seq<nat>, b: Seq<nat>)
    requires
        is_reading(counts, a),
        is_reading(counts, b),
        lex_less(a, b),
    ensures
        rank(counts, a) < rank(counts, b),
    decreases counts.len(),
{
    let k = choose|k: int|
        0 <= k < a.len() && k < b.len() && a[k] < b[k] && (forall|i: int|
            0 <= i < k ==> a[i] == b[i]);
    let cf = counts.drop_last();
    let af = a.drop_last();
    let bf = b.drop_last();
    let c = counts.last();
    let ra = rank(cf, af);
    let rb = rank(cf, bf);
    if k == counts.len() - 1 {
        assert(af =~= bf);
    } else {
        assert(af[k] < bf[k]);
        assert forall|i: int| 0 <= i < k implies af[i] == bf[i] by {
            assert(a[i] == b[i]);
        }
        lemma_rank_lexicographic(cf, af, bf);
        let da = a.last();
        let db = b.last();
        assert(ra * c + da < rb * c + db) by (nonlinear_arith)
            requires
                ra < rb,
                da < c,
                db >= 0,
        ;
    }
}

} // verus!
