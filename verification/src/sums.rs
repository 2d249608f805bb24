use vstd::prelude::*;

verus! {

/// The sum of a sequence of numbers.
pub open spec fn total(ws: Seq<int>) -> int
    decreases ws.len(),
{
    if ws.len() == 0 {
        0
    } else {
        total(ws.drop_last()) + ws.last()
    }
}

/// Replacing one number changes the sum by the difference.
pub proof fn lemma_total_update(ws: Seq<int>, i: int, v: int)
    requires
        0 <= i < ws.len(),
    ensures
        total(ws.update(i, v)) == total(ws) - ws[i] + v,
    decreases ws.len(),
{
    let us = ws.update(i, v);
    if i == ws.len() - 1 {
        assert(us.drop_last() =~= ws.drop_last());
    } else {
        lemma_total_update(ws.drop_last(), i, v);
        assert(us.drop_last() =~= ws.drop_last().update(i, v));
    }
}

/// A sum lies between the bounds of its terms, taken as many times as there are terms.
pub proof fn lemma_total_bounds(ws: Seq<int>, low: int, high: int)
    requires
        forall|i: int| 0 <= i < ws.len() ==> low <= #[trigger] ws[i] <= high,
    ensures
        low * ws.len() <= total(ws) <= high * ws.len(),
    decreases ws.len(),
{
    if ws.len() > 0 {
        lemma_total_bounds(ws.drop_last(), low, high);
        assert(low * ws.len() == low * (ws.len() - 1) + low) by (nonlinear_arith);
        assert(high * ws.len() == high * (ws.len() - 1) + high) by (nonlinear_arith);
    }
}

/// A sum of numbers none of which is negative is zero only if each of them is.
pub proof fn lemma_total_zero(ws: Seq<int>)
    requires
        forall|i: int| 0 <= i < ws.len() ==> 0 <= #[trigger] ws[i],
    ensures
        total(ws) >= 0,
        total(ws) == 0 <==> forall|i: int| 0 <= i < ws.len() ==> #[trigger] ws[i] == 0,
    decreases ws.len(),
{
    if ws.len() > 0 {
        let rest = ws.drop_last();
        lemma_total_zero(rest);
        if total(ws) == 0 {
            assert forall|i: int| 0 <= i < ws.len() implies #[trigger] ws[i] == 0 by {
                if i < ws.len() - 1 {
                    assert(rest[i] == 0);
                }
            }
        }
        if forall|i: int| 0 <= i < ws.len() ==> #[trigger] ws[i] == 0 {
            assert forall|i: int| 0 <= i < rest.len() implies #[trigger] rest[i] == 0 by {
                assert(ws[i] == 0);
            }
            assert(ws.last() == ws[ws.len() - 1]);
        }
    }
}

/// The sum of the first `n` numbers.
pub open spec fn total_upto(ws: Seq<int>, n: int) -> int {
    total(ws.take(n))
}

/// The sum of the first `n + 1` numbers is that of the first `n` and one more.
pub proof fn lemma_total_step(ws: Seq<int>, n: int)
    requires
        0 <= n < ws.len(),
    ensures
        total_upto(ws, n + 1) == total_upto(ws, n) + ws[n],
        total_upto(ws, 0) == 0,
        total_upto(ws, ws.len() as int) == total(ws),
{
    assert(ws.take(n + 1).drop_last() =~= ws.take(n));
    assert(ws.take(ws.len() as int) =~= ws);
}

/// The position of the first `true` in `mask`, or -1 where there is none.
pub open spec fn first_true(mask: Seq<bool>) -> int
    decreases mask.len(),
{
    if mask.len() == 0 {
        -1
    } else {
        let before = first_true(mask.drop_last());
        if before >= 0 {
            before
        } else if mask.last() {
            mask.len() - 1
        } else {
            -1
        }
    }
}

/// `first_true` is the first: nothing before it is `true`, and -1 means none is.
pub proof fn lemma_first_true(mask: Seq<bool>)
    ensures
        -1 <= first_true(mask) < mask.len(),
        first_true(mask) >= 0 ==> mask[first_true(mask)],
        forall|j: int| 0 <= j < mask.len() && mask[j] ==> 0 <= first_true(mask) <= j,
    decreases mask.len(),
{
    if mask.len() > 0 {
        lemma_first_true(mask.drop_last());
        assert forall|j: int| 0 <= j < mask.len() && mask[j] implies 0 <= first_true(mask)
            <= j by {
            if j < mask.len() - 1 {
                assert(mask.drop_last()[j]);
            }
        }
    }
}

/// The first `true` is where a `true` stands with none before it.
pub proof fn lemma_first_true_at(mask: Seq<bool>, i: int)
    requires
        0 <= i < mask.len(),
        mask[i],
        forall|j: int| 0 <= j < i ==> !mask[j],
    ensures
        first_true(mask) == i,
{
    lemma_first_true(mask);
}

/// There is no first `true` where there is no `true`.
pub proof fn lemma_first_true_none(mask: Seq<bool>)
    requires
        forall|j: int| 0 <= j < mask.len() ==> !mask[j],
    ensures
        first_true(mask) == -1,
{
    lemma_first_true(mask);
}

} // verus!
