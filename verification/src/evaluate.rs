//! Evaluation of a trained classifier on a held-out split: how many
//! predicted labels agree with the true ones.

use vstd::prelude::*;

verus! {

/// The number of positions at which two label columns agree.
pub open spec fn spec_correct_count(p: Seq<usize>, t: Seq<usize>) -> int
    decreases p.len(),
{
    if p.len() == 0 {
        0
    } else {
        spec_correct_count(p.drop_last(), t.drop_last()) + if p.last() == t.last() {
            1int
        } else {
            0int
        }
    }
}

proof fn lemma_correct_count_bounds(p: Seq<usize>, t: Seq<usize>)
    ensures
        0 <= spec_correct_count(p, t) <= p.len(),
    decreases p.len(),
{
    if p.len() > 0 {
        lemma_correct_count_bounds(p.drop_last(), t.drop_last());
    }
}

/// Counts the agreements between a predicted and a true label column of
/// equal length.
pub fn count_correct(pred: &Vec<usize>, truth: &Vec<usize>) -> (r: usize)
    requires
        pred@.len() == truth@.len(),
    ensures
        r as int == spec_correct_count(pred@, truth@),
{
    let n = pred.len();
    let mut r: usize = 0;
    proof {
        assert(pred@.take(0) =~= Seq::<usize>::empty());
        assert(truth@.take(0) =~= Seq::<usize>::empty());
    }
    let mut i: usize = 0;
    while i < n
        invariant
            n == pred@.len(),
            pred@.len() == truth@.len(),
            i <= n,
            r as int == spec_correct_count(pred@.take(i as int), truth@.take(i as int)),
            r <= i,
        decreases n - i,
    {
        proof {
            lemma_correct_count_bounds(pred@.take(i as int), truth@.take(i as int));
            assert(pred@.take(i as int + 1).drop_last() =~= pred@.take(i as int));
            assert(truth@.take(i as int + 1).drop_last() =~= truth@.take(i as int));
            assert(pred@.take(i as int + 1).last() == pred@[i as int]);
            assert(truth@.take(i as int + 1).last() == truth@[i as int]);
        }
        if pred[i] == truth[i] {
            r = r + 1;
        }
        i = i + 1;
    }
    proof {
        assert(pred@.take(n as int) =~= pred@);
        assert(truth@.take(n as int) =~= truth@);
    }
    r
}

} // verus!
