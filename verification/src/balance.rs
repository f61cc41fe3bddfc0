//! Class balancing: before training, every class's windows are cut down to
//! the size of the smallest non-empty class, so that no activity dominates
//! the training set. Classes without any window are dropped. Within each
//! class the kept windows are chosen by a seeded shuffle.

use vstd::prelude::*;

verus! {

#[verifier::external_type_specification]
#[verifier::external_body]
pub struct ExSmallRng(rand::rngs::SmallRng);

/// Relies on rand's `SeedableRng::seed_from_u64`: builds a small pseudo-random
/// generator from the given seed. Nothing is assumed of the stream it yields.
#[verifier::external_body]
fn small_rng_from_seed(seed: u64) -> (r: rand::rngs::SmallRng) {
    <rand::rngs::SmallRng as rand::SeedableRng>::seed_from_u64(seed)
}

/// Relies on rand's `SliceRandom::shuffle`: a Fisher–Yates shuffle permutes
/// the slice in place, so the same elements survive with the same
/// multiplicities, in some order.
#[verifier::external_body]
fn shuffle_features(v: &mut Vec<Vec<u32>>, rng: &mut rand::rngs::SmallRng)
    ensures
        final(v)@.len() == old(v)@.len(),
        final(v)@.to_multiset() == old(v)@.to_multiset(),
{
    rand::seq::SliceRandom::shuffle(v.as_mut_slice(), rng)
}

/// The dataset-level failure of balancing.
#[derive(Clone, Copy, Debug, PartialEq, Eq, Structural)]
pub enum DataError {
    /// No class contributed a single feature window.
    NoWindows,
}

/// Whether at least one class has a feature window.
pub open spec fn has_windows(per: Seq<Vec<Vec<u32>>>) -> bool {
    exists|c: int| 0 <= c < per.len() && per[c]@.len() > 0
}

/// Left fold of the least non-zero class count, starting from `acc`.
pub open spec fn fold_min_nonzero(per: Seq<Vec<Vec<u32>>>, acc: int) -> int
    decreases per.len(),
{
    if per.len() == 0 {
        acc
    } else {
        let c0 = per[0]@.len() as int;
        fold_min_nonzero(per.drop_first(), if c0 > 0 && c0 < acc { c0 } else { acc })
    }
}

/// The balance target: the least count among classes that have windows.
pub open spec fn spec_target(per: Seq<Vec<Vec<u32>>>) -> int {
    fold_min_nonzero(per, usize::MAX as int + 1)
}

/// The label column the balancer emits, from class `c` on: `t` copies of
/// each surviving class index, in class order; empty classes contribute
/// nothing.
pub open spec fn labels_from(per: Seq<Vec<Vec<u32>>>, t: int, c: int) -> Seq<usize>
    decreases per.len() - c,
{
    if c < 0 || c >= per.len() {
        Seq::empty()
    } else {
        (if per[c]@.len() > 0 {
            Seq::new(t as nat, |q: int| c as usize)
        } else {
            Seq::empty()
        }) + labels_from(per, t, c + 1)
    }
}

/// How the emitted feature column relates to the input: one selection per
/// class, each drawn without repetition from that class's windows (a
/// sub-multiset), `t` windows from a surviving class and none from an
/// empty one, concatenated in class order.
pub open spec fn balanced_features(per: Seq<Vec<Vec<u32>>>, t: int, f: Seq<Vec<u32>>) -> bool {
    exists|kept: Seq<Seq<Vec<u32>>>|
        {
            &&& kept.len() == per.len()
            &&& forall|c: int|
                0 <= c < per.len() ==> (#[trigger] kept[c]).to_multiset().subset_of(
                    per[c]@.to_multiset(),
                )
            &&& forall|c: int|
                0 <= c < per.len() ==> (#[trigger] kept[c]).len() == if per[c]@.len() > 0 {
                    t
                } else {
                    0
                }
            &&& f == kept.flatten()
        }
}

proof fn lemma_fold_min_nonzero_props(per: Seq<Vec<Vec<u32>>>, acc: int)
    requires
        acc >= 1,
    ensures
        fold_min_nonzero(per, acc) <= acc,
        fold_min_nonzero(per, acc) >= 1,
        fold_min_nonzero(per, acc) == acc || exists|c: int|
            0 <= c < per.len() && per[c]@.len() as int == fold_min_nonzero(per, acc),
        forall|c: int|
            0 <= c < per.len() && per[c]@.len() > 0 ==> fold_min_nonzero(per, acc)
                <= per[c]@.len() as int,
    decreases per.len(),
{
    if per.len() == 0 {
    } else {
        let c0 = per[0]@.len() as int;
        let acc2 = if c0 > 0 && c0 < acc {
            c0
        } else {
            acc
        };
        lemma_fold_min_nonzero_props(per.drop_first(), acc2);
        let r = fold_min_nonzero(per, acc);
        assert forall|c: int| 0 <= c < per.len() && per[c]@.len() > 0 implies r <= per[c]@.len() as int by {
            if c == 0 {
            } else {
                assert(per.drop_first()[c - 1] == per[c]);
            }
        }
        if r != acc {
            if r == acc2 && acc2 != acc {
                assert(per[0]@.len() as int == r);
            } else {
                let c = choose|c: int|
                    0 <= c < per.drop_first().len() && per.drop_first()[c]@.len() as int == r;
                assert(per.drop_first()[c] == per[c + 1]);
            }
        }
    }
}

/// The balance target is the least count among the classes that have
/// windows: some surviving class has exactly `target` windows, and no
/// surviving class has fewer.
pub proof fn lemma_target_is_min(per: Seq<Vec<Vec<u32>>>)
    requires
        has_windows(per),
    ensures
        spec_target(per) >= 1,
        exists|c: int| 0 <= c < per.len() && per[c]@.len() as int == spec_target(per),
        forall|c: int|
            0 <= c < per.len() && per[c]@.len() > 0 ==> spec_target(per) <= per[c]@.len() as int,
{
    let init = usize::MAX as int + 1;
    lemma_fold_min_nonzero_props(per, init);
    let w = choose|c: int| 0 <= c < per.len() && per[c]@.len() > 0;
    assert(spec_target(per) <= per[w]@.len() as int);
    assert(per[w]@.len() == per[w].len());
    assert(spec_target(per) != init);
}

proof fn lemma_filter_const_all(s: Seq<usize>, pred: spec_fn(usize) -> bool)
    requires
        forall|i: int| 0 <= i < s.len() ==> pred(#[trigger] s[i]),
    ensures
        s.filter(pred) == s,
    decreases s.len(),
{
    reveal(Seq::filter);
    if s.len() == 0 {
    } else {
        lemma_filter_const_all(s.drop_last(), pred);
        assert(s.drop_last().push(s.last()) =~= s);
    }
}

proof fn lemma_labels_from_count(per: Seq<Vec<Vec<u32>>>, t: int, c0: int, c: int)
    requires
        t >= 0,
        0 <= c < per.len(),
        0 <= c0 <= per.len(),
        per.len() <= usize::MAX,
    ensures
        labels_from(per, t, c0).filter(|x: usize| x as int == c).len() == if c0 <= c
            && per[c]@.len() > 0 {
            t
        } else {
            0
        },
    decreases per.len() - c0,
{
    let pred = |x: usize| x as int == c;
    if c0 == per.len() {
        reveal(Seq::filter);
    } else {
        lemma_labels_from_count(per, t, c0 + 1, c);
        let block = if per[c0]@.len() > 0 {
            Seq::new(t as nat, |q: int| c0 as usize)
        } else {
            Seq::<usize>::empty()
        };
        let rest = labels_from(per, t, c0 + 1);
        Seq::filter_distributes_over_add(block, rest, pred);
        if per[c0]@.len() > 0 {
            if c0 == c {
                assert forall|q: int| 0 <= q < block.len() implies pred(#[trigger] block[q]) by {
                    assert(block[q] == c0 as usize);
                }
                lemma_filter_const_all(block, pred);
            } else {
                assert forall|q: int| 0 <= q < block.len() implies !pred(#[trigger] block[q]) by {
                    assert(block[q] == c0 as usize);
                }
                block.lemma_all_neg_filter_empty(pred);
                assert(block.filter(pred) =~= Seq::<usize>::empty());
            }
        } else {
            assert(block.filter(pred) =~= Seq::<usize>::empty()) by {
                reveal(Seq::filter);
            }
        }
    }
}

/// The balance invariant: in the label column the balancer emits, every
/// class that had at least one window appears exactly `target` times, and
/// a class without windows does not appear at all.
pub proof fn lemma_balanced_class_counts(per: Seq<Vec<Vec<u32>>>, c: int)
    requires
        has_windows(per),
        0 <= c < per.len(),
        per.len() <= usize::MAX,
    ensures
        labels_from(per, spec_target(per), 0).filter(|x: usize| x as int == c).len() == if per[c]@.len()
            > 0 {
            spec_target(per)
        } else {
            0
        },
{
    lemma_target_is_min(per);
    lemma_labels_from_count(per, spec_target(per), 0, c);
}

/// Balances the per-class feature windows: every class that has windows
/// keeps exactly the target number of them, chosen by a seeded shuffle, and
/// the features and labels come out index-aligned, class by class in class
/// order. When no class has any window the dataset-level error is returned.
pub fn balance(per: Vec<Vec<Vec<u32>>>, seed: u64) -> (r: Result<
    (Vec<Vec<u32>>, Vec<usize>),
    DataError,
>)
    ensures
        r is Ok <==> has_windows(per@),
        r matches Ok(p) ==> {
            &&& p.1@ == labels_from(per@, spec_target(per@), 0)
            &&& p.0@.len() == p.1@.len()
            &&& forall|i: int|
                0 <= i < p.1@.len() ==> (p.1@[i] as int) < per@.len() && per@[p.1@[i] as int]@
                    .contains(p.0@[i])
            &&& balanced_features(per@, spec_target(per@), p.0@)
        },
{
    let ghost orig = per@;
    let k = per.len();

    let mut found = false;
    let mut t: usize = 0;
    let ghost init = usize::MAX as int + 1;
    proof {
        assert(orig.skip(0) =~= orig);
    }
    let mut i: usize = 0;
    while i < k
        invariant
            k == orig.len(),
            per@ == orig,
            i <= k,
            fold_min_nonzero(orig, init) == fold_min_nonzero(
                orig.skip(i as int),
                if found {
                    t as int
                } else {
                    init
                },
            ),
            found <==> exists|c: int| 0 <= c < i && orig[c]@.len() > 0,
            found ==> t >= 1,
            init == usize::MAX as int + 1,
        decreases k - i,
    {
        proof {
            assert(orig.skip(i as int).drop_first() =~= orig.skip(i as int + 1));
            assert(orig.skip(i as int)[0] == orig[i as int]);
        }
        let n_c = per[i].len();
        if n_c > 0 && (!found || n_c < t) {
            t = n_c;
            found = true;
        }
        proof {
            if found {
                if exists|cc: int| 0 <= cc < i && orig[cc]@.len() > 0 {
                    let w = choose|cc: int| 0 <= cc < i && orig[cc]@.len() > 0;
                    assert(0 <= w < i + 1 && orig[w]@.len() > 0);
                } else {
                    assert(orig[i as int]@.len() > 0);
                }
            }
        }
        i = i + 1;
    }
    proof {
        assert(orig.skip(k as int) =~= Seq::<Vec<Vec<u32>>>::empty());
    }
    if !found {
        return Err(DataError::NoWindows);
    }
    proof {
        assert(t as int == spec_target(orig));
        lemma_target_is_min(orig);
    }

    let mut rng = small_rng_from_seed(seed);
    let mut work = per;
    let mut feats: Vec<Vec<u32>> = Vec::new();
    let mut labels: Vec<usize> = Vec::new();
    let ghost mut kept_acc: Seq<Seq<Vec<u32>>> = Seq::empty();
    proof {
        assert(orig.skip(0) =~= orig);
        assert(labels@ + labels_from(orig, t as int, 0) =~= labels_from(orig, t as int, 0));
        assert(feats@ =~= kept_acc.flatten());
    }
    let mut c: usize = 0;
    while c < k
        invariant
            k == orig.len(),
            c <= k,
            work@ == orig.skip(c as int),
            t as int == spec_target(orig),
            has_windows(orig),
            forall|cc: int|
                0 <= cc < orig.len() && orig[cc]@.len() > 0 ==> t as int <= orig[cc]@.len() as int,
            labels@ + labels_from(orig, t as int, c as int) == labels_from(orig, t as int, 0),
            feats@.len() == labels@.len(),
            forall|i: int| #![all_triggers]
                0 <= i < labels@.len() ==> (labels@[i] as int) < orig.len() && orig[labels@[i] as int]@
                    .contains(feats@[i]),
            kept_acc.len() == c,
            forall|cc: int|
                0 <= cc < c ==> (#[trigger] kept_acc[cc]).to_multiset().subset_of(
                    orig[cc]@.to_multiset(),
                ),
            forall|cc: int|
                0 <= cc < c ==> (#[trigger] kept_acc[cc]).len() == if orig[cc]@.len() > 0 {
                    t as int
                } else {
                    0
                },
            feats@ == kept_acc.flatten(),
        decreases k - c,
    {
        proof {
            assert(orig.skip(c as int)[0] == orig[c as int]);
            assert(orig.skip(c as int).remove(0) =~= orig.skip(c as int + 1));
        }
        let mut class = work.remove(0);
        let ghost feats_before = feats@;
        let ghost labels_before = labels@;
        if class.len() > 0 {
            shuffle_features(&mut class, &mut rng);
            let ghost shuffled = class@;
            class.truncate(t);
            let ghost class_kept = class@;
            proof {
                broadcast use vstd::seq_lib::group_to_multiset_ensures;

                assert(class_kept == shuffled.subrange(0, t as int));
                assert(class_kept.len() == t as int);
                assert forall|j: int| 0 <= j < class_kept.len() implies orig[c as int]@.contains(
                    #[trigger] class_kept[j],
                ) by {
                    assert(shuffled[j] == class_kept[j]);
                    assert(shuffled.contains(shuffled[j]));
                    assert(orig[c as int]@.to_multiset().count(shuffled[j]) > 0);
                }
            }
            let ghost block = Seq::new(t as nat, |q: int| c as usize);
            let mut j: usize = 0;
            proof {
                assert(labels@ =~= labels_before + block.take(0));
            }
            while j < t
                invariant
                    j <= t,
                    block == Seq::new(t as nat, |q: int| c as usize),
                    labels@ == labels_before + block.take(j as int),
                decreases t - j,
            {
                labels.push(c);
                proof {
                    assert((labels_before + block.take(j as int)).push(c as usize) =~= labels_before
                        + block.take(j as int + 1));
                }
                j = j + 1;
            }
            proof {
                assert(block.take(t as int) =~= block);
            }
            feats.append(&mut class);
            proof {
                broadcast use vstd::multiset::group_multiset_axioms;

                assert(shuffled =~= class_kept + shuffled.skip(t as int));
                vstd::seq_lib::lemma_multiset_commutative(class_kept, shuffled.skip(t as int));
                assert(class_kept.to_multiset().subset_of(orig[c as int]@.to_multiset()));
                let kept_prev = kept_acc;
                kept_acc = kept_acc.push(class_kept);
                kept_prev.lemma_flatten_push(class_kept);
                assert(feats@ == feats_before + class_kept);
                assert(labels@ == labels_before + block);
                assert(labels_before.len() == feats_before.len());
                assert(block.len() == t as int);
                assert(class_kept.len() == t as int);
                assert(labels_from(orig, t as int, c as int) == block + labels_from(
                    orig,
                    t as int,
                    c as int + 1,
                ));
                assert((labels_before + block) + labels_from(orig, t as int, c as int + 1)
                    =~= labels_before + (block + labels_from(orig, t as int, c as int + 1)));
                assert forall|i: int| #![all_triggers] 0 <= i < labels@.len() implies (labels@[i] as int)
                    < orig.len() && orig[labels@[i] as int]@.contains(feats@[i]) by {
                    if i < labels_before.len() {
                        assert(labels@[i] == labels_before[i]);
                        assert(feats@[i] == feats_before[i]);
                    } else {
                        assert(labels@[i] == block[i - labels_before.len()]);
                        assert(labels@[i] == c);
                        assert(feats@[i] == class_kept[i - feats_before.len()]);
                        assert(orig[c as int]@.contains(class_kept[i - feats_before.len()]));
                    }
                }
            }
        } else {
            proof {
                assert(labels_from(orig, t as int, c as int) == Seq::<usize>::empty() + labels_from(
                    orig,
                    t as int,
                    c as int + 1,
                ));
                assert(Seq::<usize>::empty() + labels_from(orig, t as int, c as int + 1)
                    =~= labels_from(orig, t as int, c as int + 1));
                broadcast use vstd::seq_lib::group_to_multiset_ensures;
                broadcast use vstd::multiset::group_multiset_axioms;

                let kept_prev = kept_acc;
                kept_acc = kept_acc.push(Seq::empty());
                kept_prev.lemma_flatten_push(Seq::empty());
                assert(kept_prev.flatten() + Seq::<Vec<u32>>::empty() =~= kept_prev.flatten());
                assert forall|x: Vec<u32>|
                    Seq::<Vec<u32>>::empty().to_multiset().count(x) <= orig[c as int]@.to_multiset()
                        .count(x) by {
                    if Seq::<Vec<u32>>::empty().to_multiset().count(x) > 0 {
                        assert(Seq::<Vec<u32>>::empty().contains(x));
                    }
                }
                assert(Seq::<Vec<u32>>::empty().to_multiset().subset_of(
                    orig[c as int]@.to_multiset(),
                ));
            }
        }
        c = c + 1;
    }
    proof {
        assert(labels@ + labels_from(orig, t as int, k as int) =~= labels@);
        assert(balanced_features(orig, t as int, feats@)) by {
            assert(kept_acc.len() == orig.len());
            assert(feats@ == kept_acc.flatten());
        }
    }
    Ok((feats, labels))
}

} // verus!
