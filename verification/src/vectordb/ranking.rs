//! Ranking by similarity score, best first.

use vstd::prelude::*;

verus! {

/// The place of a single-precision number in the order of such numbers, from
/// the bits that spell it: the magnitude, negated under the sign bit. Bits that
/// spell no number have their place by the same rule.
pub open spec fn score_key(bits: u32) -> int {
    if bits < 0x8000_0000 {
        bits as int
    } else {
        0x8000_0000 - bits
    }
}

/// Where an item with key `key` goes in `order`: behind every item that scores
/// at least as high.
pub open spec fn slot(order: Seq<int>, scores: Seq<u32>, key: int) -> int
    decreases order.len(),
{
    if order.len() == 0 || score_key(scores[order.last()]) >= key {
        order.len() as int
    } else {
        slot(order.drop_last(), scores, key)
    }
}

/// The indices of `scores`, highest score first, equal scores in index order.
pub open spec fn ranked(scores: Seq<u32>) -> Seq<int>
    decreases scores.len(),
{
    if scores.len() == 0 {
        Seq::empty()
    } else {
        let before = ranked(scores.drop_last());
        let last = scores.len() - 1;
        before.insert(slot(before, scores, score_key(scores[last])), last)
    }
}

/// The first `k` of `order`, or all of it.
pub open spec fn best(order: Seq<int>, k: int) -> Seq<int> {
    if k < order.len() {
        order.take(k)
    } else {
        order
    }
}

/// Whether `i` is to stand before `j`.
pub open spec fn precedes(scores: Seq<u32>, i: int, j: int) -> bool {
    score_key(scores[i]) > score_key(scores[j]) || (score_key(scores[i]) == score_key(scores[j])
        && i < j)
}

/// Whether `order` holds indices of `scores` in ranking order.
pub open spec fn in_order(order: Seq<int>, scores: Seq<u32>) -> bool {
    &&& forall|a: int| 0 <= a < order.len() ==> 0 <= #[trigger] order[a] < scores.len()
    &&& forall|a: int, b: int|
        0 <= a < b < order.len() ==> precedes(scores, #[trigger] order[a], #[trigger] order[b])
}

proof fn lemma_slot(order: Seq<int>, scores: Seq<u32>, key: int)
    requires
        in_order(order, scores),
    ensures
        0 <= slot(order, scores, key) <= order.len(),
        forall|a: int|
            0 <= a < slot(order, scores, key) ==> score_key(scores[#[trigger] order[a]]) >= key,
        forall|a: int|
            slot(order, scores, key) <= a < order.len() ==> score_key(scores[#[trigger] order[a]])
                < key,
    decreases order.len(),
{
    if order.len() > 0 && score_key(scores[order.last()]) < key {
        let front = order.drop_last();
        assert(forall|a: int| 0 <= a < front.len() ==> front[a] == order[a]);
        lemma_slot(front, scores, key);
        assert forall|a: int| 0 <= a < slot(order, scores, key) implies score_key(
            scores[#[trigger] order[a]],
        ) >= key by {
            assert(front[a] == order[a]);
        }
        assert forall|a: int| slot(order, scores, key) <= a < order.len() implies score_key(
            scores[#[trigger] order[a]],
        ) < key by {
            if a < front.len() {
                assert(front[a] == order[a]);
            }
        }
    } else if order.len() > 0 {
        assert forall|a: int| 0 <= a < order.len() implies score_key(scores[#[trigger] order[a]])
            >= key by {
            if a < order.len() - 1 {
                assert(precedes(scores, order[a], order[order.len() - 1]));
            }
        }
    }
}

/// The ranking holds every index once, a higher score before a lower one and,
/// among equal scores, a smaller index before a larger one.
pub proof fn law_ranked_is_stable_descending(scores: Seq<u32>)
    ensures
        ranked(scores).len() == scores.len(),
        in_order(ranked(scores), scores),
        ranked(scores).no_duplicates(),
    decreases scores.len(),
{
    if scores.len() > 0 {
        let shorter = scores.drop_last();
        let before = ranked(shorter);
        law_ranked_is_stable_descending(shorter);
        let last = scores.len() - 1;
        let key = score_key(scores[last]);
        assert forall|a: int| 0 <= a < before.len() implies scores[#[trigger] before[a]]
            == shorter[before[a]] by {}
        assert(in_order(before, scores));
        lemma_slot(before, scores, key);
        let at = slot(before, scores, key);
        let order = ranked(scores);
        assert(order =~= before.insert(at, last));
        assert forall|a: int| 0 <= a < order.len() implies 0 <= #[trigger] order[a]
            < scores.len() by {
            if a < at {
                assert(order[a] == before[a]);
            } else if a > at {
                assert(order[a] == before[a - 1]);
            }
        }
        assert forall|a: int, b: int| 0 <= a < b < order.len() implies precedes(
            scores,
            #[trigger] order[a],
            #[trigger] order[b],
        ) by {
            if a < at {
                assert(order[a] == before[a]);
            } else if a > at {
                assert(order[a] == before[a - 1]);
            }
            if b < at {
                assert(order[b] == before[b]);
            } else if b > at {
                assert(order[b] == before[b - 1]);
            }
        }
        assert(order.no_duplicates());
    }
}

/// What is left out of the best `k` never scores higher than what is in.
pub proof fn law_best_outscore_the_rest(scores: Seq<u32>, k: int, a: int, b: int)
    requires
        0 <= k,
        0 <= a < best(ranked(scores), k).len(),
        best(ranked(scores), k).len() <= b < ranked(scores).len(),
    ensures
        score_key(scores[best(ranked(scores), k)[a]]) >= score_key(scores[ranked(scores)[b]]),
{
    law_ranked_is_stable_descending(scores);
    assert(best(ranked(scores), k)[a] == ranked(scores)[a]);
}

/// A ranking holds every index.
pub proof fn law_ranked_holds_every_index(scores: Seq<u32>, i: int)
    requires
        0 <= i < scores.len(),
    ensures
        ranked(scores).contains(i),
    decreases scores.len(),
{
    let before = ranked(scores.drop_last());
    let last = scores.len() - 1;
    let at = slot(before, scores, score_key(scores[last]));
    law_ranked_is_stable_descending(scores.drop_last());
    assert(in_order(before, scores)) by {
        assert forall|a: int| 0 <= a < before.len() implies scores[#[trigger] before[a]]
            == scores.drop_last()[before[a]] by {}
    }
    lemma_slot(before, scores, score_key(scores[last]));
    let whole = before.insert(at, last);
    if i == last {
        assert(whole[at] == last);
    } else {
        law_ranked_holds_every_index(scores.drop_last(), i);
        let a = choose|a: int| 0 <= a < before.len() && before[a] == i;
        if a < at {
            assert(whole[a] == i);
        } else {
            assert(whole[a + 1] == i);
        }
    }
}

/// Whether the score that `a` spells is at least the one that `b` spells.
fn at_least(a: u32, b: u32) -> (r: bool)
    ensures
        r == (score_key(a) >= score_key(b)),
{
    if a < 0x8000_0000 {
        b >= 0x8000_0000 || a >= b
    } else if b < 0x8000_0000 {
        a == 0x8000_0000 && b == 0
    } else {
        a <= b
    }
}

proof fn lemma_slot_of_best(order: Seq<int>, scores: Seq<u32>, key: int, k: int)
    requires
        in_order(order, scores),
        0 <= k,
    ensures
        slot(order, scores, key) <= best(order, k).len() ==> slot(best(order, k), scores, key)
            == slot(order, scores, key),
        slot(order, scores, key) > best(order, k).len() ==> slot(best(order, k), scores, key) == k,
{
    let front = best(order, k);
    assert(forall|a: int| 0 <= a < front.len() ==> front[a] == order[a]);
    assert(in_order(front, scores));
    lemma_slot(order, scores, key);
    lemma_slot(front, scores, key);
    let at = slot(order, scores, key);
    let bt = slot(front, scores, key);
    if at <= front.len() {
        if bt < at {
            assert(front[bt] == order[bt]);
        } else if at < bt {
            assert(front[at] == order[at]);
        }
    } else {
        if bt < front.len() {
            assert(front[bt] == order[bt]);
        }
    }
}

/// The indices of the best `top_k` scores, best first.
pub fn rank(scores: &[u32], top_k: usize) -> (r: Vec<usize>)
    ensures
        r@.len() == best(ranked(scores@), top_k as int).len(),
        forall|a: int| 0 <= a < r@.len() ==> #[trigger] r@[a] == best(ranked(scores@), top_k as int)[a],
{
    let mut order: Vec<usize> = Vec::new();
    let mut i: usize = 0;
    assert(scores@.take(0) =~= Seq::<u32>::empty());
    while i < scores.len()
        invariant
            i <= scores@.len(),
            order@.len() == best(ranked(scores@.take(i as int)), top_k as int).len(),
            forall|a: int|
                0 <= a < order@.len() ==> #[trigger] order@[a] == best(
                    ranked(scores@.take(i as int)),
                    top_k as int,
                )[a],
        decreases scores@.len() - i,
    {
        let ghost seen = scores@.take(i as int);
        let ghost more = scores@.take(i + 1);
        let ghost full = ranked(seen);
        let ghost top = best(full, top_k as int);
        let ghost key = score_key(scores@[i as int]);
        proof {
            law_ranked_is_stable_descending(seen);
            assert(more.drop_last() =~= seen);
            assert(forall|a: int| 0 <= a < full.len() ==> more[#[trigger] full[a]] == seen[full[a]]);
            assert(in_order(full, more));
            assert(forall|a: int| 0 <= a < top.len() ==> top[a] == full[a]);
            lemma_slot_of_best(full, more, key, top_k as int);
            lemma_slot(full, more, key);
            assert(in_order(top, more));
            lemma_slot(top, more, key);
            assert(top.take(top.len() as int) =~= top);
        }
        let mut at: usize = order.len();
        while at > 0 && !at_least(scores[order[at - 1]], scores[i])
            invariant
                i < scores@.len(),
                more == scores@.take(i + 1),
                key == score_key(scores@[i as int]),
                at <= order@.len() == top.len(),
                forall|a: int| 0 <= a < order@.len() ==> #[trigger] order@[a] == top[a],
                forall|a: int| 0 <= a < top.len() ==> 0 <= #[trigger] top[a] < i,
                slot(top.take(at as int), more, key) == slot(top, more, key),
            decreases at,
        {
            proof {
                let part = top.take(at as int);
                assert(order@[at - 1] == top[at - 1]);
                assert(part.last() == top[at - 1]);
                assert(more[top[at - 1]] == scores@[top[at - 1]]);
                assert(part.drop_last() =~= top.take(at - 1));
            }
            at -= 1;
        }
        proof {
            let part = top.take(at as int);
            if at > 0 {
                assert(order@[at - 1] == top[at - 1]);
                assert(part.last() == top[at - 1]);
                assert(more[top[at - 1]] == scores@[top[at - 1]]);
            }
            assert(slot(part, more, key) == at);
        }
        let ghost grown = ranked(more);
        assert(grown == full.insert(slot(full, more, key), i as int));
        let ghost old_order = order@;
        if at < top_k {
            order.insert(at, i);
            if order.len() > top_k {
                order.truncate(top_k);
            }
            proof {
                let want = best(grown, top_k as int);
                assert(slot(full, more, key) == at);
                assert forall|a: int| 0 <= a < order@.len() implies #[trigger] order@[a] == want[a] by {
                    if a < at {
                        assert(old_order[a] == top[a]);
                    } else if a > at {
                        assert(old_order[a - 1] == top[a - 1]);
                    }
                }
            }
        } else {
            proof {
                let want = best(grown, top_k as int);
                assert(slot(full, more, key) >= top_k);
                assert forall|a: int| 0 <= a < order@.len() implies #[trigger] order@[a] == want[a] by {
                    assert(old_order[a] == top[a]);
                }
            }
        }
        i += 1;
    }
    assert(scores@.take(scores@.len() as int) =~= scores@);
    order
}

/// Bits are placed as the numbers that they spell. Those without the sign bit grow
/// with the number; those with it fall as the bits grow; a negative number other
/// than zero is below every number that is not negative; the two zeros are equal.
pub proof fn law_scores_are_ordered_as_numbers(a: u32, b: u32)
    ensures
        a < 0x8000_0000 && b < 0x8000_0000 ==> (score_key(a) < score_key(b) <==> a < b),
        a > 0x8000_0000 && b > 0x8000_0000 ==> (score_key(a) < score_key(b) <==> a > b),
        a > 0x8000_0000 && b < 0x8000_0000 ==> score_key(a) < score_key(b),
        a > 0x8000_0000 ==> score_key(a) < score_key(0x8000_0000),
        score_key(0x8000_0000) == score_key(0),
{
}

/// Of two items of a ranking the first spells a number that is not below the other:
/// told from the bits alone. Equal numbers keep their order.
pub proof fn law_ranking_goes_by_the_bits(scores: Seq<u32>, a: int, b: int)
    requires
        0 <= a < b < ranked(scores).len(),
    ensures
        ({
            let x = scores[ranked(scores)[a]];
            let y = scores[ranked(scores)[b]];
            &&& 0 <= ranked(scores)[a] < scores.len()
            &&& 0 <= ranked(scores)[b] < scores.len()
            &&& x < 0x8000_0000 && y < 0x8000_0000 ==> x >= y
            &&& x >= 0x8000_0000 && y >= 0x8000_0000 ==> x <= y
            &&& x > 0x8000_0000 ==> y > 0x8000_0000
            &&& x == 0x8000_0000 && y < 0x8000_0000 ==> y == 0
            &&& x == y ==> ranked(scores)[a] < ranked(scores)[b]
            &&& x == 0 && y == 0x8000_0000 ==> ranked(scores)[a] < ranked(scores)[b]
            &&& x == 0x8000_0000 && y == 0 ==> ranked(scores)[a] < ranked(scores)[b]
        }),
{
    law_ranked_is_stable_descending(scores);
    assert(precedes(scores, ranked(scores)[a], ranked(scores)[b]));
}

/// The best are the front of the ranking, as many as are wanted and there.
pub proof fn law_best_are_the_front(scores: Seq<u32>, k: int)
    requires
        0 <= k,
    ensures
        k <= scores.len() ==> best(ranked(scores), k).len() == k,
        k > scores.len() ==> best(ranked(scores), k).len() == scores.len(),
        forall|a: int|
            0 <= a < best(ranked(scores), k).len() ==> #[trigger] best(ranked(scores), k)[a]
                == ranked(scores)[a],
{
    law_ranked_is_stable_descending(scores);
}

/// What ranking gives: as many indices as are wanted and there, all different, each of a
/// score that is no number below any that follows, as the bits tell, and of equal scores
/// the smaller index first.
pub proof fn law_rank_gives_the_best_by_bits(
    scores: &[u32],
    top_k: usize,
    r: Vec<usize>,
    a: int,
    b: int,
)
    requires
        call_ensures(rank, (scores, top_k), r),
        0 <= a < b < r@.len(),
    ensures
        r@.len() == vstd::math::min(top_k as int, scores@.len() as int),
        r@[a] < scores@.len() && r@[b] < scores@.len() && r@[a] != r@[b],
        ({
            let x = scores@[r@[a] as int];
            let y = scores@[r@[b] as int];
            &&& x < 0x8000_0000 && y < 0x8000_0000 ==> x >= y
            &&& x >= 0x8000_0000 && y >= 0x8000_0000 ==> x <= y
            &&& x > 0x8000_0000 ==> y > 0x8000_0000
            &&& x == 0x8000_0000 && y < 0x8000_0000 ==> y == 0
            &&& x == y ==> r@[a] < r@[b]
        }),
{
    law_best_are_the_front(scores@, top_k as int);
    law_ranking_goes_by_the_bits(scores@, a, b);
    law_ranked_is_stable_descending(scores@);
}

/// What ranking leaves out is no number above any that it gives, as the bits tell.
pub proof fn law_rank_leaves_out_nothing_better(
    scores: &[u32],
    top_k: usize,
    r: Vec<usize>,
    a: int,
    i: int,
)
    requires
        call_ensures(rank, (scores, top_k), r),
        0 <= a < r@.len(),
        0 <= i < scores@.len(),
        !r@.contains(i as usize),
        scores@.len() <= usize::MAX,
    ensures
        ({
            let x = scores@[r@[a] as int];
            let y = scores@[i];
            &&& x < 0x8000_0000 && y < 0x8000_0000 ==> x >= y
            &&& x >= 0x8000_0000 && y >= 0x8000_0000 ==> x <= y
            &&& x > 0x8000_0000 ==> y > 0x8000_0000
        }),
{
    law_best_are_the_front(scores@, top_k as int);
    law_ranked_holds_every_index(scores@, i);
    let order = ranked(scores@);
    let b = choose|b: int| 0 <= b < order.len() && order[b] == i;
    if b < r@.len() {
        assert(r@[b] == i as usize);
    }
    law_ranking_goes_by_the_bits(scores@, a, b);
}

} // verus!
