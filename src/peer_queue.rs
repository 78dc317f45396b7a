//! The order in which the entries of a peer queue, pairs of a value and its
//! score, are handed out: by score, and in their given order among equal
//! scores.
use vstd::prelude::*;

verus! {

/// The entries of `s` whose score is `score`, in their order in `s`.
pub open spec fn with_score(s: Seq<(u32, u32)>, score: u32) -> Seq<(u32, u32)>
    decreases s.len(),
{
    if s.len() == 0 {
        Seq::empty()
    } else if s.last().1 == score {
        with_score(s.drop_last(), score).push(s.last())
    } else {
        with_score(s.drop_last(), score)
    }
}

/// Scores never decrease along `s`.
pub open spec fn sorted_by_score(s: Seq<(u32, u32)>) -> bool {
    forall|i: int, j: int| 0 <= i < j < s.len() ==> s[i].1 <= s[j].1
}

proof fn lemma_with_score_add(a: Seq<(u32, u32)>, b: Seq<(u32, u32)>, score: u32)
    ensures
        with_score(a + b, score) == with_score(a, score) + with_score(b, score),
    decreases b.len(),
{
    if b.len() == 0 {
        assert(a + b =~= a);
        assert(with_score(a, score) + with_score(b, score) =~= with_score(a, score));
    } else {
        assert((a + b).drop_last() =~= a + b.drop_last());
        assert((a + b).last() == b.last());
        lemma_with_score_add(a, b.drop_last(), score);
        if b.last().1 == score {
            assert(with_score(a, score) + with_score(b.drop_last(), score).push(b.last())
                =~= (with_score(a, score) + with_score(b.drop_last(), score)).push(b.last()));
        }
    }
}

proof fn lemma_with_score_above(b: Seq<(u32, u32)>, score: u32)
    requires
        forall|j: int| 0 <= j < b.len() ==> b[j].1 > score,
    ensures
        with_score(b, score) == Seq::<(u32, u32)>::empty(),
    decreases b.len(),
{
    if b.len() > 0 {
        lemma_with_score_above(b.drop_last(), score);
    }
}

proof fn lemma_with_score_single(x: (u32, u32), score: u32)
    ensures
        with_score(seq![x], score) == (if x.1 == score {
            seq![x]
        } else {
            Seq::<(u32, u32)>::empty()
        }),
{
    let e = Seq::<(u32, u32)>::empty();
    assert(seq![x].len() == 1 && seq![x].last() == x);
    assert(seq![x].drop_last() =~= e);
    assert(with_score(e, score) == e);
    assert(e.push(x) =~= seq![x]);
}

/// The entries sorted by score; entries of equal score keep their order.
pub fn sort_by_score(entries: &Vec<(u32, u32)>) -> (r: Vec<(u32, u32)>)
    ensures
        sorted_by_score(r@),
        forall|score: u32| #[trigger] with_score(r@, score) == with_score(entries@, score),
{
    let mut out: Vec<(u32, u32)> = Vec::new();
    let mut i: usize = 0;
    while i < entries.len()
        invariant
            i <= entries@.len(),
            sorted_by_score(out@),
            forall|score: u32| #[trigger] with_score(out@, score) == with_score(entries@.take(i as int), score),
        decreases entries.len() - i,
    {
        let x = entries[i];
        let mut p: usize = 0;
        while p < out.len() && out[p].1 <= x.1
            invariant
                p <= out@.len(),
                forall|j: int| 0 <= j < p ==> out@[j].1 <= x.1,
            decreases out.len() - p,
        {
            p = p + 1;
        }
        let ghost before = out@;
        proof {
            assert forall|j: int| p <= j < before.len() implies before[j].1 > x.1 by {
                if p < before.len() {
                    assert(before[p as int].1 > x.1);
                }
            }
        }
        out.insert(p, x);
        proof {
            let head = before.take(p as int);
            let tail = before.skip(p as int);
            assert(before =~= head + tail);
            assert(out@ =~= head + seq![x] + tail);
            assert(entries@.take(i + 1) =~= entries@.take(i as int).push(x));
            assert(entries@.take(i + 1).drop_last() =~= entries@.take(i as int));
            assert forall|score: u32| #[trigger] with_score(out@, score) == with_score(
                entries@.take(i + 1),
                score,
            ) by {
                lemma_with_score_add(head + seq![x], tail, score);
                lemma_with_score_add(head, seq![x], score);
                lemma_with_score_add(head, tail, score);
                lemma_with_score_single(x, score);
                if x.1 == score {
                    assert forall|j: int| 0 <= j < tail.len() implies tail[j].1 > score by {
                        assert(tail[j] == before[p + j]);
                    }
                    lemma_with_score_above(tail, score);
                    assert(with_score(head, score) + with_score(tail, score) =~= with_score(head, score));
                    assert(with_score(head, score) + seq![x] =~= with_score(head, score).push(x));
                } else {
                    assert(with_score(head, score) + Seq::<(u32, u32)>::empty() =~= with_score(head, score));
                }
            }
            assert(sorted_by_score(out@)) by {
                assert forall|a: int, b: int| 0 <= a < b < out@.len() implies out@[a].1 <= out@[b].1 by {
                    if a < p && b < p {
                        assert(out@[a] == before[a] && out@[b] == before[b]);
                    } else if a < p && b == p {
                        assert(out@[a] == before[a]);
                    } else if a < p {
                        assert(out@[a] == before[a] && out@[b] == before[b - 1]);
                    } else if a == p {
                        assert(out@[b] == before[b - 1]);
                    } else {
                        assert(out@[a] == before[a - 1] && out@[b] == before[b - 1]);
                    }
                }
            }
        }
        i = i + 1;
    }
    proof {
        assert(entries@.take(entries@.len() as int) =~= entries@);
    }
    out
}

} // verus!
