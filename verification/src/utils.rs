//! Bounded top-K retention of scored candidates, shared by the suggestion
//! engine.

use vstd::multiset::Multiset;
use vstd::prelude::*;

verus! {

/// How many fuzzy suggestions a query retains at most.
pub const MAX_SUGGESTIONS: usize = 5;

/// A scored candidate: an item together with its similarity to the query.
/// The score is the IEEE-754 bit pattern of the (non-negative) similarity, on
/// which the unsigned order coincides with the numeric order of the scores.
#[derive(Debug)]
pub struct Suggestion<T> {
    pub item: T,
    pub similarity: u32,
}

/// Index of the first element with minimal similarity.
pub open spec fn min_sim_idx<T>(s: Seq<Suggestion<T>>) -> int
    decreases s.len(),
{
    if s.len() <= 1 {
        0
    } else {
        let m = min_sim_idx(s.drop_last());
        if s.last().similarity < s[m].similarity {
            s.len() - 1
        } else {
            m
        }
    }
}

pub(crate) proof fn lemma_min_sim_idx<T>(s: Seq<Suggestion<T>>)
    requires
        s.len() > 0,
    ensures
        0 <= min_sim_idx(s) < s.len(),
        forall|j: int|
            0 <= j < s.len() ==> s[min_sim_idx(s)].similarity <= (#[trigger] s[j]).similarity,
    decreases s.len(),
{
    if s.len() > 1 {
        lemma_min_sim_idx(s.drop_last());
        assert(forall|j: int| 0 <= j < s.len() - 1 ==> s.drop_last()[j] == s[j]);
    }
}

/// Index of the first element with maximal similarity.
spec fn max_sim_idx<T>(s: Seq<Suggestion<T>>) -> int
    decreases s.len(),
{
    if s.len() <= 1 {
        0
    } else {
        let m = max_sim_idx(s.drop_last());
        if s.last().similarity > s[m].similarity {
            s.len() - 1
        } else {
            m
        }
    }
}

proof fn lemma_max_sim_idx<T>(s: Seq<Suggestion<T>>)
    requires
        s.len() > 0,
    ensures
        0 <= max_sim_idx(s) < s.len(),
        forall|j: int|
            0 <= j < s.len() ==> s[max_sim_idx(s)].similarity >= (#[trigger] s[j]).similarity,
    decreases s.len(),
{
    if s.len() > 1 {
        lemma_max_sim_idx(s.drop_last());
        assert(forall|j: int| 0 <= j < s.len() - 1 ==> s.drop_last()[j] == s[j]);
    }
}

/// One step of bounded top-K retention over an unordered buffer: below
/// capacity the candidate is inserted unconditionally; at capacity it
/// replaces the first minimally-scored element if it scores strictly higher,
/// and is discarded otherwise.
pub fn queue_suggestions<T>(heap: &mut Vec<Suggestion<T>>, item: T, similarity: u32)
    ensures
        old(heap)@.len() < MAX_SUGGESTIONS ==> final(heap)@ == old(heap)@.push(
            Suggestion { item, similarity },
        ),
        old(heap)@.len() >= MAX_SUGGESTIONS && similarity > old(heap)@[min_sim_idx(
            old(heap)@,
        )].similarity ==> final(heap)@ == old(heap)@.remove(min_sim_idx(old(heap)@)).push(
            Suggestion { item, similarity },
        ),
        old(heap)@.len() >= MAX_SUGGESTIONS && similarity <= old(heap)@[min_sim_idx(
            old(heap)@,
        )].similarity ==> final(heap)@ == old(heap)@,
{
    if heap.len() < MAX_SUGGESTIONS {
        heap.push(Suggestion { item, similarity });
    } else {
        proof {
            lemma_min_sim_idx(heap@);
        }
        let n = heap.len();
        let mut mi: usize = 0;
        let mut j: usize = 1;
        while j < n
            invariant
                heap@ == old(heap)@,
                1 <= j <= n,
                n == heap@.len(),
                n >= 1,
                0 <= mi < j,
                mi == min_sim_idx(heap@.take(j as int)),
            decreases n - j,
        {
            proof {
                assert(heap@.take(j + 1).drop_last() =~= heap@.take(j as int));
                assert(heap@.take(j + 1).last() == heap@[j as int]);
            }
            if heap[j].similarity < heap[mi].similarity {
                mi = j;
            }
            j = j + 1;
        }
        proof {
            assert(heap@.take(n as int) =~= heap@);
        }
        if similarity > heap[mi].similarity {
            heap.remove(mi);
            heap.push(Suggestion { item, similarity });
        }
    }
}

/// The views of scored candidates: each suggestion as the pair of its item's
/// view and its score.
pub open spec fn sugg_pairs<T: View>(s: Seq<Suggestion<T>>) -> Seq<(<T as View>::V, u32)> {
    s.map_values(|g: Suggestion<T>| (g.item@, g.similarity))
}

pub(crate) proof fn lemma_sugg_pairs_push<T: View>(s: Seq<Suggestion<T>>, g: Suggestion<T>)
    ensures
        sugg_pairs(s.push(g)) == sugg_pairs(s).push((g.item@, g.similarity)),
{
    assert(sugg_pairs(s.push(g)) =~= sugg_pairs(s).push((g.item@, g.similarity)));
}

pub(crate) proof fn lemma_sugg_pairs_remove<T: View>(s: Seq<Suggestion<T>>, i: int)
    requires
        0 <= i < s.len(),
    ensures
        sugg_pairs(s.remove(i)) == sugg_pairs(s).remove(i),
{
    assert(sugg_pairs(s.remove(i)) =~= sugg_pairs(s).remove(i));
}

/// Non-increasing similarity from front to back.
pub open spec fn sorted_desc<T>(s: Seq<Suggestion<T>>) -> bool {
    forall|i: int, j: int|
        0 <= i <= j < s.len() ==> (#[trigger] s[i]).similarity >= (#[trigger] s[j]).similarity
}

/// Order the retained suggestions by descending similarity (repeatedly moving
/// a maximal element out); the contents are kept exactly.
pub fn sort_suggestions_desc<T: View>(v: Vec<Suggestion<T>>) -> (r: Vec<Suggestion<T>>)
    ensures
        sorted_desc(r@),
        r@.to_multiset() == v@.to_multiset(),
        sugg_pairs(r@).to_multiset() == sugg_pairs(v@).to_multiset(),
        r@.len() == v@.len(),
{
    broadcast use vstd::seq_lib::group_to_multiset_ensures;

    let mut rem = v;
    let mut out: Vec<Suggestion<T>> = Vec::new();
    proof {
        assert(out@.to_multiset().add(rem@.to_multiset()) =~= rem@.to_multiset());
        assert(sugg_pairs(out@).to_multiset().add(sugg_pairs(rem@).to_multiset())
            =~= sugg_pairs(rem@).to_multiset());
    }
    loop
        invariant
            out@.to_multiset().add(rem@.to_multiset()) == v@.to_multiset(),
            sugg_pairs(out@).to_multiset().add(sugg_pairs(rem@).to_multiset()) == sugg_pairs(
                v@,
            ).to_multiset(),
            out@.len() + rem@.len() == v@.len(),
            sorted_desc(out@),
            forall|i: int, j: int|
                0 <= i < out@.len() && 0 <= j < rem@.len() ==> (#[trigger] out@[i]).similarity
                    >= (#[trigger] rem@[j]).similarity,
        ensures
            rem@.len() == 0,
            out@.to_multiset() == v@.to_multiset(),
            sugg_pairs(out@).to_multiset() == sugg_pairs(v@).to_multiset(),
            out@.len() == v@.len(),
            sorted_desc(out@),
        decreases rem@.len(),
    {
        if rem.len() == 0 {
            proof {
                vstd::multiset::lemma_multiset_empty_len(rem@.to_multiset());
                vstd::seq_lib::to_multiset_len(rem@);
                assert(rem@.to_multiset().len() == rem@.len());
                assert(rem@.to_multiset() =~= Multiset::<Suggestion<T>>::empty());
                assert(out@.to_multiset().add(Multiset::<Suggestion<T>>::empty())
                    =~= out@.to_multiset());
                vstd::multiset::lemma_multiset_empty_len(sugg_pairs(rem@).to_multiset());
                vstd::seq_lib::to_multiset_len(sugg_pairs(rem@));
                assert(sugg_pairs(rem@).to_multiset() =~= Multiset::<(<T as View>::V, u32)>::empty());
                assert(sugg_pairs(out@).to_multiset().add(Multiset::<(<T as View>::V, u32)>::empty())
                    =~= sugg_pairs(out@).to_multiset());
            }
            break ;
        }
        proof {
            lemma_max_sim_idx(rem@);
        }
        let n = rem.len();
        let mut mx: usize = 0;
        let mut j: usize = 1;
        while j < n
            invariant
                1 <= j <= n,
                n == rem@.len(),
                n >= 1,
                0 <= mx < j,
                mx == max_sim_idx(rem@.take(j as int)),
            decreases n - j,
        {
            proof {
                assert(rem@.take(j + 1).drop_last() =~= rem@.take(j as int));
                assert(rem@.take(j + 1).last() == rem@[j as int]);
            }
            if rem[j].similarity > rem[mx].similarity {
                mx = j;
            }
            j = j + 1;
        }
        proof {
            assert(rem@.take(n as int) =~= rem@);
        }
        let ghost old_out = out@;
        let ghost old_rem = rem@;
        let s = rem.remove(mx);
        out.push(s);
        proof {
            vstd::seq_lib::to_multiset_build(old_out, s);
            vstd::seq_lib::to_multiset_remove(old_rem, mx as int);
            assert(out@.to_multiset() =~= old_out.to_multiset().insert(s));
            assert(rem@.to_multiset() =~= old_rem.to_multiset().remove(s));
            assert(old_rem[mx as int] == s);
            assert(old_rem.contains(s));
            vstd::seq_lib::to_multiset_contains(old_rem, s);
            assert(old_rem.to_multiset().count(s) > 0);
            assert(out@.to_multiset().add(rem@.to_multiset()) =~= old_out.to_multiset().add(
                old_rem.to_multiset(),
            ));
            assert(forall|j: int| 0 <= j < rem@.len() ==> exists|k: int|
                0 <= k < old_rem.len() && #[trigger] rem@[j] == old_rem[k]);
            let ps = (s.item@, s.similarity);
            lemma_sugg_pairs_push(old_out, s);
            lemma_sugg_pairs_remove(old_rem, mx as int);
            vstd::seq_lib::to_multiset_build(sugg_pairs(old_out), ps);
            vstd::seq_lib::to_multiset_remove(sugg_pairs(old_rem), mx as int);
            assert(sugg_pairs(old_rem)[mx as int] == ps);
            assert(sugg_pairs(out@).to_multiset() =~= sugg_pairs(old_out).to_multiset().insert(
                ps,
            ));
            assert(sugg_pairs(rem@).to_multiset() =~= sugg_pairs(old_rem).to_multiset().remove(
                ps,
            ));
            assert(sugg_pairs(old_rem).contains(ps));
            vstd::seq_lib::to_multiset_contains(sugg_pairs(old_rem), ps);
            assert(sugg_pairs(old_rem).to_multiset().count(ps) > 0);
            assert(sugg_pairs(out@).to_multiset().add(sugg_pairs(rem@).to_multiset())
                =~= sugg_pairs(old_out).to_multiset().add(sugg_pairs(old_rem).to_multiset()));
        }
    }
    out
}

} // verus!
