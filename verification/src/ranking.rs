use vstd::prelude::*;
use crate::labels::spec_label;
use crate::labels::label_for;

verus! {

/// One ranked result: a label and its confidence.  The score is kept in
/// hundredths of a percent, so 9812 means 98.12 %.
#[derive(Clone, Debug)]
pub struct Classification {
    pub label: String,
    pub score: u32,
}

/// The strict order in which output index `i` comes before output index `j`:
/// higher score first, and on a tie the original index order.
pub open spec fn outranks(scores: Seq<u32>, i: int, j: int) -> bool {
    scores[i] > scores[j] || (scores[i] == scores[j] && i < j)
}

/// `s` is ranked: every index comes before all those it outranks.
pub open spec fn ranked(scores: Seq<u32>, s: Seq<int>) -> bool {
    forall|k: int, l: int| 0 <= k < l < s.len() ==> outranks(scores, s[k], s[l])
}

/// Index `i` inserted into the ranked index list `s`, before the first entry
/// it outranks.
pub open spec fn ranked_insert(scores: Seq<u32>, s: Seq<int>, i: int) -> Seq<int>
    decreases s.len(),
{
    if s.len() == 0 {
        seq![i]
    } else if outranks(scores, i, s[0]) {
        seq![i] + s
    } else {
        seq![s[0]] + ranked_insert(scores, s.drop_first(), i)
    }
}

/// The indices `0 .. n`, ranked.
pub open spec fn rank_order_up_to(scores: Seq<u32>, n: int) -> Seq<int>
    decreases n,
{
    if n <= 0 {
        Seq::empty()
    } else {
        ranked_insert(scores, rank_order_up_to(scores, n - 1), n - 1)
    }
}

/// All indices of `scores`, best first.
pub open spec fn rank_order(scores: Seq<u32>) -> Seq<int> {
    rank_order_up_to(scores, scores.len() as int)
}

/// The index list a `Vec<usize>` stands for.
pub open spec fn order_indices(s: Seq<usize>) -> Seq<int> {
    s.map_values(|u: usize| u as int)
}

proof fn lemma_outranks_trans(scores: Seq<u32>, a: int, b: int, c: int)
    requires
        outranks(scores, a, b),
        outranks(scores, b, c),
    ensures
        outranks(scores, a, c),
{
}

proof fn lemma_outranks_total(scores: Seq<u32>, a: int, b: int)
    requires
        a != b,
        !outranks(scores, a, b),
    ensures
        outranks(scores, b, a),
{
}

proof fn lemma_concat_contains(a: Seq<int>, b: Seq<int>, x: int)
    ensures
        (a + b).contains(x) <==> a.contains(x) || b.contains(x),
{
    if (a + b).contains(x) {
        let k = choose|k: int| 0 <= k < (a + b).len() && (a + b)[k] == x;
        if k < a.len() {
            assert(a[k] == x);
        } else {
            assert(b[k - a.len()] == x);
        }
    }
    if a.contains(x) {
        let k = choose|k: int| 0 <= k < a.len() && a[k] == x;
        assert((a + b)[k] == x);
    }
    if b.contains(x) {
        let k = choose|k: int| 0 <= k < b.len() && b[k] == x;
        assert((a + b)[a.len() + k] == x);
    }
}

proof fn lemma_ranked_insert_props(scores: Seq<u32>, s: Seq<int>, i: int)
    requires
        ranked(scores, s),
        !s.contains(i),
    ensures
        ranked_insert(scores, s, i).len() == s.len() + 1,
        ranked(scores, ranked_insert(scores, s, i)),
        forall|x: int| #[trigger] ranked_insert(scores, s, i).contains(x) <==> (s.contains(x) || x == i),
    decreases s.len(),
{
    let r = ranked_insert(scores, s, i);
    if s.len() == 0 {
        assert(r == seq![i]);
        assert(r[0] == i);
        assert forall|x: int| #[trigger] r.contains(x) implies (s.contains(x) || x == i) by {
            let k = choose|k: int| 0 <= k < r.len() && r[k] == x;
            assert(k == 0);
        }
    } else if outranks(scores, i, s[0]) {
        assert(r == seq![i] + s);
        assert forall|k: int, l: int| 0 <= k < l < r.len() implies outranks(scores, r[k], r[l]) by {
            if k == 0 {
                assert(r[0] == i);
                assert(r[l] == s[l - 1]);
                if l > 1 {
                    assert(outranks(scores, s[0], s[l - 1]));
                    lemma_outranks_trans(scores, i, s[0], s[l - 1]);
                }
            } else {
                assert(r[k] == s[k - 1]);
                assert(r[l] == s[l - 1]);
            }
        }
        assert forall|x: int| #[trigger] r.contains(x) <==> (s.contains(x) || x == i) by {
            lemma_concat_contains(seq![i], s, x);
            if seq![i].contains(x) {
                let k = choose|k: int| 0 <= k < seq![i].len() && seq![i][k] == x;
                assert(k == 0);
            }
            if x == i {
                assert(seq![i][0] == x);
            }
        }
    } else {
        let tail = s.drop_first();
        assert(s == seq![s[0]] + tail);
        assert forall|k: int, l: int| 0 <= k < l < tail.len() implies outranks(
            scores,
            tail[k],
            tail[l],
        ) by {
            assert(tail[k] == s[k + 1]);
            assert(tail[l] == s[l + 1]);
        }
        assert(!tail.contains(i)) by {
            if tail.contains(i) {
                let k = choose|k: int| 0 <= k < tail.len() && tail[k] == i;
                assert(s[k + 1] == i);
            }
        }
        lemma_ranked_insert_props(scores, tail, i);
        let rt = ranked_insert(scores, tail, i);
        assert(r == seq![s[0]] + rt);
        assert(s.contains(s[0])) by {
            assert(s[0] == s[0]);
        }
        lemma_outranks_total(scores, i, s[0]);
        assert forall|k: int, l: int| 0 <= k < l < r.len() implies outranks(scores, r[k], r[l]) by {
            if k == 0 {
                assert(r[0] == s[0]);
                assert(r[l] == rt[l - 1]);
                assert(rt.contains(rt[l - 1]));
                if rt[l - 1] == i {
                } else {
                    assert(tail.contains(rt[l - 1]));
                    let m = choose|m: int| 0 <= m < tail.len() && tail[m] == rt[l - 1];
                    assert(tail[m] == s[m + 1]);
                    assert(outranks(scores, s[0], s[m + 1]));
                }
            } else {
                assert(r[k] == rt[k - 1]);
                assert(r[l] == rt[l - 1]);
            }
        }
        assert forall|x: int| #[trigger] r.contains(x) <==> (s.contains(x) || x == i) by {
            lemma_concat_contains(seq![s[0]], rt, x);
            lemma_concat_contains(seq![s[0]], tail, x);
            if x == s[0] {
                assert(seq![s[0]][0] == x);
            }
            if seq![s[0]].contains(x) {
                let k = choose|k: int| 0 <= k < seq![s[0]].len() && seq![s[0]][k] == x;
                assert(k == 0);
            }
        }
    }
}

proof fn lemma_rank_order_up_to_props(scores: Seq<u32>, n: int)
    requires
        0 <= n,
    ensures
        rank_order_up_to(scores, n).len() == n,
        ranked(scores, rank_order_up_to(scores, n)),
        forall|x: int| #[trigger] rank_order_up_to(scores, n).contains(x) <==> 0 <= x < n,
    decreases n,
{
    if n > 0 {
        lemma_rank_order_up_to_props(scores, n - 1);
        let prev = rank_order_up_to(scores, n - 1);
        lemma_ranked_insert_props(scores, prev, n - 1);
    }
}

/// The ranking is a permutation of the output indices, sorted: it lists every
/// index of `scores` exactly once, and the scores it picks out never increase
/// from one rank to the next.
pub proof fn lemma_rank_order_props(scores: Seq<u32>)
    ensures
        rank_order(scores).len() == scores.len(),
        forall|k: int| 0 <= k < scores.len() ==> 0 <= #[trigger] rank_order(scores)[k]
            < scores.len(),
        forall|k: int, l: int| 0 <= k < l < scores.len() ==> outranks(
            scores,
            rank_order(scores)[k],
            rank_order(scores)[l],
        ),
        forall|k: int, l: int| 0 <= k < l < scores.len() ==> scores[rank_order(scores)[k]]
            >= scores[rank_order(scores)[l]],
        forall|x: int| #[trigger] rank_order(scores).contains(x) <==> 0 <= x < scores.len(),
{
    lemma_rank_order_up_to_props(scores, scores.len() as int);
    let r = rank_order(scores);
    assert forall|k: int| 0 <= k < scores.len() implies 0 <= #[trigger] r[k] < scores.len() by {
        assert(r.contains(r[k]));
    }
    assert forall|k: int, l: int| 0 <= k < l < scores.len() implies scores[#[trigger] r[k]]
        >= scores[#[trigger] r[l]] by {
        assert(outranks(scores, r[k], r[l]));
    }
}

/// Ranked scores stay in range: when every class score is at most `bound`
/// (for a probability distribution scaled to hundredths of a percent, 10000),
/// so is every score the ranking picks out.
pub proof fn lemma_rank_scores_bounded(scores: Seq<u32>, bound: u32)
    requires
        forall|j: int| 0 <= j < scores.len() ==> #[trigger] scores[j] <= bound,
    ensures
        forall|k: int| 0 <= k < scores.len() ==> scores[#[trigger] rank_order(scores)[k]]
            <= bound,
{
    lemma_rank_order_props(scores);
}

/// Label-index alignment at the top: when one output index strictly beats
/// every other, it is ranked first, whatever its position in the table.
pub proof fn lemma_top_is_argmax(scores: Seq<u32>, m: int)
    requires
        0 <= m < scores.len(),
        forall|j: int| 0 <= j < scores.len() && j != m ==> scores[m] > #[trigger] scores[j],
    ensures
        rank_order(scores)[0] == m,
{
    lemma_rank_order_props(scores);
    let r = rank_order(scores);
    if r[0] != m {
        assert(r.contains(m));
        let k = choose|k: int| 0 <= k < r.len() && r[k] == m;
        assert(k > 0);
        assert(outranks(scores, r[0], r[k]));
        assert(scores[m] > scores[r[0]]);
        assert(false);
    }
}

proof fn lemma_ranked_insert_at(scores: Seq<u32>, s: Seq<int>, i: int, p: int)
    requires
        0 <= p <= s.len(),
        forall|k: int| 0 <= k < p ==> !outranks(scores, i, #[trigger] s[k]),
        p < s.len() ==> outranks(scores, i, s[p]),
    ensures
        ranked_insert(scores, s, i) == s.insert(p, i),
    decreases s.len(),
{
    if s.len() == 0 {
        assert(ranked_insert(scores, s, i) == seq![i]);
        assert(s.insert(0, i) =~= seq![i]);
    } else if outranks(scores, i, s[0]) {
        assert(p == 0);
        assert(seq![i] + s =~= s.insert(0, i));
    } else {
        assert(p > 0);
        let tail = s.drop_first();
        assert forall|k: int| 0 <= k < p - 1 implies !outranks(scores, i, #[trigger] tail[k]) by {
            assert(tail[k] == s[k + 1]);
        }
        assert(p - 1 < tail.len() ==> outranks(scores, i, tail[p - 1])) by {
            if p - 1 < tail.len() {
                assert(tail[p - 1] == s[p]);
            }
        }
        lemma_ranked_insert_at(scores, tail, i, p - 1);
        assert(seq![s[0]] + tail.insert(p - 1, i) =~= s.insert(p, i));
    }
}

proof fn lemma_order_indices_insert(a: Seq<usize>, p: int, v: usize)
    requires
        0 <= p <= a.len(),
    ensures
        order_indices(a.insert(p, v)) =~= order_indices(a).insert(p, v as int),
{
    a.insert_ensures(p, v);
    order_indices(a).insert_ensures(p, v as int);
}

/// Whether, in the exec ranking pass, new index `i` outranks the index stored
/// at `order[pos]`.
fn outranks_at(scores: &Vec<u32>, order: &Vec<usize>, i: usize, pos: usize) -> (b: bool)
    requires
        pos < order@.len(),
        i < scores@.len(),
        order@[pos as int] < scores@.len(),
    ensures
        b == outranks(scores@, i as int, order@[pos as int] as int),
{
    let j: usize = order[pos];
    scores[i] > scores[j] || (scores[i] == scores[j] && i < j)
}

/// Rank the per-class scores, best first, and keep the top three (fewer when
/// fewer classes were scored).  Each result pairs the label of an output
/// index with that index's score; ties keep the original index order.
pub fn classify_scores(scores: &Vec<u32>) -> (r: Vec<Classification>)
    ensures
        r@.len() == if scores@.len() < 3 { scores@.len() as int } else { 3int },
        forall|k: int| 0 <= k < r@.len() ==> #[trigger] r@[k].label@ == spec_label(
            rank_order(scores@)[k],
        ),
        forall|k: int| 0 <= k < r@.len() ==> #[trigger] r@[k].score == scores@[rank_order(
            scores@,
        )[k]],
        forall|k: int, l: int| 0 <= k < l < r@.len() ==> r@[k].score >= r@[l].score,
        forall|k: int| 0 <= k < r@.len() ==> scores@.contains(#[trigger] r@[k].score),
{
    let n: usize = scores.len();
    let mut order: Vec<usize> = Vec::new();
    let mut i: usize = 0;
    while i < n
        invariant
            i <= n,
            n == scores@.len(),
            order@.len() == i,
            order_indices(order@) == rank_order_up_to(scores@, i as int),
            forall|k: int| 0 <= k < order@.len() ==> #[trigger] order@[k] < n,
        decreases n - i,
    {
        proof {
            lemma_rank_order_up_to_props(scores@, i as int);
        }
        let mut pos: usize = 0;
        while pos < order.len() && !outranks_at(scores, &order, i, pos)
            invariant
                pos <= order@.len(),
                i < n,
                n == scores@.len(),
                order@.len() == i,
                forall|k: int| 0 <= k < order@.len() ==> #[trigger] order@[k] < n,
                forall|k: int| 0 <= k < pos ==> !outranks(
                    scores@,
                    i as int,
                    #[trigger] order_indices(order@)[k],
                ),
            decreases order@.len() - pos,
        {
            pos = pos + 1;
        }
        let ghost prev = order@;
        proof {
            lemma_ranked_insert_at(scores@, order_indices(prev), i as int, pos as int);
            lemma_order_indices_insert(prev, pos as int, i);
        }
        order.insert(pos, i);
        proof {
            prev.insert_ensures(pos as int, i);
            assert(order_indices(order@) =~= rank_order_up_to(scores@, i as int + 1));
        }
        i = i + 1;
    }
    proof {
        lemma_rank_order_props(scores@);
        assert(order_indices(order@) == rank_order(scores@));
    }
    let top: usize = if n < 3 {
        n
    } else {
        3
    };
    let mut out: Vec<Classification> = Vec::new();
    let mut k: usize = 0;
    while k < top
        invariant
            k <= top,
            top == if n < 3 { n as int } else { 3int },
            n == scores@.len(),
            order@.len() == n,
            order_indices(order@) == rank_order(scores@),
            forall|t: int| 0 <= t < order@.len() ==> #[trigger] order@[t] < n,
            out@.len() == k,
            forall|t: int| 0 <= t < k ==> #[trigger] out@[t].label@ == spec_label(
                rank_order(scores@)[t],
            ),
            forall|t: int| 0 <= t < k ==> #[trigger] out@[t].score == scores@[rank_order(
                scores@,
            )[t]],
        decreases top - k,
    {
        let idx: usize = order[k];
        let lab = label_for(idx);
        let sc: u32 = scores[idx];
        out.push(Classification { label: lab, score: sc });
        k = k + 1;
    }
    proof {
        let ro = rank_order(scores@);
        assert forall|a: int, b: int| 0 <= a < b < out@.len() implies out@[a].score
            >= out@[b].score by {
            assert(outranks(scores@, ro[a], ro[b]));
        }
        assert forall|a: int| 0 <= a < out@.len() implies scores@.contains(
            #[trigger] out@[a].score,
        ) by {
            assert(0 <= ro[a] < scores@.len());
            assert(scores@[ro[a]] == out@[a].score);
        }
    }
    out
}

} // verus!
