//! Ids in order: by a rank, and by their bytes where the ranks are equal.

use vstd::prelude::*;

use crate::text::{law_text_order_is_total, precedes, text_precedes};

verus! {

/// Whether `a` comes before `b`: by rank, or by bytes for equal ranks.
pub open spec fn comes_before(ranks: Map<Seq<char>, int>, a: Seq<char>, b: Seq<char>) -> bool {
    ranks[a] < ranks[b] || (ranks[a] == ranks[b] && text_precedes(a, b))
}

/// Whether `ids` holds each ranked id once, in order.
pub open spec fn is_ordering(ranks: Map<Seq<char>, int>, ids: Seq<Seq<char>>) -> bool {
    &&& forall|i: int| 0 <= i < ids.len() ==> ranks.contains_key(#[trigger] ids[i])
    &&& forall|id: Seq<char>| #[trigger] ranks.contains_key(id) ==> ids.contains(id)
    &&& forall|i: int, j: int|
        0 <= i < j < ids.len() ==> comes_before(ranks, #[trigger] ids[i], #[trigger] ids[j])
}

/// The ranked ids in order.
pub open spec fn ordered(ranks: Map<Seq<char>, int>) -> Seq<Seq<char>> {
    choose|ids: Seq<Seq<char>>| is_ordering(ranks, ids)
}

proof fn lemma_strict(ranks: Map<Seq<char>, int>, a: Seq<char>, b: Seq<char>, c: Seq<char>)
    ensures
        !comes_before(ranks, a, a),
        !(comes_before(ranks, a, b) && comes_before(ranks, b, a)),
        comes_before(ranks, a, b) && comes_before(ranks, b, c) ==> comes_before(ranks, a, c),
        a == b || comes_before(ranks, a, b) || comes_before(ranks, b, a),
{
    law_text_order_is_total(a, b, c);
}

/// There is one order: two lists of the same ranked ids are equal.
pub proof fn law_order_is_unique(
    ranks: Map<Seq<char>, int>,
    left: Seq<Seq<char>>,
    right: Seq<Seq<char>>,
)
    requires
        is_ordering(ranks, left),
        is_ordering(ranks, right),
    ensures
        left == right,
    decreases left.len(),
{
    if left.len() == 0 {
        if right.len() > 0 {
            assert(ranks.contains_key(right[0]));
            assert(left.contains(right[0]));
        }
        assert(left =~= right);
    } else {
        assert(ranks.contains_key(left[0]));
        assert(right.contains(left[0]));
        assert(ranks.contains_key(right[0]));
        assert(left.contains(right[0]));
        let i = choose|i: int| 0 <= i < left.len() && left[i] == right[0];
        let j = choose|j: int| 0 <= j < right.len() && right[j] == left[0];
        if left[0] != right[0] {
            assert(comes_before(ranks, left[0], left[i]));
            assert(comes_before(ranks, right[0], right[j]));
            lemma_strict(ranks, left[0], right[0], left[0]);
        }
        let rest = ranks.remove(left[0]);
        lemma_tail(ranks, left);
        lemma_tail(ranks, right);
        law_order_is_unique(rest, left.drop_first(), right.drop_first());
        assert(left =~= seq![left[0]] + left.drop_first());
        assert(right =~= seq![right[0]] + right.drop_first());
    }
}

proof fn lemma_tail(ranks: Map<Seq<char>, int>, ids: Seq<Seq<char>>)
    requires
        is_ordering(ranks, ids),
        ids.len() > 0,
    ensures
        is_ordering(ranks.remove(ids[0]), ids.drop_first()),
{
    let tail = ids.drop_first();
    let rest = ranks.remove(ids[0]);
    assert forall|i: int| 0 <= i < tail.len() implies rest.contains_key(#[trigger] tail[i]) by {
        assert(tail[i] == ids[i + 1]);
        assert(comes_before(ranks, ids[0], ids[i + 1]));
        lemma_strict(ranks, ids[0], ids[0], ids[0]);
    }
    assert forall|id: Seq<char>| #[trigger] rest.contains_key(id) implies tail.contains(id) by {
        assert(ranks.contains_key(id));
        let i = choose|i: int| 0 <= i < ids.len() && ids[i] == id;
        assert(tail[i - 1] == id);
    }
    assert forall|i: int, j: int| 0 <= i < j < tail.len() implies comes_before(
        rest,
        #[trigger] tail[i],
        #[trigger] tail[j],
    ) by {
        assert(tail[i] == ids[i + 1] && tail[j] == ids[j + 1]);
        assert(rest.contains_key(tail[i]) && rest.contains_key(tail[j]));
    }
}

/// An ordering of the ranked ids is `ordered`.
pub proof fn lemma_ordered(ranks: Map<Seq<char>, int>, ids: Seq<Seq<char>>)
    requires
        is_ordering(ranks, ids),
    ensures
        ordered(ranks) == ids,
        is_ordering(ranks, ordered(ranks)),
{
    law_order_is_unique(ranks, ids, ordered(ranks));
}

/// An id and its rank.
pub struct Ranked {
    /// The id.
    pub id: String,
    /// Its rank.
    pub rank: i128,
}

/// The ranks that a list of ranked ids gives.
pub open spec fn ranks_of(items: Seq<Ranked>) -> Map<Seq<char>, int>
    decreases items.len(),
{
    if items.len() == 0 {
        Map::empty()
    } else {
        ranks_of(items.drop_last()).insert(items.last().id@, items.last().rank as int)
    }
}

/// The characters of each string.
pub open spec fn texts(ids: Seq<String>) -> Seq<Seq<char>> {
    ids.map_values(|id: String| id@)
}

/// The ranked ids of a list are those of its entries.
pub proof fn lemma_ranks_of(items: Seq<Ranked>)
    ensures
        forall|id: Seq<char>| #[trigger]
            ranks_of(items).contains_key(id) <==> exists|i: int|
                0 <= i < items.len() && #[trigger] items[i].id@ == id,
    decreases items.len(),
{
    if items.len() > 0 {
        lemma_ranks_of(items.drop_last());
        assert forall|id: Seq<char>| #[trigger] ranks_of(items).contains_key(id) <==> exists|i: int|
            0 <= i < items.len() && #[trigger] items[i].id@ == id by {
            if ranks_of(items).contains_key(id) {
                if id == items.last().id@ {
                    assert(items[items.len() - 1].id@ == id);
                } else {
                    assert(ranks_of(items.drop_last()).contains_key(id));
                    let i = choose|i: int|
                        0 <= i < items.drop_last().len() && #[trigger] items.drop_last()[i].id@
                            == id;
                    assert(items[i].id@ == id);
                }
            }
            if exists|i: int| 0 <= i < items.len() && #[trigger] items[i].id@ == id {
                let i = choose|i: int| 0 <= i < items.len() && #[trigger] items[i].id@ == id;
                if i < items.len() - 1 {
                    assert(items.drop_last()[i].id@ == id);
                    assert(ranks_of(items.drop_last()).contains_key(id));
                }
            }
        }
    }
}

/// A ranked id of the list has the rank of one of its entries.
pub proof fn lemma_rank_of(items: Seq<Ranked>, id: Seq<char>)
    requires
        ranks_of(items).contains_key(id),
    ensures
        exists|i: int|
            0 <= i < items.len() && (#[trigger] items[i]).id@ == id && items[i].rank == ranks_of(
                items,
            )[id],
    decreases items.len(),
{
    if items.len() > 0 {
        if id == items.last().id@ {
            assert(items[items.len() - 1].id@ == id);
        } else {
            lemma_rank_of(items.drop_last(), id);
            let i = choose|i: int|
                0 <= i < items.drop_last().len() && (#[trigger] items.drop_last()[i]).id@ == id
                    && items.drop_last()[i].rank == ranks_of(items.drop_last())[id];
            assert(items[i].id@ == id);
        }
    }
}

proof fn lemma_inserted(
    ranks: Map<Seq<char>, int>,
    ids: Seq<Seq<char>>,
    at: int,
    id: Seq<char>,
    rank: int,
)
    requires
        is_ordering(ranks, ids),
        !ranks.contains_key(id),
        0 <= at <= ids.len(),
        forall|i: int|
            0 <= i < at ==> comes_before(ranks.insert(id, rank), #[trigger] ids[i], id),
        at < ids.len() ==> !comes_before(ranks.insert(id, rank), ids[at], id),
    ensures
        is_ordering(ranks.insert(id, rank), ids.insert(at, id)),
{
    let all = ranks.insert(id, rank);
    let out = ids.insert(at, id);
    assert forall|i: int| 0 <= i < ids.len() implies #[trigger] ids[i] != id && ranks.contains_key(
        ids[i],
    ) by {}
    assert forall|i: int| at <= i < ids.len() implies comes_before(all, id, #[trigger] ids[i]) by {
        lemma_strict(all, ids[at], id, id);
        if i > at {
            assert(comes_before(ranks, ids[at], ids[i]));
            assert(comes_before(all, ids[at], ids[i]));
            lemma_strict(all, id, ids[at], ids[i]);
        }
    }
    assert forall|k: Seq<char>| #[trigger] all.contains_key(k) implies out.contains(k) by {
        if k == id {
            assert(out[at] == id);
        } else {
            assert(ranks.contains_key(k));
            let i = choose|i: int| 0 <= i < ids.len() && ids[i] == k;
            if i < at {
                assert(out[i] == k);
            } else {
                assert(out[i + 1] == k);
            }
        }
    }
    assert forall|i: int, j: int| 0 <= i < j < out.len() implies comes_before(
        all,
        #[trigger] out[i],
        #[trigger] out[j],
    ) by {
        let a = if i < at {
            i
        } else {
            i - 1
        };
        let b = if j < at {
            j
        } else {
            j - 1
        };
        if i != at && j != at {
            assert(out[i] == ids[a] && out[j] == ids[b]);
            assert(comes_before(ranks, ids[a], ids[b]));
        } else if i == at {
            assert(out[j] == ids[b]);
        } else {
            assert(out[i] == ids[a]);
        }
    }
}

spec fn spot(ranks: Map<Seq<char>, int>, ids: Seq<Seq<char>>, id: Seq<char>) -> int
    decreases ids.len(),
{
    if ids.len() == 0 || !comes_before(ranks, ids[0], id) {
        0
    } else {
        1 + spot(ranks, ids.drop_first(), id)
    }
}

proof fn lemma_spot(ranks: Map<Seq<char>, int>, ids: Seq<Seq<char>>, id: Seq<char>)
    ensures
        0 <= spot(ranks, ids, id) <= ids.len(),
        forall|i: int|
            0 <= i < spot(ranks, ids, id) ==> comes_before(ranks, #[trigger] ids[i], id),
        spot(ranks, ids, id) < ids.len() ==> !comes_before(ranks, ids[spot(ranks, ids, id)], id),
    decreases ids.len(),
{
    if ids.len() > 0 && comes_before(ranks, ids[0], id) {
        let rest = ids.drop_first();
        lemma_spot(ranks, rest, id);
        let at = spot(ranks, ids, id);
        assert forall|i: int| 0 <= i < at implies comes_before(ranks, #[trigger] ids[i], id) by {
            if i > 0 {
                assert(rest[i - 1] == ids[i]);
            }
        }
        if at < ids.len() {
            assert(rest[at - 1] == ids[at]);
        }
    }
}

/// Any finite collection of ranked ids can be put in order.
pub proof fn law_order_exists(ranks: Map<Seq<char>, int>)
    requires
        ranks.dom().finite(),
    ensures
        is_ordering(ranks, ordered(ranks)),
    decreases ranks.dom().len(),
{
    if ranks.dom() =~= Set::empty() {
        assert forall|id: Seq<char>| !#[trigger] ranks.contains_key(id) by {
            assert(!ranks.dom().contains(id));
        }
        assert(is_ordering(ranks, Seq::empty()));
    } else {
        let id = ranks.dom().choose();
        let rest = ranks.remove(id);
        law_order_exists(rest);
        let ids = ordered(rest);
        let at = spot(ranks, ids, id);
        lemma_spot(ranks, ids, id);
        assert(rest.insert(id, ranks[id]) =~= ranks);
        lemma_inserted(rest, ids, at, id, ranks[id]);
        assert(is_ordering(ranks, ids.insert(at, id)));
    }
}

/// Puts ids with distinct texts in order.
pub fn order_ids(items: &Vec<Ranked>) -> (r: Vec<String>)
    requires
        forall|i: int, j: int|
            0 <= i < j < items.len() ==> #[trigger] items[i].id@ != #[trigger] items[j].id@,
    ensures
        texts(r@) == ordered(ranks_of(items@)),
        is_ordering(ranks_of(items@), texts(r@)),
{
    let mut ids: Vec<String> = Vec::new();
    let mut ranks: Vec<i128> = Vec::new();
    let mut k: usize = 0;
    assert(items@.take(0) =~= Seq::<Ranked>::empty());
    while k < items.len()
        invariant
            k <= items.len(),
            ids.len() == ranks.len(),
            is_ordering(ranks_of(items@.take(k as int)), texts(ids@)),
            forall|i: int|
                0 <= i < ids.len() ==> ranks_of(items@.take(k as int))[#[trigger] ids[i]@]
                    == ranks[i],
            forall|i: int, j: int|
                0 <= i < j < items.len() ==> #[trigger] items[i].id@ != #[trigger] items[j].id@,
        decreases items.len() - k,
    {
        let ghost known = ranks_of(items@.take(k as int));
        let ghost id = items[k as int].id@;
        let ghost rank = items[k as int].rank as int;
        let ghost all = known.insert(id, rank);
        proof {
            lemma_ranks_of(items@.take(k as int));
            assert(items@.take(k + 1).drop_last() =~= items@.take(k as int));
            assert(ranks_of(items@.take(k + 1)) == all);
            assert(!known.contains_key(id));
            assert forall|i: int| 0 <= i < ids.len() implies known.contains_key(
                #[trigger] ids[i]@,
            ) by {
                assert(texts(ids@)[i] == ids[i]@);
            }
        }
        let mut at: usize = 0;
        while at < ids.len() && (ranks[at] < items[k].rank || (ranks[at] == items[k].rank
            && precedes(ids[at].as_str(), items[k].id.as_str())))
            invariant
                k < items.len(),
                at <= ids.len(),
                ids.len() == ranks.len(),
                id == items[k as int].id@,
                rank == items[k as int].rank,
                all == known.insert(id, rank),
                !known.contains_key(id),
                forall|i: int|
                    0 <= i < ids.len() ==> known[#[trigger] ids[i]@] == ranks[i]
                        && known.contains_key(ids[i]@),
                forall|i: int| 0 <= i < at ==> comes_before(all, #[trigger] ids[i]@, id),
            decreases ids.len() - at,
        {
            at = at + 1;
        }
        proof {
            let old_ids = texts(ids@);
            assert forall|i: int| 0 <= i < at implies comes_before(all, #[trigger] old_ids[i], id) by {
                assert(old_ids[i] == ids[i]@);
            }
            if at < ids.len() {
                assert(old_ids[at as int] == ids[at as int]@);
            }
            lemma_inserted(known, old_ids, at as int, id, rank);
        }
        let ghost before = ids@;
        let ghost before_ranks = ranks@;
        ids.insert(at, items[k].id.clone());
        ranks.insert(at, items[k].rank);
        proof {
            assert(texts(ids@) =~= texts(before).insert(at as int, id));
            assert forall|i: int| 0 <= i < ids.len() implies all[#[trigger] ids[i]@] == ranks[i] by {
                if i < at {
                    assert(ids[i] == before[i]);
                } else if i > at {
                    assert(ids[i] == before[i - 1]);
                    assert(ranks[i] == before_ranks[i - 1]);
                }
            }
        }
        k = k + 1;
    }
    assert(items@.take(items.len() as int) =~= items@);
    proof {
        lemma_ordered(ranks_of(items@), texts(ids@));
    }
    ids
}

} // verus!
