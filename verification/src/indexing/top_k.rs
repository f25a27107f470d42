//! The bounded working set of a top-k search: a max-heap of at most `k`
//! results, from which the worst is discarded when a better one arrives.
use crate::indexing::index::SearchResult;
use vstd::prelude::*;

verus! {

/// Whether `item` ranks before the result that vector `id` would give at
/// distance `distance`.
pub open spec fn before_entry(item: SearchResult, distance: int, id: int) -> bool {
    item.distance < distance || (item.distance == distance && item.id < id)
}

/// Whether `items` holds a result for vector `id`.
pub open spec fn listed(items: Seq<SearchResult>, id: int) -> bool {
    exists|p: int| 0 <= p < items.len() && (#[trigger] items[p]).id == id
}

/// Whether every result in `items` ranks before the result that vector `id`
/// would give.
pub open spec fn ranked_after(items: Seq<SearchResult>, dists: Seq<int>, id: int) -> bool {
    forall|p: int| 0 <= p < items.len() ==> before_entry(#[trigger] items[p], dists[id], id)
}

/// Whether `items`, in whatever order, are the best results among the
/// vectors `0..seen`, whose distances are `dists`: each is the result of one
/// of these vectors, no vector has two, and a vector is left out only where
/// `k` results that all rank before it are held.
pub open spec fn best_of(items: Seq<SearchResult>, dists: Seq<int>, seen: int, k: int) -> bool {
    &&& forall|p: int|
        0 <= p < items.len() ==> 0 <= (#[trigger] items[p]).id < seen && items[p].distance
            == dists[items[p].id as int]
    &&& forall|p: int, q: int|
        0 <= p < q < items.len() ==> (#[trigger] items[p]).id != (#[trigger] items[q]).id
    &&& forall|id: int|
        0 <= id < seen && !(#[trigger] listed(items, id)) ==> items.len() == k && ranked_after(
            items,
            dists,
            id,
        )
}

/// Whether `a` does not rank after `b`.
pub open spec fn not_after(a: SearchResult, b: SearchResult) -> bool {
    !b.ranks_before(a)
}

/// Whether the first `n` of `items` form a max-heap: no item ranks after
/// its parent.
pub open spec fn heap_ordered(items: Seq<SearchResult>, n: int) -> bool {
    forall|c: int| 1 <= c < n ==> not_after(#[trigger] items[c], items[(c - 1) / 2])
}

/// A max-heap but for what stands at `hole`, which may rank before its
/// children; these do not rank after the parent of `hole`.
pub open spec fn heap_but_below(items: Seq<SearchResult>, n: int, hole: int) -> bool {
    &&& forall|c: int|
        1 <= c < n && (c - 1) / 2 != hole ==> not_after(#[trigger] items[c], items[(c - 1) / 2])
    &&& forall|c: int|
        1 <= c < n && (c - 1) / 2 == hole && hole > 0 ==> not_after(
            #[trigger] items[c],
            items[(hole - 1) / 2],
        )
}

/// A max-heap but for what stands at `hole`, which may rank after its
/// parent; its children do not rank after that parent.
pub open spec fn heap_but_above(items: Seq<SearchResult>, n: int, hole: int) -> bool {
    &&& forall|c: int|
        1 <= c < n && c != hole ==> not_after(#[trigger] items[c], items[(c - 1) / 2])
    &&& forall|c: int|
        1 <= c < n && (c - 1) / 2 == hole && hole > 0 ==> not_after(
            #[trigger] items[c],
            items[(hole - 1) / 2],
        )
}

/// Whether none of the first `n` of `items` ranks after `bound`, where there
/// is one.
pub open spec fn bounded(items: Seq<SearchResult>, n: int, bound: Option<SearchResult>) -> bool {
    bound matches Some(b) ==> forall|p: int| 0 <= p < n ==> not_after(#[trigger] items[p], b)
}

/// `items` with what stands at `p` and at `q` exchanged.
pub open spec fn swapped(items: Seq<SearchResult>, p: int, q: int) -> Seq<SearchResult> {
    items.update(p, items[q]).update(q, items[p])
}

/// Being the best results does not depend on the order in which they stand.
pub proof fn lemma_swap_best_of(
    items: Seq<SearchResult>,
    p: int,
    q: int,
    dists: Seq<int>,
    seen: int,
    k: int,
)
    requires
        best_of(items, dists, seen, k),
        0 <= p < items.len(),
        0 <= q < items.len(),
    ensures
        best_of(swapped(items, p, q), dists, seen, k),
{
    let s = swapped(items, p, q);
    let moved = |i: int|
        if i == p {
            q
        } else if i == q {
            p
        } else {
            i
        };
    assert forall|i: int| 0 <= i < s.len() implies s[i] == items[moved(i)] by {}
    assert forall|i: int| 0 <= i < s.len() implies 0 <= (#[trigger] s[i]).id < seen
        && s[i].distance == dists[s[i].id as int] by {
        assert(s[i] == items[moved(i)]);
    }
    assert forall|i: int, j: int| 0 <= i < j < s.len() implies (#[trigger] s[i]).id != (
    #[trigger] s[j]).id by {
        assert(s[i] == items[moved(i)]);
        assert(s[j] == items[moved(j)]);
        assert(moved(i) != moved(j));
        if moved(i) < moved(j) {
            assert(items[moved(i)].id != items[moved(j)].id);
        } else {
            assert(items[moved(j)].id != items[moved(i)].id);
        }
    }
    assert forall|id: int| 0 <= id < seen && !(#[trigger] listed(s, id)) implies s.len() == k
        && ranked_after(s, dists, id) by {
        if listed(items, id) {
            let w = choose|w: int| 0 <= w < items.len() && (#[trigger] items[w]).id == id;
            assert(s[moved(w)] == items[w]);
            assert(listed(s, id));
        }
        assert forall|i: int| 0 <= i < s.len() implies before_entry(
            #[trigger] s[i],
            dists[id],
            id,
        ) by {
            assert(s[i] == items[moved(i)]);
        }
    }
}

/// The root of a max-heap ranks after none of its items.
pub proof fn lemma_root_is_last(items: Seq<SearchResult>, n: int, p: int)
    requires
        heap_ordered(items, n),
        0 <= p < n,
    ensures
        not_after(items[p], items[0]),
    decreases p,
{
    if p > 0 {
        lemma_root_is_last(items, n, (p - 1) / 2);
        assert(not_after(items[p], items[(p - 1) / 2]));
    }
}

/// Exchanges what stands at `p` and at `q`.
fn swap(items: &mut Vec<SearchResult>, p: usize, q: usize)
    requires
        p < old(items).len(),
        q < old(items).len(),
    ensures
        final(items)@ == swapped(old(items)@, p as int, q as int),
{
    let a = items[p];
    let b = items[q];
    items.set(p, b);
    items.set(q, a);
}

/// Moves what stands at `start` down until it ranks before none of its
/// children, within the first `n` items.
fn sift_down(
    items: &mut Vec<SearchResult>,
    start: usize,
    n: usize,
    Ghost(dists): Ghost<Seq<int>>,
    Ghost(seen): Ghost<int>,
    Ghost(k): Ghost<int>,
    Ghost(bound): Ghost<Option<SearchResult>>,
)
    requires
        start < n <= old(items).len(),
        heap_but_below(old(items)@, n as int, start as int),
        best_of(old(items)@, dists, seen, k),
        bounded(old(items)@, n as int, bound),
    ensures
        final(items).len() == old(items).len(),
        heap_ordered(final(items)@, n as int),
        best_of(final(items)@, dists, seen, k),
        bounded(final(items)@, n as int, bound),
        forall|p: int| n <= p < final(items).len() ==> final(items)@[p] == old(items)@[p],
{
    let mut pos = start;
    loop
        invariant
            pos < n <= items.len(),
            items.len() == old(items).len(),
            heap_but_below(items@, n as int, pos as int),
            best_of(items@, dists, seen, k),
            bounded(items@, n as int, bound),
            forall|p: int| n <= p < items.len() ==> items@[p] == old(items)@[p],
        ensures
            heap_ordered(items@, n as int),
        decreases n - pos,
    {
        if pos >= n / 2 {
            break ;
        }
        let left = 2 * pos + 1;
        let right = left + 1;
        let mut child = left;
        if right < n && items[left].is_before(&items[right]) {
            child = right;
        }
        if !items[pos].is_before(&items[child]) {
            assert forall|c: int| 1 <= c < n implies not_after(
                #[trigger] items@[c],
                items@[(c - 1) / 2],
            ) by {
                if (c - 1) / 2 == pos {
                    assert(c == left || c == right);
                }
            }
            break ;
        }
        proof {
            lemma_swap_best_of(items@, pos as int, child as int, dists, seen, k);
        }
        let ghost before = items@;
        swap(items, pos, child);
        proof {
            assert forall|c: int| 1 <= c < n && (c - 1) / 2 != child implies not_after(
                #[trigger] items@[c],
                items@[(c - 1) / 2],
            ) by {
                if c == child {
                } else if (c - 1) / 2 == pos {
                    assert(c == left || c == right);
                } else if c == pos {
                    assert(not_after(before[child as int], before[(pos - 1) / 2]));
                } else {
                    assert(not_after(before[c], before[(c - 1) / 2]));
                }
            }
            assert forall|c: int| 1 <= c < n && (c - 1) / 2 == child && child > 0 implies not_after(
                #[trigger] items@[c],
                items@[(child - 1) / 2],
            ) by {
                assert(not_after(before[c], before[(c - 1) / 2]));
            }
            if let Some(b) = bound {
                assert forall|p: int| 0 <= p < n implies not_after(#[trigger] items@[p], b) by {
                    if p == pos {
                        assert(not_after(before[child as int], b));
                    } else if p == child {
                        assert(not_after(before[pos as int], b));
                    } else {
                        assert(not_after(before[p], b));
                    }
                }
            }
        }
        pos = child;
    }
}

/// Moves what stands at `start` up until it does not rank after its parent,
/// within the first `n` items.
fn sift_up(
    items: &mut Vec<SearchResult>,
    start: usize,
    n: usize,
    Ghost(dists): Ghost<Seq<int>>,
    Ghost(seen): Ghost<int>,
    Ghost(k): Ghost<int>,
)
    requires
        start < n <= old(items).len(),
        heap_but_above(old(items)@, n as int, start as int),
        best_of(old(items)@, dists, seen, k),
    ensures
        final(items).len() == old(items).len(),
        heap_ordered(final(items)@, n as int),
        best_of(final(items)@, dists, seen, k),
{
    let mut pos = start;
    loop
        invariant
            pos < n <= items.len(),
            items.len() == old(items).len(),
            heap_but_above(items@, n as int, pos as int),
            best_of(items@, dists, seen, k),
        ensures
            heap_ordered(items@, n as int),
        decreases pos,
    {
        if pos == 0 {
            break ;
        }
        let parent = (pos - 1) / 2;
        if !items[parent].is_before(&items[pos]) {
            break ;
        }
        proof {
            lemma_swap_best_of(items@, pos as int, parent as int, dists, seen, k);
        }
        let ghost before = items@;
        swap(items, pos, parent);
        proof {
            assert forall|c: int| 1 <= c < n && c != parent implies not_after(
                #[trigger] items@[c],
                items@[(c - 1) / 2],
            ) by {
                if c == pos {
                } else if (c - 1) / 2 == parent {
                    assert(not_after(before[c], before[parent as int]));
                } else if (c - 1) / 2 == pos {
                    assert(not_after(before[c], before[(pos - 1) / 2]));
                } else {
                    assert(not_after(before[c], before[(c - 1) / 2]));
                }
            }
            assert forall|c: int|
                1 <= c < n && (c - 1) / 2 == parent && parent > 0 implies not_after(
                #[trigger] items@[c],
                items@[(parent - 1) / 2],
            ) by {
                assert(not_after(before[parent as int], before[(parent - 1) / 2]));
                if c != pos {
                    assert(not_after(before[c], before[parent as int]));
                }
            }
        }
        pos = parent;
    }
}

/// Whether `res` is what a search for the `k` nearest returns when the
/// stored vectors have the distances `dists`: as many results as there are
/// vectors, up to `k`; each the result of one vector; in ascending order of
/// distance, and of id among equal distances; and every vector left out
/// ranks after all of them.
pub open spec fn is_top_k(dists: Seq<int>, k: int, res: Seq<SearchResult>) -> bool {
    &&& res.len() == (if k <= dists.len() {
        k
    } else {
        dists.len() as int
    })
    &&& best_of(res, dists, dists.len() as int, k)
    &&& forall|p: int, q: int|
        0 <= p < q < res.len() ==> (#[trigger] res[p]).ranks_before(#[trigger] res[q])
}

/// Where the results up to place `p` of two answers to one search agree,
/// the result at `p` of the second does not rank after that of the first.
proof fn lemma_top_k_not_after(
    dists: Seq<int>,
    k: int,
    a: Seq<SearchResult>,
    b: Seq<SearchResult>,
    p: int,
)
    requires
        is_top_k(dists, k, a),
        is_top_k(dists, k, b),
        0 <= p < a.len(),
        forall|i: int| 0 <= i < p ==> a[i] == b[i],
    ensures
        not_after(b[p], a[p]),
{
    let id = a[p].id as int;
    if listed(b, id) {
        let t = choose|t: int| 0 <= t < b.len() && (#[trigger] b[t]).id == id;
        assert(b[t] == a[p]);
        if t < p {
            assert(a[t].id != a[p].id);
        } else if t > p {
            assert(b[p].ranks_before(b[t]));
        }
    } else {
        assert(ranked_after(b, dists, id));
        assert(before_entry(b[p], dists[id], id));
    }
}

/// Two answers to one search agree at every place.
proof fn lemma_top_k_agree(
    dists: Seq<int>,
    k: int,
    a: Seq<SearchResult>,
    b: Seq<SearchResult>,
    p: int,
)
    requires
        is_top_k(dists, k, a),
        is_top_k(dists, k, b),
        0 <= p < a.len(),
    ensures
        a[p] == b[p],
    decreases p,
{
    assert forall|i: int| 0 <= i < p implies a[i] == b[i] by {
        lemma_top_k_agree(dists, k, a, b, i);
    }
    lemma_top_k_not_after(dists, k, a, b, p);
    lemma_top_k_not_after(dists, k, b, a, p);
}

/// What a search for the `k` nearest returns is determined by the stored
/// vectors' distances: no two different answers meet `is_top_k`.
pub proof fn lemma_top_k_unique(
    dists: Seq<int>,
    k: int,
    a: Seq<SearchResult>,
    b: Seq<SearchResult>,
)
    requires
        is_top_k(dists, k, a),
        is_top_k(dists, k, b),
    ensures
        a == b,
{
    assert forall|p: int| 0 <= p < a.len() implies a[p] == b[p] by {
        lemma_top_k_agree(dists, k, a, b, p);
    }
    assert(a =~= b);
}

/// A search for the `k` nearest returns as many results as there are
/// vectors, up to `k`, in order of non-decreasing distance; a search for
/// none returns none.
pub proof fn lemma_top_k_shape(dists: Seq<int>, k: int, res: Seq<SearchResult>)
    requires
        is_top_k(dists, k, res),
    ensures
        res.len() == vstd::math::min(k, dists.len() as int),
        forall|p: int, q: int|
            0 <= p < q < res.len() ==> (#[trigger] res[p]).distance <= (#[trigger] res[q]).distance,
        k == 0 ==> res == Seq::<SearchResult>::empty(),
{
    assert forall|p: int, q: int| 0 <= p < q < res.len() implies (#[trigger] res[p]).distance <= (
    #[trigger] res[q]).distance by {
        assert(res[p].ranks_before(res[q]));
    }
    if k == 0 {
        assert(res =~= Seq::<SearchResult>::empty());
    }
}

/// The best `k` results among the vectors offered so far.
pub struct TopK {
    items: Vec<SearchResult>,
    k: usize,
}

impl TopK {
    /// The number of results that the set holds at most.
    pub closed spec fn limit(&self) -> nat {
        self.k as nat
    }

    /// Whether the set holds the best results among the vectors `0..seen`,
    /// whose distances are `dists`.
    pub closed spec fn holds(&self, dists: Seq<int>, seen: int) -> bool {
        &&& 0 <= seen <= dists.len()
        &&& self.items.len() == (if self.k <= seen {
            self.k as int
        } else {
            seen
        })
        &&& heap_ordered(self.items@, self.items.len() as int)
        &&& best_of(self.items@, dists, seen, self.k as int)
    }

    /// An empty set that will hold at most `k` results.
    pub(crate) fn new(k: usize) -> (set: TopK)
        ensures
            set.limit() == k,
            forall|dists: Seq<int>| set.holds(dists, 0),
    {
        let set = TopK { items: Vec::new(), k };
        assert forall|dists: Seq<int>| set.holds(dists, 0) by {
            assert forall|id: int| 0 <= id < 0 && !(#[trigger] listed(set.items@, id)) implies false
            by {}
        }
        set
    }

    /// Offers the result of the next vector: it is kept where fewer than
    /// `k` are held or it ranks before the worst of them, which then leaves.
    pub(crate) fn offer(&mut self, item: SearchResult, Ghost(dists): Ghost<Seq<int>>)
        requires
            old(self).holds(dists, item.id as int),
            0 <= item.id < dists.len(),
            item.distance == dists[item.id as int],
        ensures
            final(self).holds(dists, item.id + 1),
            final(self).limit() == old(self).limit(),
    {
        let ghost seen = item.id as int;
        let ghost k = self.k as int;
        let ghost before = self.items@;
        let n = self.items.len();
        if n < self.k {
            self.items.push(item);
            proof {
                let now = self.items@;
                assert forall|id: int| 0 <= id < seen + 1 && !(#[trigger] listed(now, id)) implies now.len()
                    == k && ranked_after(now, dists, id) by {
                    if id == seen {
                        assert(now[n as int].id == id);
                    } else if listed(before, id) {
                        let w = choose|w: int| 0 <= w < before.len() && (#[trigger] before[w]).id == id;
                        assert(now[w].id == id);
                    }
                }
                assert forall|p: int, q: int| 0 <= p < q < now.len() implies (#[trigger] now[p]).id != (
                #[trigger] now[q]).id by {
                    if q < n {
                        assert(before[p].id != before[q].id);
                    } else {
                        assert(before[p].id < seen);
                    }
                }
                assert forall|p: int| 0 <= p < now.len() implies 0 <= (#[trigger] now[p]).id < seen + 1
                    && now[p].distance == dists[now[p].id as int] by {
                    if p < n {
                        assert(now[p] == before[p]);
                    }
                }
                assert forall|c: int| 1 <= c < n + 1 && c != n implies not_after(
                    #[trigger] now[c],
                    now[(c - 1) / 2],
                ) by {
                    assert(not_after(before[c], before[(c - 1) / 2]));
                }
            }
            sift_up(&mut self.items, n, n + 1, Ghost(dists), Ghost(seen + 1), Ghost(k));
        } else if n > 0 && item.is_before(&self.items[0]) {
            let ghost worst = self.items@[0];
            self.items.set(0, item);
            proof {
                let now = self.items@;
                assert forall|p: int| 0 <= p < now.len() implies 0 <= (#[trigger] now[p]).id < seen + 1
                    && now[p].distance == dists[now[p].id as int] by {
                    if p > 0 {
                        assert(now[p] == before[p]);
                    }
                }
                assert forall|p: int, q: int| 0 <= p < q < now.len() implies (#[trigger] now[p]).id != (
                #[trigger] now[q]).id by {
                    assert(before[q].id < seen);
                    if p > 0 {
                        assert(before[p].id != before[q].id);
                    }
                }
                assert forall|id: int| 0 <= id < seen + 1 && !(#[trigger] listed(now, id)) implies now.len()
                    == k && ranked_after(now, dists, id) by {
                    if id == seen {
                        assert(now[0].id == id);
                    }
                    if id == worst.id {
                        assert forall|p: int| 0 <= p < now.len() implies before_entry(
                            #[trigger] now[p],
                            dists[id],
                            id,
                        ) by {
                            if p > 0 {
                                lemma_root_is_last(before, n as int, p);
                                assert(before[0].id != before[p].id);
                            }
                        }
                    } else {
                        if listed(before, id) {
                            let w = choose|w: int|
                                0 <= w < before.len() && (#[trigger] before[w]).id == id;
                            assert(now[w].id == id);
                        }
                        assert forall|p: int| 0 <= p < now.len() implies before_entry(
                            #[trigger] now[p],
                            dists[id],
                            id,
                        ) by {
                            assert(before_entry(before[0], dists[id], id));
                            if p > 0 {
                                assert(before_entry(before[p], dists[id], id));
                            }
                        }
                    }
                }
                assert forall|c: int| 1 <= c < n && (c - 1) / 2 != 0 implies not_after(
                    #[trigger] now[c],
                    now[(c - 1) / 2],
                ) by {
                    assert(not_after(before[c], before[(c - 1) / 2]));
                }
            }
            sift_down(&mut self.items, 0, n, Ghost(dists), Ghost(seen + 1), Ghost(k), Ghost(None));
        } else {
            proof {
                assert forall|id: int| 0 <= id < seen + 1 && !(#[trigger] listed(before, id)) implies before.len()
                    == k && ranked_after(before, dists, id) by {
                    if id == seen {
                        assert forall|p: int| 0 <= p < before.len() implies before_entry(
                            #[trigger] before[p],
                            dists[id],
                            id,
                        ) by {
                            lemma_root_is_last(before, n as int, p);
                            assert(before[p].id < seen);
                        }
                    }
                }
            }
        }
    }

    /// The results held, in ascending order of distance, and of id among
    /// equal distances.
    pub(crate) fn into_sorted(self, Ghost(dists): Ghost<Seq<int>>) -> (res: Vec<SearchResult>)
        requires
            self.holds(dists, dists.len() as int),
        ensures
            is_top_k(dists, self.limit() as int, res@),
    {
        let ghost seen = dists.len() as int;
        let ghost k = self.k as int;
        let mut items = self.items;
        let mut end = items.len();
        while end > 1
            invariant
                end <= items.len(),
                items.len() == self.items.len(),
                heap_ordered(items@, end as int),
                best_of(items@, dists, seen, k),
                forall|p: int, q: int|
                    end <= p < q < items.len() ==> not_after(#[trigger] items@[p], #[trigger] items@[q]),
                forall|p: int, q: int|
                    0 <= p < end <= q < items.len() ==> not_after(
                        #[trigger] items@[p],
                        #[trigger] items@[q],
                    ),
            decreases end,
        {
            let ghost before = items@;
            end -= 1;
            proof {
                lemma_swap_best_of(items@, 0, end as int, dists, seen, k);
                assert forall|p: int| 0 <= p < end + 1 implies not_after(
                    #[trigger] before[p],
                    before[0],
                ) by {
                    lemma_root_is_last(before, end + 1, p);
                }
            }
            swap(&mut items, 0, end);
            let ghost last = items@[end as int];
            proof {
                assert forall|c: int| 1 <= c < end && (c - 1) / 2 != 0 implies not_after(
                    #[trigger] items@[c],
                    items@[(c - 1) / 2],
                ) by {
                    assert(not_after(before[c], before[(c - 1) / 2]));
                }
                assert forall|p: int| 0 <= p < end implies not_after(#[trigger] items@[p], last) by {
                    if p == 0 {
                        assert(not_after(before[end as int], before[0]));
                    } else {
                        assert(not_after(before[p], before[0]));
                    }
                }
            }
            let ghost swapped_items = items@;
            sift_down(&mut items, 0, end, Ghost(dists), Ghost(seen), Ghost(k), Ghost(Some(last)));
            proof {
                assert forall|p: int, q: int| end <= p < q < items.len() implies not_after(
                    #[trigger] items@[p],
                    #[trigger] items@[q],
                ) by {
                    assert(items@[q] == before[q]);
                    if p == end {
                        assert(not_after(before[0], before[q]));
                    } else {
                        assert(items@[p] == before[p]);
                        assert(not_after(before[p], before[q]));
                    }
                }
                assert forall|p: int, q: int| 0 <= p < end <= q < items.len() implies not_after(
                    #[trigger] items@[p],
                    #[trigger] items@[q],
                ) by {
                    assert(not_after(items@[p], last));
                    if q > end {
                        assert(items@[q] == before[q]);
                        assert(not_after(before[0], before[q]));
                    }
                }
            }
        }
        proof {
            assert forall|p: int, q: int| 0 <= p < q < items.len() implies (#[trigger] items@[p]).ranks_before(
                #[trigger] items@[q],
            ) by {
                assert(not_after(items@[p], items@[q]));
                assert(items@[p].id != items@[q].id);
            }
        }
        items
    }
}

} // verus!
