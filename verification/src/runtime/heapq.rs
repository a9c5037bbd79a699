//! Binary min-heap primitives behind Python's `heapq` module.
//!
//! A heap is a sequence `s` in which every element is no smaller than its
//! parent: `s[(k - 1) / 2] <= s[k]` for every `k >= 1`.  The functions below
//! follow CPython's `_siftdown` / `_siftup` scheme.
use vstd::prelude::*;
use vstd::seq_lib::group_to_multiset_ensures;

verus! {

broadcast use group_to_multiset_ensures;

/// Index of the parent of node `k` (for `k >= 1`).
pub open spec fn parent(k: int) -> int {
    (k - 1) / 2
}

/// The edge from the parent of `k` to `k` is ordered.
pub open spec fn edge_ok(s: Seq<i64>, k: int) -> bool {
    s[parent(k)] <= s[k]
}

/// Every edge whose parent lies at index `from` or later is ordered.
pub open spec fn heap_from(s: Seq<i64>, from: int) -> bool {
    forall|k: int| #![trigger s[k]] 1 <= k < s.len() && parent(k) >= from ==> edge_ok(s, k)
}

/// The whole sequence satisfies the heap property.
pub open spec fn is_heap(s: Seq<i64>) -> bool {
    heap_from(s, 0)
}

/// `k` lies in the subtree rooted at `r`.
pub open spec fn in_subtree(r: int, k: int) -> bool
    decreases k,
{
    if k <= r || k <= 0 {
        k == r
    } else {
        in_subtree(r, parent(k))
    }
}

/// Every edge whose parent lies in the subtree rooted at `r` is ordered, except possibly
/// the edge that ends at `skip`.
pub open spec fn heap_below_except(s: Seq<i64>, r: int, skip: int) -> bool {
    forall|k: int|
        #![trigger s[k]]
        1 <= k < s.len() && in_subtree(r, parent(k)) && k != skip ==> edge_ok(s, k)
}

/// Every edge whose parent lies in the subtree rooted at `r` is ordered, except possibly
/// the edges that end or start at `hole`.
pub open spec fn heap_below_around(s: Seq<i64>, r: int, hole: int) -> bool {
    forall|k: int|
        #![trigger s[k]]
        1 <= k < s.len() && in_subtree(r, parent(k)) && k != hole && parent(k) != hole ==> edge_ok(s, k)
}

/// The subtree rooted at `r` is a heap: every edge whose parent lies in it is ordered.
pub open spec fn heap_below(s: Seq<i64>, r: int) -> bool {
    forall|k: int| #![trigger s[k]] 1 <= k < s.len() && in_subtree(r, parent(k)) ==> edge_ok(s, k)
}

/// A node of the subtree rooted at `r` is no smaller than `r`.
pub proof fn lemma_subtree_ge(r: int, k: int)
    requires
        in_subtree(r, k),
    ensures
        k >= r,
    decreases k,
{
    if !(k <= r || k <= 0) {
        lemma_subtree_ge(r, parent(k));
    }
}

/// The subtree relation is transitive.
pub proof fn lemma_subtree_trans(a: int, b: int, c: int)
    requires
        in_subtree(a, b),
        in_subtree(b, c),
    ensures
        in_subtree(a, c),
    decreases c,
{
    lemma_subtree_ge(a, b);
    if !(c <= b || c <= 0) {
        lemma_subtree_trans(a, b, parent(c));
    }
}

/// Every element of `s` is at least `m`.
pub open spec fn all_at_least(s: Seq<i64>, m: i64) -> bool {
    forall|k: int| 0 <= k < s.len() ==> m <= #[trigger] s[k]
}

/// `s` with the entries at `i` and `j` exchanged.
pub open spec fn swapped(s: Seq<i64>, i: int, j: int) -> Seq<i64> {
    s.update(i, s[j]).update(j, s[i])
}

/// What `shift_down` makes of `s`: the entry at `pos` exchanged with its parent while it is
/// smaller than it and lies after `start`.
pub open spec fn sift_down_seq(s: Seq<i64>, start: int, pos: int) -> Seq<i64>
    decreases pos,
{
    if 0 <= start < pos < s.len() && s[pos] < s[parent(pos)] {
        sift_down_seq(swapped(s, pos, parent(pos)), start, parent(pos))
    } else {
        s
    }
}

/// The child of `pos` that `shift_up` follows: the right one where it is no larger than
/// the left one.
pub open spec fn next_child(s: Seq<i64>, pos: int) -> int {
    if 2 * pos + 2 < s.len() && s[2 * pos + 1] >= s[2 * pos + 2] {
        2 * pos + 2
    } else {
        2 * pos + 1
    }
}

/// The walk of `shift_up` from `pos` down to a leaf, each step exchanging the entry with
/// the child it follows: the sequence and the leaf reached.
pub open spec fn sift_up_walk(s: Seq<i64>, pos: int) -> (Seq<i64>, int)
    decreases s.len() - pos,
{
    if 0 <= pos && 2 * pos + 1 < s.len() {
        sift_up_walk(swapped(s, pos, next_child(s, pos)), next_child(s, pos))
    } else {
        (s, pos)
    }
}

/// What `shift_up` makes of `s`: the walk down from `pos`, then `shift_down` back towards
/// `pos`.
pub open spec fn sift_up_seq(s: Seq<i64>, pos: int) -> Seq<i64> {
    let (t, leaf) = sift_up_walk(s, pos);
    sift_down_seq(t, pos, leaf)
}

/// What `heapify` makes of `s` once `shift_up` has run at the positions below `i`, from
/// `i - 1` down to 0.
pub open spec fn heapify_from(s: Seq<i64>, i: int) -> Seq<i64>
    decreases i,
{
    if i <= 0 {
        s
    } else {
        heapify_from(sift_up_seq(s, i - 1), i - 1)
    }
}

/// What `heapify` makes of `s`.
pub open spec fn heapify_seq(s: Seq<i64>) -> Seq<i64> {
    heapify_from(s, (s.len() / 2) as int)
}

/// What `heap_push` makes of `s` with `item`.
pub open spec fn heap_push_seq(s: Seq<i64>, item: i64) -> Seq<i64> {
    sift_down_seq(s.push(item), 0, s.len() as int)
}

/// What `heap_pop` leaves of a non-empty `s`: the last entry moved to the front, then
/// `shift_up` from there.
pub open spec fn heap_pop_seq(s: Seq<i64>) -> Seq<i64> {
    if s.len() >= 2 {
        sift_up_seq(swapped(s, s.len() - 1, 0).drop_last(), 0)
    } else {
        s.drop_last()
    }
}

/// The conditions under which `shift_down` restores the heap below `start`: `pos` lies in
/// the subtree of `start`, every edge whose parent lies in that subtree is ordered except the
/// edge into `pos`, and the parent of `pos` is no larger than the children of `pos`.
pub open spec fn shift_down_ready(s: Seq<i64>, start: int, pos: int) -> bool {
    &&& start <= pos < s.len()
    &&& in_subtree(start, pos)
    &&& heap_below_except(s, start, pos)
    &&& forall|k: int| #![trigger s[k]]
        pos > start && 1 <= k < s.len() && parent(k) == pos ==> s[parent(pos)] <= s[k]
}

/// `k` lies on the path from `pos` up to `start`.
pub open spec fn on_path(start: int, pos: int, k: int) -> bool {
    in_subtree(start, k) && in_subtree(k, pos)
}

/// The root of a heap is its smallest element.
pub proof fn lemma_root_is_min(s: Seq<i64>, k: int)
    requires
        is_heap(s),
        0 <= k < s.len(),
    ensures
        s[0] <= s[k],
    decreases k,
{
    if k > 0 {
        lemma_root_is_min(s, parent(k));
        assert(edge_ok(s, k));
    }
}

/// Swapping two positions leaves the multiset of elements unchanged.
proof fn lemma_swap_multiset(s: Seq<i64>, i: int, j: int)
    requires
        0 <= i < s.len(),
        0 <= j < s.len(),
    ensures
        s.update(i, s[j]).update(j, s[i]).to_multiset() == s.to_multiset(),
{
    let t = s.update(i, s[j]);
    assert(t.update(j, s[i]).to_multiset() == t.to_multiset().insert(s[i]).remove(t[j]));
    assert(t.to_multiset() == s.to_multiset().insert(s[j]).remove(s[i]));
    if i == j {
        assert(s.update(i, s[j]).update(j, s[i]) =~= s);
    } else {
        assert(t[j] == s[j]);
        assert(s.to_multiset().insert(s[j]).remove(s[i]).insert(s[i]).remove(s[j])
            =~= s.to_multiset());
    }
}

fn swap(v: &mut Vec<i64>, i: usize, j: usize)
    requires
        i < old(v).len(),
        j < old(v).len(),
    ensures
        final(v)@ == old(v)@.update(i as int, old(v)@[j as int]).update(j as int, old(v)@[i as int]),
        final(v)@.to_multiset() == old(v)@.to_multiset(),
{
    proof {
        lemma_swap_multiset(v@, i as int, j as int);
    }
    let a = v[i];
    let b = v[j];
    v.set(i, b);
    v.set(j, a);
}

/// Moves the element at `pos` towards `start` while it is smaller than its parent
/// (CPython's `_siftdown`).
///
/// Where `pos` lies in the subtree of `start`, only the entries on the path from `pos` up
/// to `start` move; where `shift_down_ready` holds before the call, the subtree of `start`
/// is a heap afterwards.
pub fn shift_down(heap: &mut Vec<i64>, start: usize, pos: usize)
    requires
        start < pos ==> pos < old(heap).len(),
    ensures
        final(heap)@ == sift_down_seq(old(heap)@, start as int, pos as int),
        final(heap).len() == old(heap).len(),
        final(heap)@.to_multiset() == old(heap)@.to_multiset(),
        in_subtree(start as int, pos as int) ==> forall|k: int|
            0 <= k < old(heap).len() && !on_path(start as int, pos as int, k)
                ==> #[trigger] final(heap)@[k] == old(heap)@[k],
        shift_down_ready(old(heap)@, start as int, pos as int) ==> heap_below(final(heap)@, start as int),
{
    let ghost good = shift_down_ready(old(heap)@, start as int, pos as int);
    let ghost chain = in_subtree(start as int, pos as int);
    let ghost p0 = pos as int;
    if pos <= start {
        proof {
            if good {
                let s = heap@;
                assert forall|k: int| #![trigger s[k]]
                    1 <= k < s.len() && in_subtree(start as int, parent(k)) implies edge_ok(s, k) by {
                    if k == pos {
                        lemma_subtree_ge(start as int, parent(k));
                    }
                }
            }
        }
        return;
    }
    let mut cur = pos;
    let mut done = false;
    while cur > start && !done
        invariant
            done ==> heap@ == sift_down_seq(old(heap)@, start as int, p0),
            done && good ==> heap_below(heap@, start as int),
            cur < heap.len(),
            heap.len() == old(heap).len(),
            heap@.to_multiset() == old(heap)@.to_multiset(),
            sift_down_seq(heap@, start as int, cur as int) == sift_down_seq(old(heap)@, start as int, p0),
            chain == in_subtree(start as int, p0),
            chain ==> {
                &&& in_subtree(start as int, cur as int)
                &&& in_subtree(cur as int, p0)
                &&& forall|k: int| 0 <= k < heap.len() && !on_path(start as int, p0, k)
                    ==> #[trigger] heap@[k] == old(heap)@[k]
            },
            good ==> chain,
            good ==> {
                &&& start <= cur
                &&& heap_below_except(heap@, start as int, cur as int)
                &&& forall|k: int| #![trigger heap@[k]]
                    cur > start && 1 <= k < heap.len() && parent(k) == cur
                        ==> heap@[parent(cur as int)] <= heap@[k]
            },
        decreases 2 * cur + (if done { 0int } else { 1int }),
    {
        let parent_pos = (cur - 1) / 2;
        proof {
            if chain {
                assert(in_subtree(start as int, parent_pos as int));
                assert(in_subtree(parent_pos as int, parent_pos as int));
                assert(in_subtree(parent_pos as int, cur as int));
                lemma_subtree_trans(parent_pos as int, cur as int, p0);
            }
        }
        if heap[cur] < heap[parent_pos] {
            let ghost s = heap@;
            swap(heap, cur, parent_pos);
            let ghost t = heap@;
            proof {
                assert(t == swapped(s, cur as int, parent_pos as int));
                if chain {
                    assert forall|k: int| 0 <= k < t.len() && !on_path(start as int, p0, k)
                        implies #[trigger] t[k] == old(heap)@[k] by {
                        assert(k != cur && k != parent_pos);
                        assert(t[k] == s[k]);
                    }
                }
                if good {
                    assert forall|k: int| #![trigger t[k]]
                        1 <= k < t.len() && in_subtree(start as int, parent(k)) && k != parent_pos
                            implies edge_ok(t, k) by {
                        if k == cur {
                        } else if parent(k) == cur {
                            assert(s[k] == t[k]);
                        } else if parent(k) == parent_pos {
                            assert(s[k] == t[k]);
                            assert(edge_ok(s, k));
                        } else {
                            assert(s[k] == t[k]);
                            assert(edge_ok(s, k));
                        }
                    }
                    assert forall|k: int| #![trigger t[k]]
                        parent_pos > start && 1 <= k < t.len() && parent(k) == parent_pos
                            implies t[parent(parent_pos as int)] <= t[k] by {
                        let pp = parent(parent_pos as int);
                        assert(in_subtree(start as int, pp));
                        assert(s[pp] == t[pp]);
                        assert(edge_ok(s, parent_pos as int));
                        if k != cur {
                            assert(edge_ok(s, k));
                        }
                    }
                }
            }
            cur = parent_pos;
        }
        else {
            proof {
                assert(parent(cur as int) == parent_pos);
                assert(sift_down_seq(heap@, start as int, cur as int) == heap@);
                if good {
                    let s = heap@;
                    assert forall|k: int| #![trigger s[k]]
                        1 <= k < s.len() && in_subtree(start as int, parent(k)) implies edge_ok(s, k) by {
                        if k == cur {
                        }
                    }
                }
            }
            done = true;
        }
    }
    proof {
        if good && !done {
            let s = heap@;
            assert forall|k: int| #![trigger s[k]]
                1 <= k < s.len() && in_subtree(start as int, parent(k)) implies edge_ok(s, k) by {
                if k == cur {
                    lemma_subtree_ge(start as int, parent(k));
                }
            }
        }
    }
}

/// Moves the element at `pos` down to a leaf along the smaller children and then
/// back up to its place (CPython's `_siftup`).
///
/// Only entries of the subtree rooted at `pos` move; where both subtrees below `pos` are
/// heaps before the call, the subtree rooted at `pos` is a heap afterwards.
pub fn shift_up(heap: &mut Vec<i64>, pos: usize)
    ensures
        final(heap)@ == sift_up_seq(old(heap)@, pos as int),
        final(heap).len() == old(heap).len(),
        final(heap)@.to_multiset() == old(heap)@.to_multiset(),
        forall|k: int| 0 <= k < old(heap).len() && !in_subtree(pos as int, k)
            ==> #[trigger] final(heap)@[k] == old(heap)@[k],
        pos < old(heap).len() && heap_below_around(old(heap)@, pos as int, pos as int)
            ==> heap_below(final(heap)@, pos as int),
{
    let ghost good = pos < old(heap).len() && heap_below_around(old(heap)@, pos as int, pos as int);
    let ghost p0 = pos as int;
    if pos >= heap.len() {
        proof {
            assert(sift_up_walk(heap@, p0) == (heap@, p0));
        }
        return;
    }
    let end = heap.len();
    let start = pos;
    let mut cur = pos;
    while cur < end / 2
        invariant
            end == heap.len(),
            heap.len() == old(heap).len(),
            heap@.to_multiset() == old(heap)@.to_multiset(),
            start == p0,
            start <= cur < end,
            sift_up_walk(heap@, cur as int) == sift_up_walk(old(heap)@, p0),
            in_subtree(start as int, cur as int),
            forall|k: int| 0 <= k < heap.len() && !in_subtree(start as int, k)
                ==> #[trigger] heap@[k] == old(heap)@[k],
            good ==> {
                &&& heap_below_around(heap@, start as int, cur as int)
                &&& forall|k: int| #![trigger heap@[k]]
                    cur > start && 1 <= k < heap.len() && parent(k) == cur
                        ==> heap@[parent(cur as int)] <= heap@[k]
            },
        decreases end - cur,
    {
        let mut child = 2 * cur + 1;
        let right = child + 1;
        if right < end && heap[child] >= heap[right] {
            child = right;
        }
        let ghost s = heap@;
        let ghost c0 = cur as int;
        let ghost ch = child as int;
        swap(heap, cur, child);
        let ghost t = heap@;
        proof {
            assert(ch == next_child(s, c0));
            assert(t == swapped(s, c0, ch));
            assert(sift_up_walk(s, c0) == sift_up_walk(t, ch));
            assert(parent(ch) == c0);
            assert(in_subtree(c0, c0));
            assert(in_subtree(c0, ch));
            lemma_subtree_trans(start as int, c0, ch);
            assert forall|k: int| 0 <= k < t.len() && !in_subtree(start as int, k)
                implies #[trigger] t[k] == old(heap)@[k] by {
                assert(k != c0 && k != ch);
                assert(t[k] == s[k]);
            }
            if good {
                assert forall|k: int| #![trigger t[k]]
                    1 <= k < t.len() && in_subtree(start as int, parent(k)) && k != ch && parent(k) != ch
                        implies edge_ok(t, k) by {
                    if k == c0 {
                        if c0 == start {
                            lemma_subtree_ge(start as int, parent(k));
                        }
                        assert(s[parent(c0)] <= s[ch]);
                    } else if parent(k) == c0 {
                        assert(t[k] == s[k]);
                    } else {
                        assert(t[k] == s[k]);
                        assert(edge_ok(s, k));
                    }
                }
                assert forall|k: int| #![trigger t[k]]
                    1 <= k < t.len() && parent(k) == ch implies t[parent(ch)] <= t[k] by {
                    assert(t[k] == s[k]);
                    assert(edge_ok(s, k));
                }
            }
        }
        cur = child;
    }
    proof {
        assert(sift_up_walk(heap@, cur as int) == (heap@, cur as int));
        lemma_subtree_ge(start as int, cur as int);
        if good {
            let s = heap@;
            assert forall|k: int| #![trigger s[k]]
                1 <= k < s.len() && in_subtree(start as int, parent(k)) && k != cur implies edge_ok(s, k) by {
                if parent(k) == cur {
                    assert(false);
                }
            }
            assert(shift_down_ready(s, start as int, cur as int));
        }
    }
    let ghost before = heap@;
    shift_down(heap, start, cur);
    proof {
        assert forall|k: int| 0 <= k < heap.len() && !in_subtree(start as int, k)
            implies #[trigger] heap@[k] == old(heap)@[k] by {
            assert(!on_path(start as int, cur as int, k));
            assert(heap@[k] == before[k]);
        }
    }
}

/// Every index is in the subtree rooted at index 0.
proof fn lemma_in_root_subtree(k: int)
    requires
        k >= 0,
    ensures
        in_subtree(0, k),
    decreases k,
{
    if k > 0 {
        lemma_in_root_subtree(parent(k));
    }
}

/// Rearranges `x` into a heap (CPython's `heapify`).
pub fn heapify(x: &mut Vec<i64>)
    ensures
        final(x)@ == heapify_seq(old(x)@),
        final(x).len() == old(x).len(),
        final(x)@.to_multiset() == old(x)@.to_multiset(),
        is_heap(final(x)@),
{
    let n = x.len();
    let mut i = n / 2;
    while i > 0
        invariant
            x.len() == n == old(x).len(),
            i <= n / 2,
            x@.to_multiset() == old(x)@.to_multiset(),
            heap_from(x@, i as int),
            heapify_from(x@, i as int) == heapify_seq(old(x)@),
        decreases i,
    {
        i -= 1;
        shift_up(x, i);
    }
}

/// Adds `item` to a heap and restores the heap property (CPython's `heappush`).
pub fn heap_push(heap: &mut Vec<i64>, item: i64)
    ensures
        final(heap)@ == heap_push_seq(old(heap)@, item),
        final(heap).len() == old(heap).len() + 1,
        final(heap)@.to_multiset() == old(heap)@.to_multiset().insert(item),
        is_heap(old(heap)@) ==> is_heap(final(heap)@),
{
    heap.push(item);
    let n = heap.len();
    proof {
        lemma_in_root_subtree(n - 1);
        if is_heap(old(heap)@) {
            let s = heap@;
            assert forall|k: int| #![trigger s[k]]
                1 <= k < s.len() && parent(k) >= 0 && k != n - 1 implies edge_ok(s, k) by {
                assert(s[k] == old(heap)@[k]);
            }
            assert(shift_down_ready(s, 0, n - 1));
        }
    }
    shift_down(heap, 0, n - 1);
}

/// Removes and returns the first element of a non-empty sequence, moving the last one to
/// the front and restoring the heap property from there (CPython's `heappop`): on a heap,
/// the smallest element.
pub fn heap_pop(heap: &mut Vec<i64>) -> (response: i64)
    requires
        old(heap).len() > 0,
    ensures
        response == old(heap)@[0],
        final(heap)@ == heap_pop_seq(old(heap)@),
        final(heap).len() == old(heap).len() - 1,
        final(heap)@.to_multiset().insert(response) == old(heap)@.to_multiset(),
        is_heap(old(heap)@) ==> all_at_least(old(heap)@, response) && is_heap(final(heap)@),
{
    proof {
        if is_heap(old(heap)@) {
            assert forall|k: int| 0 <= k < old(heap)@.len() implies old(heap)@[0] <= #[trigger] old(heap)@[k] by {
                lemma_root_is_min(old(heap)@, k);
            }
        }
    }
    if heap.len() >= 2 {
        let n = heap.len();
        swap(heap, n - 1, 0);
        let ghost s = heap@;
        proof {
            assert(s =~= s.drop_last().push(s.last()));
        }
        let response = heap.pop().unwrap();
        proof {
            let t = heap@;
            assert(t == swapped(old(heap)@, n - 1, 0).drop_last());
            if is_heap(old(heap)@) {
                assert forall|k: int| #![trigger t[k]]
                    1 <= k < t.len() && parent(k) >= 1 implies edge_ok(t, k) by {
                    assert(t[k] == old(heap)@[k]);
                    assert(t[parent(k)] == old(heap)@[parent(k)]);
                    assert(edge_ok(old(heap)@, k));
                }
            }
        }
        shift_up(heap, 0);
        response
    } else {
        let ghost s = heap@;
        proof {
            assert(s =~= s.drop_last().push(s.last()));
        }
        heap.pop().unwrap()
    }
}

/// Popping gives the items in increasing order: every item left after a pop is at least the
/// item popped, so the next pop gives one no smaller.
pub proof fn law_pops_in_order(before: Seq<i64>, after: Seq<i64>, popped: i64)
    requires
        all_at_least(before, popped),
        after.to_multiset().insert(popped) == before.to_multiset(),
    ensures
        all_at_least(after, popped),
{
    assert forall|i: int| 0 <= i < after.len() implies after[i] >= popped by {
        assert(after.to_multiset().count(after[i]) > 0);
        assert(before.to_multiset().count(after[i]) > 0);
        assert(before.contains(after[i]));
    }
}

} // verus!
