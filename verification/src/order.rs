//! Stable sorting by a `u64` key: the order in which the cache sweep evicts
//! files (oldest first) and the library lists Clips (newest first). Both
//! directions keep equal keys in their original order, as std's stable
//! `sort_by_key` does.

use vstd::prelude::*;

verus! {

/// Item `a` sorts before item `b`: a smaller key (a larger one when
/// `descending`), or an equal key and an earlier position.
pub open spec fn ranks_before(keys: Seq<u64>, descending: bool, a: int, b: int) -> bool {
    if descending {
        keys[a] > keys[b] || (keys[a] == keys[b] && a < b)
    } else {
        keys[a] < keys[b] || (keys[a] == keys[b] && a < b)
    }
}

/// `ord` lists every index of `keys` exactly once, in stable key order.
pub open spec fn is_sorted_order(keys: Seq<u64>, descending: bool, ord: Seq<usize>) -> bool {
    &&& ord.len() == keys.len()
    &&& forall|k: int| 0 <= k < ord.len() ==> (#[trigger] ord[k]) < keys.len()
    &&& forall|x: usize| x < keys.len() ==> #[trigger] ord.contains(x)
    &&& forall|j: int, k: int|
        0 <= j < k < ord.len() ==> ranks_before(
            keys,
            descending,
            #[trigger] ord[j] as int,
            #[trigger] ord[k] as int,
        )
}

/// The stable sort order of `keys` (it exists and is unique, see
/// `lemma_sorted_order`).
pub open spec fn sorted_order(keys: Seq<u64>, descending: bool) -> Seq<usize> {
    choose|ord: Seq<usize>| is_sorted_order(keys, descending, ord)
}

/// The indices of `keys` in stable key order (a merge sort).
pub fn stable_order(keys: &[u64], descending: bool) -> (ord: Vec<usize>)
    ensures
        is_sorted_order(keys@, descending, ord@),
        ord@ == sorted_order(keys@, descending),
{
    let ord = sort_range(keys, descending, 0, keys.len());
    proof {
        assert forall|x: usize| x < keys@.len() implies #[trigger] ord@.contains(x) by {
            assert(0 <= x < keys@.len());
        }
        lemma_sorted_order_unique(keys@, descending, ord@, sorted_order(keys@, descending));
    }
    ord
}

/// The members of `s`, all in `[lo, hi)`, strictly ranked, covering
/// `[lo, hi)`.
pub open spec fn sorts_range(keys: Seq<u64>, descending: bool, s: Seq<usize>, lo: int, hi: int) -> bool {
    &&& s.len() == hi - lo
    &&& forall|k: int| 0 <= k < s.len() ==> lo <= #[trigger] s[k] < hi
    &&& forall|x: usize| lo <= x < hi ==> #[trigger] s.contains(x)
    &&& forall|j: int, k: int|
        0 <= j < k < s.len() ==> ranks_before(
            keys,
            descending,
            #[trigger] s[j] as int,
            #[trigger] s[k] as int,
        )
}

fn sort_range(keys: &[u64], descending: bool, lo: usize, hi: usize) -> (r: Vec<usize>)
    requires
        lo <= hi <= keys@.len(),
    ensures
        sorts_range(keys@, descending, r@, lo as int, hi as int),
    decreases hi - lo,
{
    if hi - lo == 0 {
        Vec::new()
    } else if hi - lo == 1 {
        let r = vec![lo];
        proof {
            assert forall|x: usize| lo <= x < hi implies #[trigger] r@.contains(x) by {
                assert(r@[0] == x);
            }
        }
        r
    } else {
        let mid = lo + (hi - lo) / 2;
        let a = sort_range(keys, descending, lo, mid);
        let b = sort_range(keys, descending, mid, hi);
        merge(keys, descending, a, b, lo, mid, hi)
    }
}

/// Whether `keys[x]` sorts after `keys[y]` for `x < y`: only then does the
/// later item go first.
fn later_goes_first(keys: &[u64], descending: bool, x: usize, y: usize) -> (r: bool)
    requires
        x < y < keys@.len(),
    ensures
        r == ranks_before(keys@, descending, y as int, x as int),
{
    if descending {
        keys[y] > keys[x]
    } else {
        keys[y] < keys[x]
    }
}

fn merge(
    keys: &[u64],
    descending: bool,
    a: Vec<usize>,
    b: Vec<usize>,
    lo: usize,
    mid: usize,
    hi: usize,
) -> (r: Vec<usize>)
    requires
        lo <= mid <= hi <= keys@.len(),
        sorts_range(keys@, descending, a@, lo as int, mid as int),
        sorts_range(keys@, descending, b@, mid as int, hi as int),
    ensures
        sorts_range(keys@, descending, r@, lo as int, hi as int),
{
    let mut out: Vec<usize> = Vec::new();
    let mut i: usize = 0;
    let mut j: usize = 0;
    while i < a.len() || j < b.len()
        invariant
            lo <= mid <= hi <= keys@.len(),
            sorts_range(keys@, descending, a@, lo as int, mid as int),
            sorts_range(keys@, descending, b@, mid as int, hi as int),
            i <= a@.len(),
            j <= b@.len(),
            out@.len() == i + j,
            forall|k: int| 0 <= k < out@.len() ==> lo <= #[trigger] out@[k] < hi,
            forall|k: int| 0 <= k < i ==> out@.contains(#[trigger] a@[k]),
            forall|k: int| 0 <= k < j ==> out@.contains(#[trigger] b@[k]),
            forall|k: int| 0 <= k < out@.len() ==> (a@.contains(#[trigger] out@[k]) || b@.contains(
                out@[k],
            )),
            forall|p: int, q: int|
                0 <= p < q < out@.len() ==> ranks_before(
                    keys@,
                    descending,
                    #[trigger] out@[p] as int,
                    #[trigger] out@[q] as int,
                ),
            forall|k: int|
                0 <= k < out@.len() && i < a@.len() ==> ranks_before(
                    keys@,
                    descending,
                    #[trigger] out@[k] as int,
                    a@[i as int] as int,
                ),
            forall|k: int|
                0 <= k < out@.len() && j < b@.len() ==> ranks_before(
                    keys@,
                    descending,
                    #[trigger] out@[k] as int,
                    b@[j as int] as int,
                ),
        decreases a.len() + b.len() - i - j,
    {
        let take_a = if i == a.len() {
            false
        } else if j == b.len() {
            true
        } else {
            !later_goes_first(keys, descending, a[i], b[j])
        };
        let ghost before = out@;
        if take_a {
            let x = a[i];
            proof {
                if j < b@.len() {
                    // x < b[j] as indices, and b[j] does not rank before x.
                    assert(x < b@[j as int]);
                }
            }
            out.push(x);
            proof {
                assert forall|k: int| 0 <= k < i + 1 implies out@.contains(#[trigger] a@[k]) by {
                    if k < i {
                        let w = choose|w: int| 0 <= w < before.len() && before[w] == a@[k];
                        assert(out@[w] == a@[k]);
                    } else {
                        assert(out@[before.len() as int] == a@[k]);
                    }
                }
                assert forall|k: int| 0 <= k < j implies out@.contains(#[trigger] b@[k]) by {
                    let w = choose|w: int| 0 <= w < before.len() && before[w] == b@[k];
                    assert(out@[w] == b@[k]);
                }
                assert forall|k: int| 0 <= k < out@.len() implies (a@.contains(#[trigger] out@[k])
                    || b@.contains(out@[k])) by {
                    if k == before.len() {
                        assert(a@[i as int] == out@[k]);
                    } else {
                        assert(out@[k] == before[k]);
                    }
                }
                if i + 1 < a@.len() {
                    assert(ranks_before(keys@, descending, a@[i as int] as int, a@[i + 1] as int));
                }
                if j < b@.len() {
                    assert(ranks_before(keys@, descending, x as int, b@[j as int] as int));
                }
            }
            i += 1;
        } else {
            let y = b[j];
            proof {
                if i < a@.len() {
                    assert(a@[i as int] < y);
                }
            }
            out.push(y);
            proof {
                assert forall|k: int| 0 <= k < i implies out@.contains(#[trigger] a@[k]) by {
                    let w = choose|w: int| 0 <= w < before.len() && before[w] == a@[k];
                    assert(out@[w] == a@[k]);
                }
                assert forall|k: int| 0 <= k < j + 1 implies out@.contains(#[trigger] b@[k]) by {
                    if k < j {
                        let w = choose|w: int| 0 <= w < before.len() && before[w] == b@[k];
                        assert(out@[w] == b@[k]);
                    } else {
                        assert(out@[before.len() as int] == b@[k]);
                    }
                }
                assert forall|k: int| 0 <= k < out@.len() implies (a@.contains(#[trigger] out@[k])
                    || b@.contains(out@[k])) by {
                    if k == before.len() {
                        assert(b@[j as int] == out@[k]);
                    } else {
                        assert(out@[k] == before[k]);
                    }
                }
                if j + 1 < b@.len() {
                    assert(ranks_before(keys@, descending, b@[j as int] as int, b@[j + 1] as int));
                }
            }
            j += 1;
        }
    }
    proof {
        assert forall|x: usize| lo <= x < hi implies #[trigger] out@.contains(x) by {
            if x < mid {
                assert(a@.contains(x));
                let w = choose|w: int| 0 <= w < a@.len() && a@[w] == x;
                assert(out@.contains(a@[w]));
            } else {
                assert(b@.contains(x));
                let w = choose|w: int| 0 <= w < b@.len() && b@[w] == x;
                assert(out@.contains(b@[w]));
            }
        }
    }
    out
}

/// Position `j` of a sorted order holds the same index in every sorted order.
proof fn lemma_sorted_orders_agree(
    keys: Seq<u64>,
    descending: bool,
    a: Seq<usize>,
    b: Seq<usize>,
    j: int,
)
    requires
        is_sorted_order(keys, descending, a),
        is_sorted_order(keys, descending, b),
        0 <= j < a.len(),
    ensures
        a[j] == b[j],
    decreases j,
{
    assert forall|k: int| 0 <= k < j implies a[k] == b[k] by {
        lemma_sorted_orders_agree(keys, descending, a, b, k);
    }
    let x = a[j];
    let y = b[j];
    if x != y {
        assert(b.contains(x));
        assert(a.contains(y));
        let p = choose|p: int| 0 <= p < b.len() && b[p] == x;
        let q = choose|q: int| 0 <= q < a.len() && a[q] == y;
        if p < j {
            assert(a[p] == b[p]);
            assert(ranks_before(keys, descending, a[p] as int, a[j] as int));
        } else if q < j {
            assert(a[q] == b[q]);
            assert(ranks_before(keys, descending, b[q] as int, b[j] as int));
        } else {
            assert(ranks_before(keys, descending, a[j] as int, a[q] as int));
            assert(ranks_before(keys, descending, b[j] as int, b[p] as int));
        }
    }
}

/// Sorted orders are unique: any two are equal, and `sorted_order` is the one
/// whenever one exists.
pub proof fn lemma_sorted_order_unique(
    keys: Seq<u64>,
    descending: bool,
    a: Seq<usize>,
    b: Seq<usize>,
)
    requires
        is_sorted_order(keys, descending, a),
    ensures
        is_sorted_order(keys, descending, b) ==> a == b,
        is_sorted_order(keys, descending, sorted_order(keys, descending)),
        sorted_order(keys, descending) == a,
{
    if is_sorted_order(keys, descending, b) {
        assert forall|j: int| 0 <= j < a.len() implies a[j] == b[j] by {
            lemma_sorted_orders_agree(keys, descending, a, b, j);
        }
        assert(a =~= b);
    }
    let c = sorted_order(keys, descending);
    assert(is_sorted_order(keys, descending, c));
    assert forall|j: int| 0 <= j < a.len() implies a[j] == c[j] by {
        lemma_sorted_orders_agree(keys, descending, a, c, j);
    }
    assert(a =~= c);
}

/// Whether item `x` may stay ahead of a later item with key `key`.
pub open spec fn key_not_after(keys: Seq<u64>, descending: bool, x: int, key: u64) -> bool {
    if descending {
        keys[x] >= key
    } else {
        keys[x] <= key
    }
}

/// A stable sort order exists for every list of keys (an insertion sort, done
/// in the proof).
pub proof fn lemma_sorted_order_exists(keys: Seq<u64>, descending: bool) -> (ord: Seq<usize>)
    requires
        keys.len() <= usize::MAX,
    ensures
        is_sorted_order(keys, descending, ord),
    decreases keys.len(),
{
    if keys.len() == 0 {
        seq![]
    } else {
        let n = keys.len() - 1;
        let head = keys.take(n);
        let prev = lemma_sorted_order_exists(head, descending);
        assert forall|k: int| 0 <= k < prev.len() implies (#[trigger] prev[k]) < n by {}
        assert forall|j: int, k: int| 0 <= j < k < prev.len() implies ranks_before(
            keys,
            descending,
            #[trigger] prev[j] as int,
            #[trigger] prev[k] as int,
        ) by {
            assert(ranks_before(head, descending, prev[j] as int, prev[k] as int));
        }
        let key = keys[n];
        let p = first_after(keys, descending, prev, key, 0);
        if p < prev.len() {
            assert forall|k: int| p <= k < prev.len() implies !key_not_after(
                keys,
                descending,
                #[trigger] prev[k] as int,
                key,
            ) by {
                if k > p {
                    assert(ranks_before(keys, descending, prev[p] as int, prev[k] as int));
                }
            }
        }
        let ord = prev.insert(p, n as usize);
        assert forall|x: usize| x < keys.len() implies #[trigger] ord.contains(x) by {
            if x < n {
                assert(prev.contains(x));
                let w = choose|w: int| 0 <= w < prev.len() && prev[w] == x;
                if w < p {
                    assert(ord[w] == x);
                } else {
                    assert(ord[w + 1] == x);
                }
            } else {
                assert(ord[p] == x);
            }
        }
        assert forall|j: int, k: int| 0 <= j < k < ord.len() implies ranks_before(
            keys,
            descending,
            #[trigger] ord[j] as int,
            #[trigger] ord[k] as int,
        ) by {
            if k < p {
                assert(ord[j] == prev[j] && ord[k] == prev[k]);
            } else if k == p {
                assert(ord[j] == prev[j]);
            } else if j < p {
                assert(ord[j] == prev[j] && ord[k] == prev[k - 1]);
            } else if j == p {
                assert(ord[k] == prev[k - 1]);
            } else {
                assert(ord[j] == prev[j - 1] && ord[k] == prev[k - 1]);
            }
        }
        assert forall|k: int| 0 <= k < ord.len() implies (#[trigger] ord[k]) < keys.len() by {
            if k < p {
                assert(ord[k] == prev[k]);
            } else if k > p {
                assert(ord[k] == prev[k - 1]);
            }
        }
        ord
    }
}

/// The first position at or after `p` in `prev` whose item must come after a
/// later item with key `key` (or `prev.len()`).
proof fn first_after(keys: Seq<u64>, descending: bool, prev: Seq<usize>, key: u64, p: int) -> (q: int)
    requires
        0 <= p <= prev.len(),
        forall|k: int| 0 <= k < prev.len() ==> (#[trigger] prev[k]) < keys.len(),
        forall|k: int| 0 <= k < p ==> key_not_after(keys, descending, #[trigger] prev[k] as int, key),
    ensures
        p <= q <= prev.len(),
        forall|k: int| 0 <= k < q ==> key_not_after(keys, descending, #[trigger] prev[k] as int, key),
        q < prev.len() ==> !key_not_after(keys, descending, prev[q] as int, key),
    decreases prev.len() - p,
{
    if p == prev.len() || !key_not_after(keys, descending, prev[p] as int, key) {
        p
    } else {
        first_after(keys, descending, prev, key, p + 1)
    }
}

/// Every list of keys has exactly one stable sort order, `sorted_order`.
pub proof fn lemma_sorted_order(keys: Seq<u64>, descending: bool)
    requires
        keys.len() <= usize::MAX,
    ensures
        is_sorted_order(keys, descending, sorted_order(keys, descending)),
        forall|o: Seq<usize>| #[trigger] is_sorted_order(keys, descending, o) ==> o == sorted_order(
            keys,
            descending,
        ),
{
    let w = lemma_sorted_order_exists(keys, descending);
    lemma_sorted_order_unique(keys, descending, w, w);
    assert forall|o: Seq<usize>| #[trigger] is_sorted_order(keys, descending, o) implies o
        == sorted_order(keys, descending) by {
        lemma_sorted_order_unique(keys, descending, w, o);
    }
}

} // verus!
