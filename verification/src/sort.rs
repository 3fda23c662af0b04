//! Ordering rows by key, rows of one key in the order they came in.
use crate::seqs::views;
use vstd::prelude::*;

verus! {

/// Up to four numbers, compared from the first to the last.
#[derive(Debug, Clone, Copy, PartialEq, Eq, Structural)]
pub struct SortKey {
    pub a: u128,
    pub b: u128,
    pub c: u128,
    pub d: u128,
}

/// Two to the hundred and twenty-eighth power.
pub open spec fn word() -> int {
    0x1_0000_0000_0000_0000_0000_0000_0000_0000int
}

impl SortKey {
    /// The key's place among all keys.
    pub open spec fn rank(self) -> int {
        ((self.a * word() + self.b) * word() + self.c) * word() + self.d
    }

    fn at_most(&self, other: &SortKey) -> (r: bool)
        ensures
            r == (self.rank() <= other.rank()),
    {
        if self.a != other.a {
            self.a < other.a
        } else if self.b != other.b {
            self.b < other.b
        } else if self.c != other.c {
            self.c < other.c
        } else {
            self.d <= other.d
        }
    }
}

/// The ranks of a list of keys.
pub open spec fn ranks(keys: Seq<SortKey>) -> Seq<int> {
    keys.map_values(|k: SortKey| k.rank())
}

/// The order `o` with index `i` put behind every index whose key is not
/// greater.
pub open spec fn placed(o: Seq<int>, keys: Seq<int>, i: int) -> Seq<int>
    decreases o.len(),
{
    if o.len() == 0 || keys[o.last()] <= keys[i] {
        o.push(i)
    } else {
        placed(o.drop_last(), keys, i).push(o.last())
    }
}

/// The indices of `keys` in ascending order of key, indices of one key in
/// their own order.
pub open spec fn order_of(keys: Seq<int>) -> Seq<int>
    decreases keys.len(),
{
    if keys.len() == 0 {
        Seq::empty()
    } else {
        placed(order_of(keys.drop_last()), keys, keys.len() - 1)
    }
}

/// `o` lists each index of `keys` once, by ascending key, and indices of one
/// key in ascending order.
pub open spec fn is_stable_order(keys: Seq<int>, o: Seq<int>) -> bool {
    &&& o.len() == keys.len()
    &&& forall|p: int| 0 <= p < o.len() ==> 0 <= #[trigger] o[p] < keys.len()
    &&& forall|p: int, q: int|
        0 <= p < q < o.len() ==> keys[#[trigger] o[p]] < keys[#[trigger] o[q]] || (keys[o[p]] == keys[o[q]] && o[p]
            < o[q])
}

/// `order_of` lists each index once, by ascending key, ties in their own
/// order.
pub proof fn lemma_order_of(keys: Seq<int>)
    ensures
        is_stable_order(keys, order_of(keys)),
    decreases keys.len(),
{
    if keys.len() > 0 {
        let n = keys.len() - 1;
        let fewer = keys.drop_last();
        lemma_order_of(fewer);
        let o = order_of(fewer);
        assert forall|p: int, q: int| 0 <= p < q < o.len() implies keys[#[trigger] o[p]] < keys[#[trigger] o[q]] || (
        keys[o[p]] == keys[o[q]] && o[p] < o[q]) by {
            assert(fewer[o[p]] == keys[o[p]]);
            assert(fewer[o[q]] == keys[o[q]]);
        }
        lemma_placed(o, keys, n);
    }
}

proof fn lemma_placed(o: Seq<int>, keys: Seq<int>, i: int)
    requires
        0 <= i < keys.len(),
        forall|p: int| 0 <= p < o.len() ==> 0 <= #[trigger] o[p] < i,
        forall|p: int, q: int|
            0 <= p < q < o.len() ==> keys[#[trigger] o[p]] < keys[#[trigger] o[q]] || (keys[o[p]] == keys[o[q]]
                && o[p] < o[q]),
    ensures
        placed(o, keys, i).len() == o.len() + 1,
        forall|p: int| 0 <= p <= o.len() ==> 0 <= #[trigger] placed(o, keys, i)[p] <= i,
        forall|p: int, q: int|
            0 <= p < q <= o.len() ==> keys[#[trigger] placed(o, keys, i)[p]] < keys[#[trigger] placed(o, keys, i)[q]]
                || (keys[placed(o, keys, i)[p]] == keys[placed(o, keys, i)[q]] && placed(o, keys, i)[p] < placed(
                o,
                keys,
                i,
            )[q]),
        forall|p: int|
            0 <= p <= o.len() ==> #[trigger] placed(o, keys, i)[p] == i || o.contains(placed(o, keys, i)[p]),
    decreases o.len(),
{
    let r = placed(o, keys, i);
    if o.len() == 0 || keys[o.last()] <= keys[i] {
        assert forall|p: int, q: int| 0 <= p < q <= o.len() implies keys[#[trigger] r[p]] < keys[#[trigger] r[q]] || (
        keys[r[p]] == keys[r[q]] && r[p] < r[q]) by {
            if q == o.len() {
                if p < o.len() - 1 {
                    assert(keys[o[p]] <= keys[o[o.len() - 1]]);
                }
                assert(o[p] < i);
            }
        }
        assert forall|p: int| 0 <= p <= o.len() implies #[trigger] r[p] == i || o.contains(r[p]) by {
            if p < o.len() {
                assert(o[p] == r[p]);
            }
        }
    } else {
        let fewer = o.drop_last();
        lemma_placed(fewer, keys, i);
        let inner = placed(fewer, keys, i);
        assert forall|p: int| 0 <= p < inner.len() implies keys[#[trigger] inner[p]] < keys[o.last()] || (
        keys[inner[p]] == keys[o.last()] && inner[p] < o.last()) by {
            if inner[p] != i {
                assert(fewer.contains(inner[p]));
                let j = choose|j: int| 0 <= j < fewer.len() && fewer[j] == inner[p];
                assert(o[j] == inner[p]);
                assert(o[o.len() - 1] == o.last());
            }
        }
        assert forall|p: int| 0 <= p <= o.len() implies #[trigger] r[p] == i || o.contains(r[p]) by {
            if p < inner.len() {
                assert(r[p] == inner[p]);
                if inner[p] != i {
                    let j = choose|j: int| 0 <= j < fewer.len() && fewer[j] == inner[p];
                    assert(o[j] == inner[p]);
                }
            } else {
                assert(o[o.len() - 1] == r[p]);
            }
        }
    }
}

proof fn lemma_placed_is_inserted(o: Seq<int>, keys: Seq<int>, i: int, at: int)
    requires
        0 <= at <= o.len(),
        at > 0 ==> keys[o[at - 1]] <= keys[i],
        forall|p: int| at <= p < o.len() ==> keys[#[trigger] o[p]] > keys[i],
    ensures
        placed(o, keys, i) == o.insert(at, i),
    decreases o.len(),
{
    if at == o.len() {
        assert(o.insert(at, i) =~= o.push(i));
    } else {
        assert(keys[o[o.len() - 1]] > keys[i]);
        lemma_placed_is_inserted(o.drop_last(), keys, i, at);
        assert(o.insert(at, i) =~= o.drop_last().insert(at, i).push(o.last()));
    }
}

proof fn lemma_placed_prefix(o: Seq<int>, keys: Seq<int>, longer: Seq<int>, i: int)
    requires
        0 <= i < keys.len() <= longer.len(),
        forall|p: int| 0 <= p < keys.len() ==> longer[p] == keys[p],
        forall|p: int| 0 <= p < o.len() ==> 0 <= #[trigger] o[p] < keys.len(),
    ensures
        placed(o, keys, i) == placed(o, longer, i),
    decreases o.len(),
{
    if o.len() > 0 {
        lemma_placed_prefix(o.drop_last(), keys, longer, i);
        assert(0 <= o[o.len() - 1] < keys.len());
    }
}

/// The indices of `keys` in ascending order of key, indices of one key in
/// their own order.
pub fn stable_order(keys: &Vec<SortKey>) -> (order: Vec<usize>)
    ensures
        order@.map_values(|i: usize| i as int) == order_of(ranks(keys@)),
        order.len() == keys.len(),
        forall|p: int| 0 <= p < order.len() ==> (#[trigger] order@[p]) < keys.len(),
{
    let mut order: Vec<usize> = Vec::new();
    let ghost all = ranks(keys@);
    let mut i: usize = 0;
    assert(order@.map_values(|x: usize| x as int) =~= order_of(all.take(0)));
    while i < keys.len()
        invariant
            i <= keys.len(),
            all == ranks(keys@),
            order.len() == i,
            forall|p: int| 0 <= p < order.len() ==> (#[trigger] order@[p]) < i,
            order@.map_values(|x: usize| x as int) == order_of(all.take(i as int)),
        decreases keys.len() - i,
    {
        let mut at: usize = i;
        let ghost o = order@.map_values(|x: usize| x as int);
        while at > 0 && !keys[order[at - 1]].at_most(&keys[i])
            invariant
                at <= i,
                i < keys.len(),
                order.len() == i,
                all == ranks(keys@),
                o == order@.map_values(|x: usize| x as int),
                forall|p: int| 0 <= p < order.len() ==> (#[trigger] order@[p]) < i,
                forall|p: int| at <= p < o.len() ==> all[#[trigger] o[p]] > all[i as int],
            decreases at,
        {
            at -= 1;
            assert(o[at as int] == order@[at as int]);
        }
        proof {
            let part = all.take(i + 1);
            assert(part.drop_last() =~= all.take(i as int));
            if at > 0 {
                assert(o[at - 1] == order@[at - 1]);
            }
            lemma_placed_is_inserted(o, all, i as int, at as int);
            assert forall|p: int| 0 <= p < o.len() implies 0 <= #[trigger] o[p] < part.len() by {
                assert(o[p] == order@[p]);
            }
            lemma_placed_prefix(o, part, all, i as int);
        }
        order.insert(at, i);
        assert(order@.map_values(|x: usize| x as int) =~= o.insert(at as int, i as int));
        assert forall|p: int| 0 <= p < order.len() implies (#[trigger] order@[p]) < i + 1 by {
            if p < at {
                assert(order@[p] as int == o[p]);
            } else if p > at {
                assert(order@[p] as int == o[p - 1]);
            }
        }
        i += 1;
    }
    assert(all.take(i as int) =~= all);
    order
}

/// `items` by ascending `key`, items of one key in the order they have.
pub open spec fn ordered<T>(items: Seq<T>, key: spec_fn(T) -> int) -> Seq<T> {
    let order = order_of(items.map_values(key));
    Seq::new(order.len(), |j: int| items[order[j]])
}

/// Keys that compare alike give the same order.
pub proof fn lemma_same_order(a: Seq<int>, b: Seq<int>)
    requires
        a.len() == b.len(),
        forall|i: int, j: int| #![trigger a[i], a[j]] #![trigger b[i], b[j]]
            0 <= i < a.len() && 0 <= j < a.len() ==> (a[i] <= a[j] <==> b[i] <= b[j]),
    ensures
        order_of(a) == order_of(b),
    decreases a.len(),
{
    if a.len() > 0 {
        let fewer_a = a.drop_last();
        let fewer_b = b.drop_last();
        assert forall|i: int, j: int| #![trigger fewer_a[i], fewer_a[j]] #![trigger fewer_b[i], fewer_b[j]]
            0 <= i < fewer_a.len() && 0 <= j < fewer_a.len() implies (fewer_a[i] <= fewer_a[j] <==> fewer_b[i]
            <= fewer_b[j]) by {
            assert(a[i] <= a[j] <==> b[i] <= b[j]);
        }
        lemma_same_order(fewer_a, fewer_b);
        lemma_order_of(fewer_a);
        let o = order_of(fewer_a);
        lemma_same_place(o, a, b, a.len() - 1);
    }
}

proof fn lemma_same_place(o: Seq<int>, a: Seq<int>, b: Seq<int>, i: int)
    requires
        a.len() == b.len(),
        0 <= i < a.len(),
        forall|p: int| 0 <= p < o.len() ==> 0 <= #[trigger] o[p] < a.len(),
        forall|i: int, j: int| #![trigger a[i], a[j]] #![trigger b[i], b[j]]
            0 <= i < a.len() && 0 <= j < a.len() ==> (a[i] <= a[j] <==> b[i] <= b[j]),
    ensures
        placed(o, a, i) == placed(o, b, i),
    decreases o.len(),
{
    if o.len() > 0 {
        assert(0 <= o[o.len() - 1] < a.len());
        assert(a[o.last()] <= a[i] <==> b[o.last()] <= b[i]);
        lemma_same_place(o.drop_last(), a, b, i);
    }
}

/// The order of keys that compare like `key` does on `items`.
pub proof fn lemma_ordered<T>(items: Seq<T>, key: spec_fn(T) -> int, keys: Seq<SortKey>)
    requires
        keys.len() == items.len(),
        forall|i: int, j: int| #![trigger keys[i], keys[j]]
            0 <= i < keys.len() && 0 <= j < keys.len() ==> (keys[i].rank() <= keys[j].rank() <==> key(items[i]) <= key(
                items[j],
            )),
    ensures
        order_of(ranks(keys)) == order_of(items.map_values(key)),
{
    let a = ranks(keys);
    let b = items.map_values(key);
    assert forall|i: int, j: int| #![trigger a[i], a[j]] #![trigger b[i], b[j]]
        0 <= i < a.len() && 0 <= j < a.len() implies (a[i] <= a[j] <==> b[i] <= b[j]) by {
        assert(keys[i].rank() <= keys[j].rank() <==> key(items[i]) <= key(items[j]));
    }
    lemma_same_order(a, b);
}

/// Ordering keeps the items, by ascending key, and puts of two items of one key
/// the one that came first first.
pub proof fn lemma_ordered_keeps<T>(items: Seq<T>, key: spec_fn(T) -> int)
    ensures
        ordered(items, key).len() == items.len(),
        forall|i: int, j: int|
            0 <= i < j < items.len() ==> key(#[trigger] ordered(items, key)[i]) <= key(
                #[trigger] ordered(items, key)[j],
            ),
        forall|x: T| ordered(items, key).contains(x) <==> items.contains(x),
{
    let keys = items.map_values(key);
    let o = order_of(keys);
    let all = ordered(items, key);
    lemma_order_of(keys);
    assert forall|i: int, j: int| 0 <= i < j < items.len() implies key(#[trigger] all[i]) <= key(
        #[trigger] all[j],
    ) by {
        assert(keys[o[i]] < keys[o[j]] || (keys[o[i]] == keys[o[j]] && o[i] < o[j]));
    }
    assert(o.no_duplicates());
    o.unique_seq_to_set();
    vstd::set_lib::lemma_int_range(0, keys.len() as int);
    let range = vstd::set_lib::set_int_range(0, keys.len() as int);
    assert forall|x: int| o.to_set().contains(x) implies range.contains(x) by {
        let p = choose|p: int| 0 <= p < o.len() && o[p] == x;
        assert(0 <= o[p] < keys.len());
    }
    vstd::set_lib::lemma_subset_equality(o.to_set(), range);
    assert forall|x: T| all.contains(x) <==> items.contains(x) by {
        if all.contains(x) {
            let p = choose|p: int| 0 <= p < all.len() && all[p] == x;
            assert(0 <= o[p] < keys.len());
            assert(items[o[p]] == x);
        }
        if items.contains(x) {
            let i = choose|i: int| 0 <= i < items.len() && items[i] == x;
            assert(range.contains(i));
            assert(o.to_set().contains(i));
            let p = choose|p: int| 0 <= p < o.len() && o[p] == i;
            assert(all[p] == x);
        }
    }
}

/// The key made of one number.
pub fn key1(a: u128) -> (k: SortKey)
    ensures
        k == (SortKey { a, b: 0, c: 0, d: 0 }),
{
    SortKey { a, b: 0, c: 0, d: 0 }
}

/// The items in the order of their keys, which compare like `key` does.
pub fn arranged<T: Copy>(items: &Vec<T>, keys: &Vec<SortKey>, Ghost(key): Ghost<spec_fn(T) -> int>) -> (r: Vec<T>)
    requires
        keys.len() == items.len(),
        forall|i: int, j: int| #![trigger keys@[i], keys@[j]]
            0 <= i < keys.len() && 0 <= j < keys.len() ==> (keys@[i].rank() <= keys@[j].rank() <==> key(items@[i])
                <= key(items@[j])),
    ensures
        r@ == ordered(items@, key),
        r.len() == items.len(),
{
    let order = stable_order(keys);
    proof {
        lemma_ordered(items@, key, keys@);
    }
    let mut r: Vec<T> = Vec::new();
    let mut k: usize = 0;
    while k < order.len()
        invariant
            k <= order.len(),
            order.len() == items.len(),
            forall|p: int| 0 <= p < order.len() ==> (#[trigger] order@[p]) < items.len(),
            r.len() == k,
            forall|j: int| 0 <= j < k ==> (#[trigger] r@[j]) == items@[order@[j] as int],
        decreases order.len() - k,
    {
        r.push(items[order[k]]);
        k += 1;
    }
    proof {
        let o = order_of(items@.map_values(key));
        assert(o.len() == order@.map_values(|i: usize| i as int).len());
        assert forall|j: int| 0 <= j < order.len() implies o[j] == #[trigger] order@[j] by {
            assert(order@.map_values(|i: usize| i as int)[j] == order@[j]);
        }
        assert(r@ =~= ordered(items@, key));
    }
    r
}

/// Ordering borrowed values orders what they show.
pub proof fn lemma_ordered_views<T: View>(s: Seq<&T>, key: spec_fn(T::V) -> int)
    ensures
        views(ordered(s, |t: &T| key(t@))) == ordered(views(s), key),
{
    let a = s.map_values(|t: &T| key(t@));
    let b = views(s).map_values(key);
    assert(a =~= b);
    lemma_order_of(a);
    assert(views(ordered(s, |t: &T| key(t@))) =~= ordered(views(s), key));
}

}
