//! A map kept in ascending key order.
use crate::seqs::{
    count, lemma_pick_found, lemma_pick_source, lemma_pick_step, lemma_total_insert, lemma_total_not_negative,
    lemma_total_parts, lemma_total_update, pick, total, values_that, views,
};
use vstd::prelude::*;

verus! {

/// A copyable key with a total order, given by an injective rank.
pub trait Key: Copy {
    /// The key's place in the order.
    spec fn rank(self) -> int;

    /// Two keys of one rank are one key.
    proof fn rank_is_injective(a: Self, b: Self)
        requires
            a.rank() == b.rank(),
        ensures
            a == b,
    ;

    fn precedes(&self, other: &Self) -> (r: bool)
        ensures
            r == (self.rank() < other.rank()),
    ;
}

/// A value that can be copied out of a place it is only borrowed from,
/// with the same view.
pub trait Duplicate: View + Sized {
    fn duplicate(&self) -> (copy: Self)
        ensures
            copy@ == self@,
    ;
}

impl Key for u128 {
    open spec fn rank(self) -> int {
        self as int
    }

    proof fn rank_is_injective(a: Self, b: Self) {
    }

    fn precedes(&self, other: &Self) -> (r: bool) {
        *self < *other
    }
}

/// Rows in strictly ascending key order.
pub open spec fn ascending<K: Key, T>(rows: Seq<(K, T)>) -> bool {
    forall|i: int, j: int|
        0 <= i < j < rows.len() ==> (#[trigger] rows[i]).0.rank() < (#[trigger] rows[j]).0.rank()
}

/// Whether some row is filed under `k`.
pub open spec fn has_row<K, T>(rows: Seq<(K, T)>, k: K) -> bool {
    exists|i: int| 0 <= i < rows.len() && (#[trigger] rows[i]).0 == k
}

/// The index of the row filed under `k`.
pub open spec fn row_of<K, T>(rows: Seq<(K, T)>, k: K) -> int {
    choose|i: int| 0 <= i < rows.len() && (#[trigger] rows[i]).0 == k
}

/// The rows read as a map.
pub open spec fn as_map<K, T>(rows: Seq<(K, T)>) -> Map<K, T> {
    Map::new(|k: K| has_row(rows, k), |k: K| rows[row_of(rows, k)].1)
}

/// In ascending rows, the row at `i` is the one filed under its key.
pub proof fn lemma_row_is_mapped<K: Key, T>(rows: Seq<(K, T)>, i: int)
    requires
        ascending(rows),
        0 <= i < rows.len(),
    ensures
        row_of(rows, rows[i].0) == i,
        as_map(rows).contains_key(rows[i].0),
        as_map(rows)[rows[i].0] == rows[i].1,
{
    let k = rows[i].0;
    assert(has_row(rows, k));
    let j = row_of(rows, k);
    if i < j {
        assert(rows[i].0.rank() < rows[j].0.rank());
    } else if j < i {
        assert(rows[j].0.rank() < rows[i].0.rank());
    }
}

/// Replacing the value of one row is an insertion under its key.
pub proof fn lemma_update_row<K: Key, T>(rows: Seq<(K, T)>, i: int, t: T)
    requires
        ascending(rows),
        0 <= i < rows.len(),
    ensures
        ascending(rows.update(i, (rows[i].0, t))),
        as_map(rows.update(i, (rows[i].0, t))) == as_map(rows).insert(rows[i].0, t),
{
    let k = rows[i].0;
    let changed = rows.update(i, (k, t));
    assert forall|a: int, b: int| 0 <= a < b < changed.len() implies (#[trigger] changed[a]).0.rank()
        < (#[trigger] changed[b]).0.rank() by {
        assert(rows[a].0.rank() < rows[b].0.rank());
    }
    assert forall|q: K| has_row(changed, q) == (has_row(rows, q) || q == k) by {
        if has_row(changed, q) {
            let j = row_of(changed, q);
            assert(rows[j].0 == q);
        }
        if has_row(rows, q) {
            let j = row_of(rows, q);
            assert(changed[j].0 == q);
        }
        assert(changed[i].0 == k);
    }
    assert forall|q: K| has_row(changed, q) implies as_map(changed)[q] == as_map(rows).insert(k, t)[q] by {
        let j = row_of(changed, q);
        lemma_row_is_mapped(changed, j);
        lemma_row_is_mapped(rows, j);
        assert(rows[j].0 == q);
        lemma_row_is_mapped(rows, i);
    }
    assert(as_map(changed) =~= as_map(rows).insert(k, t));
}

/// A row put where its key belongs is an insertion under that key.
proof fn lemma_insert_row<K: Key, T>(rows: Seq<(K, T)>, at: int, k: K, t: T)
    requires
        ascending(rows),
        0 <= at <= rows.len(),
        forall|i: int| 0 <= i < at ==> (#[trigger] rows[i]).0.rank() < k.rank(),
        forall|i: int| at <= i < rows.len() ==> (#[trigger] rows[i]).0.rank() > k.rank(),
    ensures
        ascending(rows.insert(at, (k, t))),
        !as_map(rows).contains_key(k),
        as_map(rows.insert(at, (k, t))) == as_map(rows).insert(k, t),
{
    let grown = rows.insert(at, (k, t));
    assert forall|a: int, b: int| 0 <= a < b < grown.len() implies (#[trigger] grown[a]).0.rank()
        < (#[trigger] grown[b]).0.rank() by {
        let x = if a < at { a } else { a - 1 };
        let y = if b < at { b } else { b - 1 };
        if a != at && b != at {
            assert(grown[a] == rows[x]);
            assert(grown[b] == rows[y]);
        } else if a == at {
            assert(grown[b] == rows[y]);
        } else {
            assert(grown[a] == rows[x]);
        }
    }
    assert forall|q: K| has_row(grown, q) == (has_row(rows, q) || q == k) by {
        if has_row(grown, q) {
            let j = row_of(grown, q);
            if j < at {
                assert(rows[j].0 == q);
            } else if j > at {
                assert(rows[j - 1].0 == q);
            }
        }
        if has_row(rows, q) {
            let j = row_of(rows, q);
            let y = if j < at { j } else { j + 1 };
            assert(grown[y].0 == q);
        }
        assert(grown[at].0 == k);
    }
    assert forall|q: K| has_row(grown, q) implies as_map(grown)[q] == as_map(rows).insert(k, t)[q] by {
        let j = row_of(grown, q);
        lemma_row_is_mapped(grown, j);
        if j < at {
            lemma_row_is_mapped(rows, j);
        } else if j > at {
            lemma_row_is_mapped(rows, j - 1);
        }
    }
    assert(as_map(grown) =~= as_map(rows).insert(k, t));
}

/// Taking a row out removes its key.
proof fn lemma_remove_row<K: Key, T>(rows: Seq<(K, T)>, at: int)
    requires
        ascending(rows),
        0 <= at < rows.len(),
    ensures
        ascending(rows.remove(at)),
        as_map(rows.remove(at)) == as_map(rows).remove(rows[at].0),
{
    let k = rows[at].0;
    let rest = rows.remove(at);
    assert forall|a: int, b: int| 0 <= a < b < rest.len() implies (#[trigger] rest[a]).0.rank()
        < (#[trigger] rest[b]).0.rank() by {
        let x = if a < at { a } else { a + 1 };
        let y = if b < at { b } else { b + 1 };
        assert(rest[a] == rows[x]);
        assert(rest[b] == rows[y]);
    }
    assert forall|q: K| has_row(rest, q) == (has_row(rows, q) && q != k) by {
        if has_row(rest, q) {
            let j = row_of(rest, q);
            let x = if j < at { j } else { j + 1 };
            assert(rows[x].0 == q);
            if x < at {
                assert(rows[x].0.rank() < rows[at].0.rank());
            } else {
                assert(rows[at].0.rank() < rows[x].0.rank());
            }
        }
        if has_row(rows, q) && q != k {
            let j = row_of(rows, q);
            let y = if j < at { j } else { j - 1 };
            assert(rest[y].0 == q);
        }
    }
    assert forall|q: K| has_row(rest, q) implies as_map(rest)[q] == as_map(rows)[q] by {
        let j = row_of(rest, q);
        let x = if j < at { j } else { j + 1 };
        lemma_row_is_mapped(rest, j);
        lemma_row_is_mapped(rows, x);
    }
    assert(as_map(rest) =~= as_map(rows).remove(k));
}

/// Ascending rows are determined by the map they make.
pub proof fn lemma_rows_are_unique<K: Key, T>(a: Seq<(K, T)>, b: Seq<(K, T)>)
    requires
        ascending(a),
        ascending(b),
        as_map(a) == as_map(b),
    ensures
        a == b,
    decreases a.len(),
{
    if a.len() == 0 {
        if b.len() > 0 {
            lemma_row_is_mapped(b, 0);
            assert(as_map(a).contains_key(b[0].0));
        }
        assert(a =~= b);
    } else {
        lemma_row_is_mapped(a, a.len() - 1);
        if b.len() == 0 {
            assert(has_row(b, a[a.len() - 1].0));
        }
        lemma_row_is_mapped(b, b.len() - 1);
        let last_a = a[a.len() - 1].0;
        let last_b = b[b.len() - 1].0;
        assert(has_row(b, last_a) && has_row(a, last_b));
        let j = row_of(b, last_a);
        let i = row_of(a, last_b);
        if j < b.len() - 1 {
            assert(b[j].0.rank() < b[b.len() - 1].0.rank());
        }
        if i < a.len() - 1 {
            assert(a[i].0.rank() < a[a.len() - 1].0.rank());
        }
        K::rank_is_injective(last_a, last_b);
        lemma_remove_row(a, a.len() - 1);
        lemma_remove_row(b, b.len() - 1);
        assert(a.remove(a.len() - 1) =~= a.drop_last());
        assert(b.remove(b.len() - 1) =~= b.drop_last());
        lemma_rows_are_unique(a.drop_last(), b.drop_last());
        assert(a =~= a.drop_last().push(a.last()));
        assert(b =~= b.drop_last().push(b.last()));
    }
}

/// The entries of `m` in ascending key order.
pub open spec fn rows_of<K: Key, T>(m: Map<K, T>) -> Seq<(K, T)> {
    choose|rows: Seq<(K, T)>| ascending(rows) && as_map(rows) == m
}

/// The entries of the map that ascending rows make are those rows.
pub proof fn lemma_rows_of<K: Key, T>(rows: Seq<(K, T)>)
    requires
        ascending(rows),
    ensures
        rows_of(as_map(rows)) == rows,
{
    lemma_rows_are_unique(rows, rows_of(as_map(rows)));
}

/// Whether `m` is the map of some ascending rows.
pub open spec fn listable<K: Key, T>(m: Map<K, T>) -> bool {
    exists|rows: Seq<(K, T)>| ascending(rows) && #[trigger] as_map(rows) == m
}

/// A map has as many entries as the rows that make it.
pub proof fn lemma_row_count<K: Key, T>(rows: Seq<(K, T)>)
    requires
        ascending(rows),
    ensures
        as_map(rows).dom().finite(),
        as_map(rows).dom().len() == rows.len(),
    decreases rows.len(),
{
    if rows.len() == 0 {
        assert(as_map(rows).dom() =~= Set::empty());
    } else {
        let shorter = rows.drop_last();
        let k = rows.last().0;
        lemma_row_count(shorter);
        assert forall|q: K| as_map(rows).dom().contains(q) == as_map(shorter).dom().insert(k).contains(q) by {
            if has_row(rows, q) {
                let i = choose|i: int| 0 <= i < rows.len() && (#[trigger] rows[i]).0 == q;
                if i < shorter.len() {
                    assert(shorter[i].0 == q);
                }
            }
            if has_row(shorter, q) {
                let i = choose|i: int| 0 <= i < shorter.len() && (#[trigger] shorter[i]).0 == q;
                assert(rows[i].0 == q);
            }
            assert(rows[rows.len() - 1].0 == k);
        }
        assert(as_map(rows).dom() =~= as_map(shorter).dom().insert(k));
        if has_row(shorter, k) {
            let i = choose|i: int| 0 <= i < shorter.len() && (#[trigger] shorter[i]).0 == k;
            assert(rows[i].0.rank() < rows[rows.len() - 1].0.rank());
        }
    }
}

/// The entries of a map that can be listed make that map.
pub proof fn lemma_listed<K: Key, T>(m: Map<K, T>)
    requires
        listable(m),
    ensures
        ascending(rows_of(m)),
        as_map(rows_of(m)) == m,
{
}

/// The sum of `f` over the entries of `m`.
pub open spec fn map_sum<K: Key, T>(m: Map<K, T>, f: spec_fn(K, T) -> int) -> int {
    total(rows_of(m), |row: (K, T)| f(row.0, row.1))
}

/// How many rows come before a key that is not among them.
proof fn lemma_place_for<K: Key, T>(rows: Seq<(K, T)>, k: K) -> (at: int)
    requires
        ascending(rows),
        !has_row(rows, k),
    ensures
        0 <= at <= rows.len(),
        forall|i: int| 0 <= i < at ==> (#[trigger] rows[i]).0.rank() < k.rank(),
        forall|i: int| at <= i < rows.len() ==> (#[trigger] rows[i]).0.rank() > k.rank(),
    decreases rows.len(),
{
    if rows.len() == 0 {
        0
    } else {
        let n = rows.len() - 1;
        if rows[n].0.rank() == k.rank() {
            K::rank_is_injective(rows[n].0, k);
            assert(has_row(rows, k));
        }
        if rows[n].0.rank() < k.rank() {
            assert forall|i: int| 0 <= i < rows.len() implies (#[trigger] rows[i]).0.rank() < k.rank() by {
                if i < n {
                    assert(rows[i].0.rank() < rows[n].0.rank());
                }
            }
            rows.len() as int
        } else {
            let shorter = rows.drop_last();
            if has_row(shorter, k) {
                assert(rows[row_of(shorter, k)].0 == k);
            }
            let at = lemma_place_for(shorter, k);
            assert forall|i: int| at <= i < rows.len() implies (#[trigger] rows[i]).0.rank() > k.rank() by {
                if i < n {
                    assert(shorter[i].0.rank() > k.rank());
                }
            }
            assert forall|i: int| 0 <= i < at implies (#[trigger] rows[i]).0.rank() < k.rank() by {
                assert(shorter[i].0.rank() < k.rank());
            }
            at
        }
    }
}

/// Inserting an entry adds its amount to a sum, and takes away that of the
/// entry it replaces.
pub proof fn lemma_map_sum_insert<K: Key, T>(m: Map<K, T>, k: K, v: T, f: spec_fn(K, T) -> int)
    requires
        listable(m),
    ensures
        listable(m.insert(k, v)),
        map_sum(m.insert(k, v), f) == map_sum(m, f) + f(k, v) - if m.contains_key(k) {
            f(k, m[k])
        } else {
            0
        },
{
    let rows = rows_of(m);
    let g = |row: (K, T)| f(row.0, row.1);
    if m.contains_key(k) {
        let i = row_of(rows, k);
        lemma_row_is_mapped(rows, i);
        lemma_update_row(rows, i, v);
        lemma_total_update(rows, g, i, (k, v));
        let changed = rows.update(i, (k, v));
        assert(as_map(changed) == m.insert(k, v));
        lemma_rows_of(changed);
    } else {
        let at = lemma_place_for(rows, k);
        lemma_insert_row(rows, at, k, v);
        lemma_total_insert(rows, g, at, (k, v));
        let grown = rows.insert(at, (k, v));
        assert(as_map(grown) == m.insert(k, v));
        lemma_rows_of(grown);
    }
}

/// The amounts of one entry, or of two, are at most the sum.
pub proof fn lemma_map_sum_parts<K: Key, T>(m: Map<K, T>, f: spec_fn(K, T) -> int, a: K, b: K)
    requires
        listable(m),
        m.contains_key(a),
        m.contains_key(b),
        forall|k: K, v: T| #[trigger] f(k, v) >= 0,
    ensures
        f(a, m[a]) <= map_sum(m, f),
        a != b ==> f(a, m[a]) + f(b, m[b]) <= map_sum(m, f),
{
    let rows = rows_of(m);
    let g = |row: (K, T)| f(row.0, row.1);
    let i = row_of(rows, a);
    let j = row_of(rows, b);
    lemma_row_is_mapped(rows, i);
    lemma_row_is_mapped(rows, j);
    lemma_total_parts(rows, g, i, j);
}

/// Taking an entry out takes its amount off a sum.
pub proof fn lemma_map_sum_remove<K: Key, T>(m: Map<K, T>, k: K, f: spec_fn(K, T) -> int)
    requires
        listable(m),
        m.contains_key(k),
    ensures
        listable(m.remove(k)),
        rows_of(m.remove(k)).len() == rows_of(m).len() - 1,
        map_sum(m.remove(k), f) == map_sum(m, f) - f(k, m[k]),
{
    let rows = rows_of(m);
    let i = row_of(rows, k);
    lemma_row_is_mapped(rows, i);
    lemma_remove_row(rows, i);
    lemma_rows_of(rows.remove(i));
    assert(as_map(rows.remove(i)) == m.remove(k));
    lemma_map_sum_insert(m.remove(k), k, m[k], f);
    assert(m.remove(k).insert(k, m[k]) =~= m);
}

/// The entries that one map takes over from another add up to no more than
/// all of the other's, where amounts are not negative.
pub proof fn lemma_map_sum_within<K: Key, T>(s: Map<K, T>, m: Map<K, T>, f: spec_fn(K, T) -> int)
    requires
        listable(s),
        listable(m),
        forall|k: K, v: T| #[trigger] f(k, v) >= 0,
        forall|k: K| #[trigger] s.contains_key(k) ==> (m.contains_key(k) && s[k] == m[k]) || f(k, s[k]) == 0,
    ensures
        map_sum(s, f) <= map_sum(m, f),
    decreases rows_of(s).len(),
{
    let rows = rows_of(s);
    if rows.len() == 0 {
        lemma_map_sum_not_negative(m, f);
    } else {
        let k = rows[0].0;
        lemma_row_is_mapped(rows, 0);
        lemma_map_sum_remove(s, k, f);
        assert(s.contains_key(k));
        if m.contains_key(k) && s[k] == m[k] {
            lemma_map_sum_remove(m, k, f);
            assert forall|q: K| #[trigger] s.remove(k).contains_key(q) implies (m.remove(k).contains_key(q)
                && s.remove(k)[q] == m.remove(k)[q]) || f(q, s.remove(k)[q]) == 0 by {
                assert(s.contains_key(q));
            }
            lemma_map_sum_within(s.remove(k), m.remove(k), f);
        } else {
            assert forall|q: K| #[trigger] s.remove(k).contains_key(q) implies (m.contains_key(q) && s.remove(k)[q]
                == m[q]) || f(q, s.remove(k)[q]) == 0 by {
                assert(s.contains_key(q));
            }
            lemma_map_sum_within(s.remove(k), m, f);
        }
    }
}

/// A sum of amounts that are not negative is not negative.
pub proof fn lemma_map_sum_not_negative<K: Key, T>(m: Map<K, T>, f: spec_fn(K, T) -> int)
    requires
        forall|k: K, v: T| #[trigger] f(k, v) >= 0,
    ensures
        map_sum(m, f) >= 0,
{
    lemma_total_not_negative(rows_of(m), |row: (K, T)| f(row.0, row.1));
}

/// The rows whose key `keep` accepts.
pub open spec fn kept_rows<K, T>(rows: Seq<(K, T)>, keep: spec_fn(K) -> bool) -> Seq<(K, T)> {
    pick(
        rows,
        |row: (K, T)|
            if keep(row.0) {
                Some(row)
            } else {
                None
            },
    )
}

/// The kept rows make the map restricted to the kept keys.
pub proof fn lemma_kept_rows<K: Key, T>(rows: Seq<(K, T)>, keep: spec_fn(K) -> bool)
    requires
        ascending(rows),
    ensures
        ascending(kept_rows(rows, keep)),
        as_map(kept_rows(rows, keep)) == as_map(rows).restrict(Set::new(keep)),
        forall|i: int| 0 <= i < kept_rows(rows, keep).len() ==> rows.contains(#[trigger] kept_rows(rows, keep)[i]),
    decreases rows.len(),
{
    let f = |row: (K, T)| if keep(row.0) { Some(row) } else { None };
    let kept = kept_rows(rows, keep);
    if rows.len() == 0 {
        assert(as_map(kept) =~= as_map(rows).restrict(Set::new(keep)));
    } else {
        let shorter = rows.drop_last();
        let last = rows.last();
        let n = rows.len() - 1;
        lemma_kept_rows(shorter, keep);
        let fewer = kept_rows(shorter, keep);
        assert forall|i: int| 0 <= i < shorter.len() implies (#[trigger] shorter[i]).0.rank() < last.0.rank() by {
            assert(rows[i].0.rank() < rows[n].0.rank());
        }
        lemma_insert_row(shorter, n, last.0, last.1);
        assert(shorter.insert(n, (last.0, last.1)) =~= rows);
        assert forall|i: int| 0 <= i < fewer.len() implies (#[trigger] fewer[i]).0.rank() < last.0.rank() && rows.contains(
            fewer[i],
        ) by {
            assert(shorter.contains(fewer[i]));
            let j = choose|j: int| 0 <= j < shorter.len() && shorter[j] == fewer[i];
            assert(rows[j] == fewer[i]);
        }
        assert(rows.contains(last)) by {
            assert(rows[n] == last);
        }
        if keep(last.0) {
            lemma_insert_row(fewer, fewer.len() as int, last.0, last.1);
            assert(fewer.insert(fewer.len() as int, (last.0, last.1)) =~= kept);
        }
        assert(as_map(kept) =~= as_map(rows).restrict(Set::new(keep)));
    }
}

/// Keys picked from ascending rows are in ascending order, and a key is among
/// them exactly if its own row was picked.
pub proof fn lemma_picked_keys<K: Key, T>(rows: Seq<(K, T)>, g: spec_fn((K, T)) -> Option<K>, k: K)
    requires
        ascending(rows),
        forall|i: int| 0 <= i < rows.len() && g(#[trigger] rows[i]) is Some ==> g(rows[i])->0 == rows[i].0,
    ensures
        pick(rows, g).contains(k) <==> as_map(rows).contains_key(k) && g((k, as_map(rows)[k])) is Some,
        forall|i: int, j: int|
            0 <= i < j < pick(rows, g).len() ==> (#[trigger] pick(rows, g)[i]).rank() < (#[trigger] pick(
                rows,
                g,
            )[j]).rank(),
    decreases rows.len(),
{
    let keys = pick(rows, g);
    if keys.contains(k) {
        let j = choose|j: int| 0 <= j < keys.len() && keys[j] == k;
        lemma_pick_source(rows, g, j);
        let i = choose|i: int| 0 <= i < rows.len() && g(#[trigger] rows[i]) == Some(keys[j]);
        lemma_row_is_mapped(rows, i);
        assert(rows[i] == (k, as_map(rows)[k]));
    }
    if as_map(rows).contains_key(k) && g((k, as_map(rows)[k])) is Some {
        let i = row_of(rows, k);
        assert(rows[i] == (k, as_map(rows)[k]));
        lemma_pick_found(rows, g, i);
    }
    if rows.len() > 0 {
        let shorter = rows.drop_last();
        let last = rows.len() - 1;
        assert forall|i: int| 0 <= i < shorter.len() && g(#[trigger] shorter[i]) is Some implies g(shorter[i])->0
            == shorter[i].0 by {
            assert(shorter[i] == rows[i]);
        }
        lemma_picked_keys(shorter, g, k);
        let fewer = pick(shorter, g);
        assert forall|i: int| 0 <= i < fewer.len() implies (#[trigger] fewer[i]).rank() < rows[last].0.rank() by {
            lemma_pick_source(shorter, g, i);
            let n = choose|n: int| 0 <= n < shorter.len() && g(#[trigger] shorter[n]) == Some(fewer[i]);
            assert(rows[n] == shorter[n]);
            assert(rows[n].0.rank() < rows[last].0.rank());
        }
        assert(rows.last() == rows[last]);
    }
}

/// How many of ascending rows meet `p` is how many keys do.
pub proof fn lemma_count_of_keys<K: Key, T>(rows: Seq<(K, T)>, p: spec_fn((K, T)) -> bool)
    requires
        ascending(rows),
    ensures
        Set::new(|k: K| as_map(rows).contains_key(k) && p((k, as_map(rows)[k]))).finite(),
        count(rows, p) == Set::new(|k: K| as_map(rows).contains_key(k) && p((k, as_map(rows)[k]))).len(),
    decreases rows.len(),
{
    let keys = Set::new(|k: K| as_map(rows).contains_key(k) && p((k, as_map(rows)[k])));
    if rows.len() == 0 {
        assert(keys =~= Set::empty());
    } else {
        let shorter = rows.drop_last();
        let last = rows.len() - 1;
        assert forall|i: int, j: int| 0 <= i < j < shorter.len() implies (#[trigger] shorter[i]).0.rank() < (
        #[trigger] shorter[j]).0.rank() by {
            assert(rows[i].0.rank() < rows[j].0.rank());
        }
        lemma_count_of_keys(shorter, p);
        let fewer = Set::new(|k: K| as_map(shorter).contains_key(k) && p((k, as_map(shorter)[k])));
        let k = rows[last].0;
        lemma_row_is_mapped(rows, last);
        if as_map(shorter).contains_key(k) {
            let i = row_of(shorter, k);
            assert(rows[i].0.rank() < rows[last].0.rank());
        }
        assert forall|q: K| q != k implies (as_map(rows).contains_key(q) <==> as_map(shorter).contains_key(q)) && (as_map(
            shorter,
        ).contains_key(q) ==> as_map(rows)[q] == as_map(shorter)[q]) by {
            if as_map(rows).contains_key(q) {
                let i = row_of(rows, q);
                lemma_row_is_mapped(rows, i);
                assert(shorter[i] == rows[i]);
                lemma_row_is_mapped(shorter, i);
            }
            if as_map(shorter).contains_key(q) {
                let i = row_of(shorter, q);
                assert(shorter[i] == rows[i]);
                lemma_row_is_mapped(rows, i);
            }
        }
        if p(rows[last]) {
            assert(keys =~= fewer.insert(k));
        } else {
            assert(keys =~= fewer);
        }
    }
}

/// `rows` with every value changed by `f`.
pub open spec fn changed_rows<K, T>(rows: Seq<(K, T)>, f: spec_fn(T) -> T) -> Seq<(K, T)> {
    rows.map_values(|row: (K, T)| (row.0, f(row.1)))
}

/// Changing every value of ascending rows changes every value of their map.
pub proof fn lemma_changed_rows<K: Key, T>(rows: Seq<(K, T)>, f: spec_fn(T) -> T)
    requires
        ascending(rows),
    ensures
        ascending(changed_rows(rows, f)),
        as_map(changed_rows(rows, f)) == as_map(rows).map_values(f),
{
    let changed = changed_rows(rows, f);
    assert forall|a: int, b: int| 0 <= a < b < changed.len() implies (#[trigger] changed[a]).0.rank()
        < (#[trigger] changed[b]).0.rank() by {
        assert(rows[a].0.rank() < rows[b].0.rank());
    }
    assert forall|q: K| has_row(changed, q) == has_row(rows, q) by {
        if has_row(changed, q) {
            assert(rows[row_of(changed, q)].0 == q);
        }
        if has_row(rows, q) {
            assert(changed[row_of(rows, q)].0 == q);
        }
    }
    assert forall|q: K| has_row(rows, q) implies as_map(changed)[q] == f(as_map(rows)[q]) by {
        let j = row_of(rows, q);
        lemma_row_is_mapped(rows, j);
        assert(changed[j].0 == q);
        lemma_row_is_mapped(changed, j);
    }
    assert(as_map(changed) =~= as_map(rows).map_values(f));
}

/// A map from `K` to `V` whose rows are held in ascending key order.
#[derive(Clone, Debug)]
pub struct Table<K, V> {
    rows: Vec<(K, V)>,
}

impl<K: Key, V: View> View for Table<K, V> {
    type V = Map<K, V::V>;

    open spec fn view(&self) -> Map<K, V::V> {
        as_map(self.rows())
    }
}

impl<K: Key, V: View> Table<K, V> {
    /// The rows, each value by its view.
    pub closed spec fn rows(&self) -> Seq<(K, V::V)> {
        self.rows@.map_values(|row: (K, V)| (row.0, row.1@))
    }

    /// The rows are in ascending order of their keys.
    pub open spec fn wf(&self) -> bool {
        ascending(self.rows())
    }

    /// The rows are the map's entries in ascending key order.
    pub proof fn lemma_rows(&self)
        requires
            self.wf(),
        ensures
            self.rows() == rows_of(self@),
            listable(self@),
    {
        lemma_rows_of(self.rows());
    }

    /// A table without rows.
    pub fn new() -> (t: Self)
        ensures
            t.wf(),
            t.rows() == Seq::<(K, V::V)>::empty(),
            t@ == Map::<K, V::V>::empty(),
    {
        let t = Table { rows: Vec::new() };
        assert(t.rows() =~= Seq::<(K, V::V)>::empty());
        assert(t@ =~= Map::<K, V::V>::empty());
        t
    }

    /// How many rows there are.
    pub fn len(&self) -> (n: usize)
        ensures
            n == self.rows().len(),
    {
        self.rows.len()
    }

    /// The key of the `i`-th row.
    pub fn key_at(&self, i: usize) -> (k: K)
        requires
            i < self.rows().len(),
        ensures
            k == self.rows()[i as int].0,
    {
        self.rows[i].0
    }

    /// The value of the `i`-th row.
    pub fn value_at(&self, i: usize) -> (v: &V)
        requires
            i < self.rows().len(),
        ensures
            v@ == self.rows()[i as int].1,
    {
        &self.rows[i].1
    }

    /// The value of the `i`-th row, to change in place.
    pub fn value_at_mut(&mut self, i: usize) -> (v: &mut V)
        requires
            old(self).wf(),
            i < old(self).rows().len(),
        ensures
            v@ == old(self).rows()[i as int].1,
            final(self).wf(),
            final(self).rows() == old(self).rows().update(i as int, (old(self).rows()[i as int].0, final(v)@)),
            final(self)@ == old(self)@.insert(old(self).rows()[i as int].0, final(v)@),
    {
        let ghost before = self.rows();
        proof {
            assert forall|p: (K, V)| true implies (#[trigger] self.rows@.update(i as int, p)).map_values(
                |row: (K, V)| (row.0, row.1@),
            ) == before.update(i as int, (p.0, p.1@)) by {
                assert(self.rows@.update(i as int, p).map_values(|row: (K, V)| (row.0, row.1@))
                    =~= before.update(i as int, (p.0, p.1@)));
            }
            assert forall|t: V::V| true implies ascending(#[trigger] before.update(i as int, (before[i as int].0, t)))
                && as_map(before.update(i as int, (before[i as int].0, t))) == as_map(before).insert(
                before[i as int].0,
                t,
            ) by {
                lemma_update_row(before, i as int, t);
            }
        }
        &mut self.rows[i].1
    }

    /// The number of rows whose key comes before `k`.
    fn position(&self, k: &K) -> (at: usize)
        requires
            self.wf(),
        ensures
            at <= self.rows().len(),
            forall|i: int| 0 <= i < at ==> (#[trigger] self.rows()[i]).0.rank() < k.rank(),
            forall|i: int| at <= i < self.rows().len() ==> (#[trigger] self.rows()[i]).0.rank() >= k.rank(),
    {
        let mut low: usize = 0;
        let mut high: usize = self.rows.len();
        while low < high
            invariant
                low <= high <= self.rows.len(),
                self.wf(),
                forall|i: int| 0 <= i < low ==> (#[trigger] self.rows()[i]).0.rank() < k.rank(),
                forall|i: int| high <= i < self.rows().len() ==> (#[trigger] self.rows()[i]).0.rank() >= k.rank(),
            decreases high - low,
        {
            let mid: usize = low + (high - low) / 2;
            assert(self.rows()[mid as int].0 == self.rows@[mid as int].0);
            if self.rows[mid].0.precedes(k) {
                low = mid + 1;
            } else {
                high = mid;
            }
        }
        low
    }

    /// The index of the row filed under `k`, if there is one.
    pub fn find(&self, k: &K) -> (at: Option<usize>)
        requires
            self.wf(),
        ensures
            match at {
                Some(i) => i < self.rows().len() && self.rows()[i as int].0 == *k && self@.contains_key(*k)
                    && self@[*k] == self.rows()[i as int].1,
                None => !self@.contains_key(*k),
            },
    {
        let at = self.position(k);
        if at < self.rows.len() && !k.precedes(&self.rows[at].0) {
            proof {
                assert(self.rows()[at as int].0 == self.rows@[at as int].0);
                K::rank_is_injective(self.rows()[at as int].0, *k);
                lemma_row_is_mapped(self.rows(), at as int);
            }
            Some(at)
        } else {
            proof {
                assert forall|i: int| 0 <= i < self.rows().len() implies (#[trigger] self.rows()[i]).0 != *k by {
                    if i >= at {
                        assert(self.rows()[at as int].0 == self.rows@[at as int].0);
                        if i > at {
                            assert(self.rows()[at as int].0.rank() < self.rows()[i].0.rank());
                        }
                    }
                }
            }
            None
        }
    }

    /// Whether there is a row for `k`.
    pub fn contains_key(&self, k: &K) -> (r: bool)
        requires
            self.wf(),
        ensures
            r == self@.contains_key(*k),
    {
        self.find(k).is_some()
    }

    /// The value in the row for `k`.
    pub fn get(&self, k: &K) -> (found: Option<&V>)
        requires
            self.wf(),
        ensures
            match found {
                Some(v) => self@.contains_key(*k) && self@[*k] == v@,
                None => !self@.contains_key(*k),
            },
    {
        match self.find(k) {
            Some(i) => Some(&self.rows[i].1),
            None => None,
        }
    }

    /// The value in the row for `k`, to be changed.
    pub fn get_mut(&mut self, k: &K) -> (found: Option<&mut V>)
        requires
            old(self).wf(),
        ensures
            match found {
                Some(v) => old(self)@.contains_key(*k) && old(self)@[*k] == v@
                    && final(self)@ == old(self)@.insert(*k, final(v)@) && final(self).wf(),
                None => !old(self)@.contains_key(*k) && *final(self) == *old(self),
            },
    {
        match self.find(k) {
            Some(i) => Some(self.value_at_mut(i)),
            None => None,
        }
    }

    /// Files `v` under `k`, and hands back what stood there.
    pub fn insert(&mut self, k: K, v: V) -> (previous: Option<V>)
        requires
            old(self).wf(),
        ensures
            final(self).wf(),
            final(self)@ == old(self)@.insert(k, v@),
            match previous {
                Some(p) => old(self)@.contains_key(k) && old(self)@[k] == p@,
                None => !old(self)@.contains_key(k),
            },
    {
        let ghost before = self.rows();
        let at = self.position(&k);
        if at < self.rows.len() && !k.precedes(&self.rows[at].0) {
            proof {
                assert(before[at as int].0 == self.rows@[at as int].0);
                K::rank_is_injective(before[at as int].0, k);
                lemma_row_is_mapped(before, at as int);
                lemma_update_row(before, at as int, v@);
            }
            let mut taken = (k, v);
            let row = &mut self.rows[at];
            std::mem::swap(row, &mut taken);
            assert(self.rows() =~= before.update(at as int, (k, v@)));
            Some(taken.1)
        } else {
            proof {
                if at < before.len() {
                    assert(before[at as int].0 == self.rows@[at as int].0);
                    assert forall|i: int| at <= i < before.len() implies (#[trigger] before[i]).0.rank()
                        > k.rank() by {
                        if i > at {
                            assert(before[at as int].0.rank() < before[i].0.rank());
                        }
                    }
                }
                lemma_insert_row(before, at as int, k, v@);
            }
            self.rows.insert(at, (k, v));
            assert(self.rows() =~= before.insert(at as int, (k, v@)));
            None
        }
    }

    /// Takes out the `i`-th row's value.
    pub fn remove_at(&mut self, i: usize) -> (v: V)
        requires
            old(self).wf(),
            i < old(self).rows().len(),
        ensures
            v@ == old(self).rows()[i as int].1,
            final(self).wf(),
            final(self).rows() == old(self).rows().remove(i as int),
            final(self)@ == old(self)@.remove(old(self).rows()[i as int].0),
    {
        let ghost before = self.rows();
        proof {
            lemma_remove_row(before, i as int);
        }
        let row = self.rows.remove(i);
        assert(self.rows() =~= before.remove(i as int));
        row.1
    }

    /// Takes out what is filed under `k`.
    pub fn remove(&mut self, k: &K) -> (taken: Option<V>)
        requires
            old(self).wf(),
        ensures
            final(self).wf(),
            final(self)@ == old(self)@.remove(*k),
            match taken {
                Some(p) => old(self)@.contains_key(*k) && old(self)@[*k] == p@,
                None => !old(self)@.contains_key(*k),
            },
    {
        let ghost before = self.rows();
        match self.find(k) {
            Some(i) => {
                proof {
                    lemma_remove_row(before, i as int);
                }
                let row = self.rows.remove(i);
                assert(self.rows() =~= before.remove(i as int));
                Some(row.1)
            },
            None => {
                assert(before =~= self.rows());
                assert(self@ =~= old(self)@.remove(*k));
                None
            },
        }
    }
}

impl<K: Key, V: View> Table<K, V> {
    /// The values that `keep` accepts, in ascending key order. `keep` decides
    /// `p` of what it is shown.
    pub fn values_where<F: Fn(&V) -> bool>(&self, keep: F, Ghost(p): Ghost<spec_fn(V::V) -> bool>) -> (kept: Vec<&V>)
        requires
            self.wf(),
            forall|v: &V| keep.requires((v,)),
            forall|v: &V, r: bool| keep.ensures((v,), r) ==> r == p(v@),
        ensures
            views(kept@) == values_that(rows_of(self@), p),
    {
        let ghost rows = self.rows();
        let ghost f = |row: (K, V::V)| if p(row.1) { Some(row.1) } else { None };
        proof {
            self.lemma_rows();
        }
        let mut kept: Vec<&V> = Vec::new();
        let mut i: usize = 0;
        assert(views(kept@) =~= pick(rows.take(0), f));
        while i < self.rows.len()
            invariant
                i <= self.rows.len(),
                rows == self.rows(),
                f == (|row: (K, V::V)| if p(row.1) { Some(row.1) } else { None }),
                forall|v: &V| keep.requires((v,)),
                forall|v: &V, r: bool| keep.ensures((v,), r) ==> r == p(v@),
                views(kept@) == pick(rows.take(i as int), f),
            decreases self.rows.len() - i,
        {
            proof {
                lemma_pick_step(rows, f, i as int);
            }
            let v: &V = &self.rows[i].1;
            let ghost before = kept@;
            if keep(v) {
                kept.push(v);
                assert(views(kept@) =~= views(before).push(v@));
            }
            i += 1;
        }
        assert(rows.take(i as int) =~= rows);
        kept
    }
}

impl<K: Key, V: Duplicate> Duplicate for Table<K, V> {
    fn duplicate(&self) -> (copy: Self)
        ensures
            copy.rows() == self.rows(),
    {
        let mut rows: Vec<(K, V)> = Vec::new();
        let mut i: usize = 0;
        while i < self.rows.len()
            invariant
                i <= self.rows.len(),
                rows.len() == i,
                forall|j: int| 0 <= j < i ==> (#[trigger] rows@[j]).0 == self.rows@[j].0 && rows@[j].1@ == self.rows@[j].1@,
            decreases self.rows.len() - i,
        {
            rows.push((self.rows[i].0, self.rows[i].1.duplicate()));
            i += 1;
        }
        let copy = Table { rows };
        assert(copy.rows() =~= self.rows());
        copy
    }
}

}
