//! Selections and sums over sequences.
use vstd::prelude::*;

verus! {

/// What `f` picks out of `s`, in order.
pub open spec fn pick<A, B>(s: Seq<A>, f: spec_fn(A) -> Option<B>) -> Seq<B>
    decreases s.len(),
{
    if s.len() == 0 {
        Seq::empty()
    } else {
        match f(s.last()) {
            Some(b) => pick(s.drop_last(), f).push(b),
            None => pick(s.drop_last(), f),
        }
    }
}

/// The sum of `f` over `s`.
pub open spec fn total<A>(s: Seq<A>, f: spec_fn(A) -> int) -> int
    decreases s.len(),
{
    if s.len() == 0 {
        0
    } else {
        total(s.drop_last(), f) + f(s.last())
    }
}

/// How many elements of `s` meet `f`.
pub open spec fn count<A>(s: Seq<A>, f: spec_fn(A) -> bool) -> int {
    total(s, |a: A| if f(a) { 1int } else { 0 })
}

/// What borrowed values show, in order.
pub open spec fn views<T: View>(s: Seq<&T>) -> Seq<T::V> {
    s.map_values(|t: &T| t@)
}

/// The values of the rows that meet `p`, in order.
pub open spec fn values_that<K, T>(rows: Seq<(K, T)>, p: spec_fn(T) -> bool) -> Seq<T> {
    pick(
        rows,
        |row: (K, T)|
            if p(row.1) {
                Some(row.1)
            } else {
                None
            },
    )
}

/// One item more picks one item more, or none.
pub proof fn lemma_pick_step<A, B>(s: Seq<A>, f: spec_fn(A) -> Option<B>, i: int)
    requires
        0 <= i < s.len(),
    ensures
        pick(s.take(i + 1), f) == (match f(s[i]) {
            Some(b) => pick(s.take(i), f).push(b),
            None => pick(s.take(i), f),
        }),
{
    assert(s.take(i + 1).drop_last() =~= s.take(i));
}

/// One item more adds what it counts for.
pub proof fn lemma_total_step<A>(s: Seq<A>, f: spec_fn(A) -> int, i: int)
    requires
        0 <= i < s.len(),
    ensures
        total(s.take(i + 1), f) == total(s.take(i), f) + f(s[i]),
{
    assert(s.take(i + 1).drop_last() =~= s.take(i));
}

/// A sum of amounts that are not negative is at least any sum over a prefix.
pub proof fn lemma_total_prefix<A>(s: Seq<A>, f: spec_fn(A) -> int, i: int)
    requires
        0 <= i <= s.len(),
        forall|a: A| #[trigger] f(a) >= 0,
    ensures
        0 <= total(s.take(i), f) <= total(s, f),
    decreases s.len() - i,
{
    if i == s.len() {
        assert(s.take(i) =~= s);
        lemma_total_not_negative(s, f);
    } else {
        lemma_total_step(s, f, i);
        lemma_total_prefix(s, f, i + 1);
        lemma_total_not_negative(s.take(i), f);
    }
}

/// A sum of what is not negative is not negative.
pub proof fn lemma_total_not_negative<A>(s: Seq<A>, f: spec_fn(A) -> int)
    requires
        forall|a: A| #[trigger] f(a) >= 0,
    ensures
        total(s, f) >= 0,
    decreases s.len(),
{
    if s.len() > 0 {
        lemma_total_not_negative(s.drop_last(), f);
    }
}

/// The places in `s` of what meets `f`.
pub open spec fn places_of<A>(s: Seq<A>, f: spec_fn(A) -> bool) -> Set<int> {
    Set::new(|i: int| 0 <= i < s.len() && f(s[i]))
}

/// A count is the number of places.
pub proof fn lemma_count_of_places<A>(s: Seq<A>, f: spec_fn(A) -> bool)
    ensures
        places_of(s, f).finite(),
        count(s, f) == places_of(s, f).len(),
    decreases s.len(),
{
    if s.len() == 0 {
        assert(places_of(s, f) =~= Set::empty());
    } else {
        let shorter = s.drop_last();
        let last = s.len() - 1;
        lemma_count_of_places(shorter, f);
        if f(s[last]) {
            assert(places_of(s, f) =~= places_of(shorter, f).insert(last));
        } else {
            assert(places_of(s, f) =~= places_of(shorter, f));
        }
    }
}

/// A count is between nothing and the length.
pub proof fn lemma_count_bounds<A>(s: Seq<A>, f: spec_fn(A) -> bool)
    ensures
        0 <= count(s, f) <= s.len(),
    decreases s.len(),
{
    if s.len() > 0 {
        lemma_count_bounds(s.drop_last(), f);
    }
}

/// A selection is no longer than what it is made from.
pub proof fn lemma_pick_len<A, B>(s: Seq<A>, f: spec_fn(A) -> Option<B>)
    ensures
        pick(s, f).len() <= s.len(),
    decreases s.len(),
{
    if s.len() > 0 {
        lemma_pick_len(s.drop_last(), f);
    }
}

/// Everything picked comes from some element.
pub proof fn lemma_pick_source<A, B>(s: Seq<A>, f: spec_fn(A) -> Option<B>, j: int)
    requires
        0 <= j < pick(s, f).len(),
    ensures
        exists|i: int| 0 <= i < s.len() && f(#[trigger] s[i]) == Some(pick(s, f)[j]),
    decreases s.len(),
{
    let shorter = s.drop_last();
    let n = s.len() - 1;
    match f(s.last()) {
        Some(b) => {
            if j == pick(s, f).len() - 1 {
                assert(f(s[n]) == Some(pick(s, f)[j]));
            } else {
                lemma_pick_source(shorter, f, j);
                let i = choose|i: int| 0 <= i < shorter.len() && f(#[trigger] shorter[i]) == Some(pick(shorter, f)[j]);
                assert(f(s[i]) == Some(pick(s, f)[j]));
            }
        },
        None => {
            lemma_pick_source(shorter, f, j);
            let i = choose|i: int| 0 <= i < shorter.len() && f(#[trigger] shorter[i]) == Some(pick(shorter, f)[j]);
            assert(f(s[i]) == Some(pick(s, f)[j]));
        },
    }
}

/// Every element that is picked is found in the selection.
pub proof fn lemma_pick_found<A, B>(s: Seq<A>, f: spec_fn(A) -> Option<B>, i: int)
    requires
        0 <= i < s.len(),
        f(s[i]) is Some,
    ensures
        pick(s, f).contains(f(s[i])->0),
    decreases s.len(),
{
    let shorter = s.drop_last();
    if i == s.len() - 1 {
        assert(pick(s, f)[pick(shorter, f).len() as int] == f(s[i])->0);
    } else {
        lemma_pick_found(shorter, f, i);
        let j = choose|j: int| 0 <= j < pick(shorter, f).len() && pick(shorter, f)[j] == f(shorter[i])->0;
        assert(pick(s, f)[j] == f(s[i])->0);
    }
}

/// Replacing one element changes a sum by the difference.
pub proof fn lemma_total_update<A>(s: Seq<A>, f: spec_fn(A) -> int, i: int, x: A)
    requires
        0 <= i < s.len(),
    ensures
        total(s.update(i, x), f) == total(s, f) - f(s[i]) + f(x),
    decreases s.len(),
{
    let changed = s.update(i, x);
    if i == s.len() - 1 {
        assert(changed.drop_last() =~= s.drop_last());
    } else {
        lemma_total_update(s.drop_last(), f, i, x);
        assert(changed.drop_last() =~= s.drop_last().update(i, x));
    }
}

/// Putting one element in adds its amount to a sum.
pub proof fn lemma_total_insert<A>(s: Seq<A>, f: spec_fn(A) -> int, at: int, x: A)
    requires
        0 <= at <= s.len(),
    ensures
        total(s.insert(at, x), f) == total(s, f) + f(x),
    decreases s.len(),
{
    let grown = s.insert(at, x);
    if at == s.len() {
        assert(grown.drop_last() =~= s);
    } else {
        lemma_total_insert(s.drop_last(), f, at, x);
        assert(grown.drop_last() =~= s.drop_last().insert(at, x));
        assert(grown.last() == s.last());
    }
}

/// One amount, and two amounts of different elements, are at most a sum of
/// amounts that are not negative.
pub proof fn lemma_total_parts<A>(s: Seq<A>, f: spec_fn(A) -> int, i: int, j: int)
    requires
        0 <= i < s.len(),
        0 <= j < s.len(),
        forall|a: A| #[trigger] f(a) >= 0,
    ensures
        f(s[i]) <= total(s, f),
        i != j ==> f(s[i]) + f(s[j]) <= total(s, f),
    decreases s.len(),
{
    let n = s.len() - 1;
    let shorter = s.drop_last();
    lemma_total_not_negative(shorter, f);
    if i < n && j < n {
        lemma_total_parts(shorter, f, i, j);
    } else if i < n {
        lemma_total_parts(shorter, f, i, i);
    } else if j < n {
        lemma_total_parts(shorter, f, j, j);
    }
}

/// Amounts that agree on every element have one sum.
pub proof fn lemma_total_agrees<A>(s: Seq<A>, f: spec_fn(A) -> int, g: spec_fn(A) -> int)
    requires
        forall|i: int| 0 <= i < s.len() ==> f(#[trigger] s[i]) == g(s[i]),
    ensures
        total(s, f) == total(s, g),
    decreases s.len(),
{
    if s.len() > 0 {
        let shorter = s.drop_last();
        assert forall|i: int| 0 <= i < shorter.len() implies f(#[trigger] shorter[i]) == g(shorter[i]) by {
            assert(shorter[i] == s[i]);
        }
        lemma_total_agrees(shorter, f, g);
        assert(s[s.len() - 1] == s.last());
    }
}

/// A count over one element more.
pub proof fn lemma_count_step<A>(s: Seq<A>, p: spec_fn(A) -> bool, i: int)
    requires
        0 <= i < s.len(),
    ensures
        count(s.take(i + 1), p) == count(s.take(i), p) + (if p(s[i]) {
            1int
        } else {
            0
        }),
        0 <= count(s.take(i), p) <= i,
{
    let f = |a: A|
        if p(a) {
            1int
        } else {
            0
        };
    lemma_total_step(s, f, i);
    lemma_count_bounds(s.take(i), p);
}

/// Amounts that are never more have a sum that is not more.
pub proof fn lemma_total_at_most<A>(s: Seq<A>, f: spec_fn(A) -> int, g: spec_fn(A) -> int)
    requires
        forall|a: A| #[trigger] f(a) <= g(a),
    ensures
        total(s, f) <= total(s, g),
    decreases s.len(),
{
    if s.len() > 0 {
        lemma_total_at_most(s.drop_last(), f, g);
        assert(f(s.last()) <= g(s.last()));
    }
}

/// The sum of a function that is the sum of two others.
pub proof fn lemma_total_of_two<A>(s: Seq<A>, h: spec_fn(A) -> int, f: spec_fn(A) -> int, g: spec_fn(A) -> int)
    requires
        forall|a: A| #[trigger] h(a) == f(a) + g(a),
    ensures
        total(s, h) == total(s, f) + total(s, g),
    decreases s.len(),
{
    if s.len() > 0 {
        lemma_total_of_two(s.drop_last(), h, f, g);
    }
}

}
