//! Maps and sets keyed by text, held in the order of their keys.
use crate::table::{as_map, has_row, row_of, Duplicate};
use crate::text::chars_of;
use vstd::prelude::*;
use vstd::string::*;

verus! {

/// Whether `a` comes before `b`: the first character in which they differ
/// decides, and a beginning comes before what it begins.
pub open spec fn text_lt(a: Seq<char>, b: Seq<char>) -> bool
    decreases a.len(),
{
    if b.len() == 0 {
        false
    } else if a.len() == 0 {
        true
    } else if a[0] != b[0] {
        (a[0] as int) < (b[0] as int)
    } else {
        text_lt(a.drop_first(), b.drop_first())
    }
}

/// Whether `a` comes before `b`.
pub(crate) fn text_precedes(a: &str, b: &str) -> (r: bool)
    ensures
        r == text_lt(a@, b@),
{
    let first = chars_of(a);
    let second = chars_of(b);
    let mut i: usize = 0;
    assert(a@.skip(0) =~= a@);
    assert(b@.skip(0) =~= b@);
    while i < first.len() && i < second.len()
        invariant
            i <= first.len(),
            i <= second.len(),
            first@ == a@,
            second@ == b@,
            text_lt(a@, b@) == text_lt(a@.skip(i as int), b@.skip(i as int)),
        decreases first.len() - i,
    {
        if first[i] != second[i] {
            return first[i] < second[i];
        }
        assert(a@.skip(i as int).drop_first() =~= a@.skip(i + 1));
        assert(b@.skip(i as int).drop_first() =~= b@.skip(i + 1));
        i += 1;
    }
    i < second.len()
}

/// No text comes before itself.
pub proof fn lemma_text_lt_irreflexive(a: Seq<char>)
    ensures
        !text_lt(a, a),
    decreases a.len(),
{
    if a.len() > 0 {
        lemma_text_lt_irreflexive(a.drop_first());
    }
}

/// The order of texts is transitive.
pub proof fn lemma_text_lt_transitive(a: Seq<char>, b: Seq<char>, c: Seq<char>)
    requires
        text_lt(a, b),
        text_lt(b, c),
    ensures
        text_lt(a, c),
    decreases a.len(),
{
    if a.len() > 0 && b.len() > 0 && c.len() > 0 && a[0] == b[0] && b[0] == c[0] {
        lemma_text_lt_transitive(a.drop_first(), b.drop_first(), c.drop_first());
    }
}

/// Of two texts that differ, one comes before the other.
pub proof fn lemma_text_lt_total(a: Seq<char>, b: Seq<char>)
    ensures
        text_lt(a, b) || a == b || text_lt(b, a),
    decreases a.len(),
{
    if a.len() == 0 || b.len() == 0 {
        if a.len() == b.len() {
            assert(a =~= b);
        }
    } else if a[0] == b[0] {
        lemma_text_lt_total(a.drop_first(), b.drop_first());
        if a.drop_first() == b.drop_first() {
            assert(a =~= seq![a[0]] + a.drop_first());
            assert(b =~= seq![b[0]] + b.drop_first());
        }
    }
}

/// Rows in strictly ascending order of name.
pub open spec fn text_ascending<T>(rows: Seq<(Seq<char>, T)>) -> bool {
    forall|i: int, j: int|
        0 <= i < j < rows.len() ==> text_lt((#[trigger] rows[i]).0, (#[trigger] rows[j]).0)
}

/// In rows in order of name, each name maps to its own row.
pub proof fn lemma_named_row_is_mapped<T>(rows: Seq<(Seq<char>, T)>, i: int)
    requires
        text_ascending(rows),
        0 <= i < rows.len(),
    ensures
        row_of(rows, rows[i].0) == i,
        as_map(rows).contains_key(rows[i].0),
        as_map(rows)[rows[i].0] == rows[i].1,
{
    let k = rows[i].0;
    assert(has_row(rows, k));
    let j = row_of(rows, k);
    lemma_text_lt_irreflexive(k);
    if i < j {
        assert(text_lt(rows[i].0, rows[j].0));
    } else if j < i {
        assert(text_lt(rows[j].0, rows[i].0));
    }
}

proof fn lemma_update_named<T>(rows: Seq<(Seq<char>, T)>, i: int, t: T)
    requires
        text_ascending(rows),
        0 <= i < rows.len(),
    ensures
        text_ascending(rows.update(i, (rows[i].0, t))),
        as_map(rows.update(i, (rows[i].0, t))) == as_map(rows).insert(rows[i].0, t),
{
    let k = rows[i].0;
    let changed = rows.update(i, (k, t));
    assert forall|a: int, b: int| 0 <= a < b < changed.len() implies text_lt(
        (#[trigger] changed[a]).0,
        (#[trigger] changed[b]).0,
    ) by {
        assert(text_lt(rows[a].0, rows[b].0));
    }
    assert forall|q: Seq<char>| has_row(changed, q) == (has_row(rows, q) || q == k) by {
        if has_row(changed, q) {
            let j = row_of(changed, q);
            assert(rows[j].0 == q);
        }
        if has_row(rows, q) {
            let j = row_of(rows, q);
            assert(changed[j].0 == q);
        }
        assert(changed[i].0 == k);
    }
    assert forall|q: Seq<char>| has_row(changed, q) implies as_map(changed)[q] == as_map(rows).insert(k, t)[q] by {
        let j = row_of(changed, q);
        lemma_named_row_is_mapped(changed, j);
        lemma_named_row_is_mapped(rows, j);
        assert(rows[j].0 == q);
        lemma_named_row_is_mapped(rows, i);
    }
    assert(as_map(changed) =~= as_map(rows).insert(k, t));
}

proof fn lemma_insert_named<T>(rows: Seq<(Seq<char>, T)>, at: int, k: Seq<char>, t: T)
    requires
        text_ascending(rows),
        0 <= at <= rows.len(),
        forall|i: int| 0 <= i < at ==> text_lt((#[trigger] rows[i]).0, k),
        forall|i: int| at <= i < rows.len() ==> text_lt(k, (#[trigger] rows[i]).0),
    ensures
        text_ascending(rows.insert(at, (k, t))),
        !as_map(rows).contains_key(k),
        as_map(rows.insert(at, (k, t))) == as_map(rows).insert(k, t),
{
    let grown = rows.insert(at, (k, t));
    lemma_text_lt_irreflexive(k);
    assert forall|a: int, b: int| 0 <= a < b < grown.len() implies text_lt(
        (#[trigger] grown[a]).0,
        (#[trigger] grown[b]).0,
    ) by {
        let x = if a < at { a } else { a - 1 };
        let y = if b < at { b } else { b - 1 };
        if a != at && b != at {
            assert(grown[a] == rows[x]);
            assert(grown[b] == rows[y]);
        } else if a == at {
            assert(grown[b] == rows[y]);
        } else {
            assert(grown[a] == rows[x]);
        }
    }
    assert forall|q: Seq<char>| has_row(grown, q) == (has_row(rows, q) || q == k) by {
        if has_row(grown, q) {
            let j = row_of(grown, q);
            if j < at {
                assert(rows[j].0 == q);
            } else if j > at {
                assert(rows[j - 1].0 == q);
            }
        }
        if has_row(rows, q) {
            let j = row_of(rows, q);
            let y = if j < at { j } else { j + 1 };
            assert(grown[y].0 == q);
        }
        assert(grown[at].0 == k);
    }
    assert forall|q: Seq<char>| has_row(grown, q) implies as_map(grown)[q] == as_map(rows).insert(k, t)[q] by {
        let j = row_of(grown, q);
        lemma_named_row_is_mapped(grown, j);
        if j < at {
            lemma_named_row_is_mapped(rows, j);
        } else if j > at {
            lemma_named_row_is_mapped(rows, j - 1);
        }
    }
    assert(as_map(grown) =~= as_map(rows).insert(k, t));
}

/// A map from text to `V` whose rows are held in ascending order of name.
#[derive(Clone, Debug)]
pub struct TextTable<V> {
    rows: Vec<(String, V)>,
}

impl<V: View> View for TextTable<V> {
    type V = Map<Seq<char>, V::V>;

    open spec fn view(&self) -> Map<Seq<char>, V::V> {
        as_map(self.rows())
    }
}

impl<V: View> TextTable<V> {
    /// The rows, each name and value by its view.
    pub closed spec fn rows(&self) -> Seq<(Seq<char>, V::V)> {
        self.rows@.map_values(|row: (String, V)| (row.0@, row.1@))
    }

    /// The rows are in ascending order of their names.
    pub open spec fn wf(&self) -> bool {
        text_ascending(self.rows())
    }

    /// A table without rows.
    pub fn new() -> (t: Self)
        ensures
            t.wf(),
            t.rows() == Seq::<(Seq<char>, V::V)>::empty(),
            t@ == Map::<Seq<char>, V::V>::empty(),
    {
        let t = TextTable { rows: Vec::new() };
        assert(t.rows() =~= Seq::<(Seq<char>, V::V)>::empty());
        assert(t@ =~= Map::<Seq<char>, V::V>::empty());
        t
    }

    /// How many rows there are.
    pub fn len(&self) -> (n: usize)
        ensures
            n == self.rows().len(),
    {
        self.rows.len()
    }

    /// The name of the `i`-th row.
    pub fn name_at(&self, i: usize) -> (name: &str)
        requires
            i < self.rows().len(),
        ensures
            name@ == self.rows()[i as int].0,
    {
        self.rows[i].0.as_str()
    }

    /// The value of the `i`-th row.
    pub fn value_at(&self, i: usize) -> (v: &V)
        requires
            i < self.rows().len(),
        ensures
            v@ == self.rows()[i as int].1,
    {
        &self.rows[i].1
    }

    /// The value of the `i`-th row, to change in place.
    pub fn value_at_mut(&mut self, i: usize) -> (v: &mut V)
        requires
            old(self).wf(),
            i < old(self).rows().len(),
        ensures
            v@ == old(self).rows()[i as int].1,
            final(self).wf(),
            final(self).rows() == old(self).rows().update(i as int, (old(self).rows()[i as int].0, final(v)@)),
            final(self)@ == old(self)@.insert(old(self).rows()[i as int].0, final(v)@),
    {
        let ghost before = self.rows();
        proof {
            assert forall|p: (String, V)| true implies (#[trigger] self.rows@.update(i as int, p)).map_values(
                |row: (String, V)| (row.0@, row.1@),
            ) == before.update(i as int, (p.0@, p.1@)) by {
                assert(self.rows@.update(i as int, p).map_values(|row: (String, V)| (row.0@, row.1@))
                    =~= before.update(i as int, (p.0@, p.1@)));
            }
            assert forall|t: V::V| true implies text_ascending(
                #[trigger] before.update(i as int, (before[i as int].0, t)),
            ) && as_map(before.update(i as int, (before[i as int].0, t))) == as_map(before).insert(
                before[i as int].0,
                t,
            ) by {
                lemma_update_named(before, i as int, t);
            }
        }
        &mut self.rows[i].1
    }

    /// The number of rows whose name comes before `name`.
    fn position(&self, name: &str) -> (at: usize)
        requires
            self.wf(),
        ensures
            at <= self.rows().len(),
            forall|i: int| 0 <= i < at ==> text_lt((#[trigger] self.rows()[i]).0, name@),
            at < self.rows().len() ==> !text_lt(self.rows()[at as int].0, name@),
    {
        let mut at: usize = 0;
        while at < self.rows.len() && text_precedes(self.rows[at].0.as_str(), name)
            invariant
                at <= self.rows.len(),
                forall|i: int| 0 <= i < at ==> text_lt((#[trigger] self.rows()[i]).0, name@),
            decreases self.rows.len() - at,
        {
            assert(self.rows()[at as int].0 == self.rows@[at as int].0@);
            at += 1;
        }
        if at < self.rows.len() {
            assert(self.rows()[at as int].0 == self.rows@[at as int].0@);
        }
        at
    }

    /// The index of the row of that name, if there is one.
    pub fn find(&self, name: &str) -> (at: Option<usize>)
        requires
            self.wf(),
        ensures
            match at {
                Some(i) => i < self.rows().len() && self.rows()[i as int].0 == name@ && self@.contains_key(name@)
                    && self@[name@] == self.rows()[i as int].1,
                None => !self@.contains_key(name@),
            },
    {
        let at = self.position(name);
        if at < self.rows.len() && !text_precedes(name, self.rows[at].0.as_str()) {
            proof {
                assert(self.rows()[at as int].0 == self.rows@[at as int].0@);
                lemma_text_lt_total(self.rows()[at as int].0, name@);
                lemma_named_row_is_mapped(self.rows(), at as int);
            }
            Some(at)
        } else {
            proof {
                lemma_text_lt_irreflexive(name@);
                assert forall|i: int| 0 <= i < self.rows().len() implies (#[trigger] self.rows()[i]).0 != name@ by {
                    if i >= at {
                        assert(self.rows()[at as int].0 == self.rows@[at as int].0@);
                        if i > at {
                            assert(text_lt(self.rows()[at as int].0, self.rows()[i].0));
                            lemma_text_lt_transitive(name@, self.rows()[at as int].0, self.rows()[i].0);
                        }
                    }
                }
            }
            None
        }
    }

    /// Whether there is a row for `name`.
    pub fn contains(&self, name: &str) -> (r: bool)
        requires
            self.wf(),
        ensures
            r == self@.contains_key(name@),
    {
        self.find(name).is_some()
    }

    /// The index of the row of that name, which is put there with the value
    /// `fresh` if there was none.
    pub fn slot(&mut self, name: String, fresh: V) -> (at: usize)
        requires
            old(self).wf(),
        ensures
            final(self).wf(),
            at < final(self).rows().len(),
            final(self).rows()[at as int].0 == name@,
            old(self)@.contains_key(name@) ==> final(self).rows() == old(self).rows(),
            !old(self)@.contains_key(name@) ==> final(self)@ == old(self)@.insert(name@, fresh@)
                && final(self).rows().len() == old(self).rows().len() + 1,
            final(self)@.contains_key(name@),
            final(self)@[name@] == final(self).rows()[at as int].1,
    {
        let ghost before = self.rows();
        match self.find(name.as_str()) {
            Some(i) => i,
            None => {
                let at = self.position(name.as_str());
                proof {
                    assert forall|i: int| at <= i < before.len() implies text_lt(name@, (#[trigger] before[i]).0) by {
                        assert(before[i].0 != name@) by {
                            if before[i].0 == name@ {
                                assert(has_row(before, name@));
                            }
                        }
                        assert(before[at as int].0 != name@) by {
                            if before[at as int].0 == name@ {
                                assert(has_row(before, name@));
                            }
                        }
                        lemma_text_lt_total(before[at as int].0, name@);
                        if i > at {
                            assert(text_lt(before[at as int].0, before[i].0));
                            lemma_text_lt_transitive(name@, before[at as int].0, before[i].0);
                        }
                    }
                    lemma_insert_named(before, at as int, name@, fresh@);
                }
                self.rows.insert(at, (name, fresh));
                assert(self.rows() =~= before.insert(at as int, (name@, fresh@)));
                proof {
                    lemma_named_row_is_mapped(self.rows(), at as int);
                }
                at
            },
        }
    }
}

impl<V: Duplicate> Duplicate for TextTable<V> {
    fn duplicate(&self) -> (copy: Self)
        ensures
            copy.rows() == self.rows(),
    {
        let mut rows: Vec<(String, V)> = Vec::new();
        let mut i: usize = 0;
        while i < self.rows.len()
            invariant
                i <= self.rows.len(),
                rows.len() == i,
                forall|j: int|
                    0 <= j < i ==> (#[trigger] rows@[j]).0@ == self.rows@[j].0@ && rows@[j].1@ == self.rows@[j].1@,
            decreases self.rows.len() - i,
        {
            rows.push((self.rows[i].0.clone(), self.rows[i].1.duplicate()));
            i += 1;
        }
        let copy = TextTable { rows };
        assert(copy.rows() =~= self.rows());
        copy
    }
}

impl Duplicate for () {
    fn duplicate(&self) -> (copy: Self) {
    }
}

/// Names in strictly ascending order.
pub open spec fn ascending_names(names: Seq<Seq<char>>) -> bool {
    forall|i: int, j: int| 0 <= i < j < names.len() ==> text_lt(#[trigger] names[i], #[trigger] names[j])
}

/// Lists in ascending order that hold the same names are the same.
pub proof fn lemma_same_names(a: Seq<Seq<char>>, b: Seq<Seq<char>>)
    requires
        ascending_names(a),
        ascending_names(b),
        forall|name: Seq<char>| #[trigger] a.contains(name) <==> b.contains(name),
    ensures
        a == b,
    decreases a.len(),
{
    if a.len() == 0 {
        if b.len() > 0 {
            assert(b.contains(b[0]));
            assert(a.contains(b[0]));
        }
        assert(a =~= b);
    } else {
        assert(a.contains(a[0]));
        assert(b.contains(a[0]));
        assert(b.contains(b[0]));
        assert(a.contains(b[0]));
        let i = choose|i: int| 0 <= i < b.len() && b[i] == a[0];
        let j = choose|j: int| 0 <= j < a.len() && a[j] == b[0];
        if a[0] != b[0] {
            assert(text_lt(b[0], b[i]));
            assert(text_lt(a[0], a[j]));
            lemma_text_lt_transitive(a[0], b[0], a[0]);
            lemma_text_lt_irreflexive(a[0]);
        }
        let x = a.skip(1);
        let y = b.skip(1);
        lemma_skipped_names(a);
        lemma_skipped_names(b);
        assert forall|name: Seq<char>| #[trigger] x.contains(name) <==> y.contains(name) by {
            assert(x.contains(name) <==> a.contains(name) && name != a[0]);
            assert(y.contains(name) <==> b.contains(name) && name != b[0]);
        }
        lemma_same_names(x, y);
        assert(a =~= seq![a[0]] + x);
        assert(b =~= seq![b[0]] + y);
    }
}

/// Without its first name a list in ascending order holds the others.
proof fn lemma_skipped_names(a: Seq<Seq<char>>)
    requires
        ascending_names(a),
        a.len() > 0,
    ensures
        ascending_names(a.skip(1)),
        forall|name: Seq<char>| #[trigger] a.skip(1).contains(name) <==> a.contains(name) && name != a[0],
{
    let x = a.skip(1);
    assert forall|i: int, j: int| 0 <= i < j < x.len() implies text_lt(#[trigger] x[i], #[trigger] x[j]) by {
        assert(x[i] == a[i + 1] && x[j] == a[j + 1]);
    }
    assert forall|name: Seq<char>| #[trigger] x.contains(name) <==> a.contains(name) && name != a[0] by {
        if x.contains(name) {
            let i = choose|i: int| 0 <= i < x.len() && x[i] == name;
            assert(a[i + 1] == name);
            assert(text_lt(a[0], a[i + 1]));
            lemma_text_lt_irreflexive(a[0]);
        }
        if a.contains(name) && name != a[0] {
            let i = choose|i: int| 0 <= i < a.len() && a[i] == name;
            assert(x[i - 1] == name);
        }
    }
}

/// A list in ascending order whose names are all in another is no longer than
/// that.
pub proof fn lemma_names_among(a: Seq<Seq<char>>, b: Seq<Seq<char>>)
    requires
        ascending_names(a),
        forall|name: Seq<char>| #[trigger] a.contains(name) ==> b.contains(name),
    ensures
        a.len() <= b.len(),
{
    assert(a.no_duplicates()) by {
        assert forall|i: int, j: int| 0 <= i < j < a.len() implies a[i] != a[j] by {
            assert(text_lt(a[i], a[j]));
            lemma_text_lt_irreflexive(a[i]);
        }
    }
    a.unique_seq_to_set();
    b.lemma_cardinality_of_set();
    vstd::seq_lib::seq_to_set_is_finite(b);
    assert forall|name: Seq<char>| #[trigger] a.to_set().contains(name) implies b.to_set().contains(name) by {
        assert(a.contains(name));
    }
    vstd::set_lib::lemma_len_subset(a.to_set(), b.to_set());
}

/// A set of tags, listed in ascending order.
#[derive(Clone, Debug)]
pub struct Tags {
    table: TextTable<()>,
}

impl View for Tags {
    type V = Seq<Seq<char>>;

    closed spec fn view(&self) -> Seq<Seq<char>> {
        self.table.rows().map_values(|row: (Seq<char>, ())| row.0)
    }
}

impl Tags {
    /// The tags are in ascending order, each once.
    pub open spec fn wf(&self) -> bool {
        ascending_names(self@)
    }

    proof fn lemma_table_wf(&self)
        requires
            self.wf(),
        ensures
            self.table.wf(),
    {
        assert forall|i: int, j: int| 0 <= i < j < self.table.rows().len() implies text_lt(
            (#[trigger] self.table.rows()[i]).0,
            (#[trigger] self.table.rows()[j]).0,
        ) by {
            assert(self@[i] == self.table.rows()[i].0);
            assert(self@[j] == self.table.rows()[j].0);
        }
    }

    /// No tags.
    pub fn new() -> (tags: Self)
        ensures
            tags@ == Seq::<Seq<char>>::empty(),
            tags.wf(),
    {
        let tags = Tags { table: TextTable::new() };
        assert(tags@ =~= Seq::<Seq<char>>::empty());
        tags
    }

    /// How many tags there are.
    pub fn len(&self) -> (n: usize)
        ensures
            n == self@.len(),
    {
        self.table.len()
    }

    /// Whether there is no tag.
    pub fn is_empty(&self) -> (r: bool)
        ensures
            r == (self@.len() == 0),
    {
        self.table.len() == 0
    }

    /// The `i`-th tag.
    pub fn tag_at(&self, i: usize) -> (tag: &str)
        requires
            i < self@.len(),
        ensures
            tag@ == self@[i as int],
    {
        self.table.name_at(i)
    }

    /// Whether `tag` is among them.
    pub fn contains(&self, tag: &str) -> (r: bool)
        requires
            self.wf(),
        ensures
            r == self@.contains(tag@),
    {
        proof {
            self.lemma_table_wf();
        }
        match self.table.find(tag) {
            Some(i) => {
                assert(self@[i as int] == tag@);
                true
            },
            None => {
                proof {
                    if self@.contains(tag@) {
                        let i = choose|i: int| 0 <= i < self@.len() && self@[i] == tag@;
                        lemma_named_row_is_mapped(self.table.rows(), i);
                    }
                }
                false
            },
        }
    }

    /// Adds `tag`; a tag that is there already is not added twice.
    pub fn insert(&mut self, tag: String)
        requires
            old(self).wf(),
        ensures
            final(self).wf(),
            forall|name: Seq<char>| #[trigger]
                final(self)@.contains(name) <==> old(self)@.contains(name) || name == tag@,
            old(self)@.contains(tag@) ==> final(self)@ == old(self)@,
            !old(self)@.contains(tag@) ==> final(self)@.len() == old(self)@.len() + 1,
    {
        proof {
            self.lemma_table_wf();
        }
        let ghost before = self.table.rows();
        let ghost name = tag@;
        assert(as_map(before).contains_key(name) <==> self@.contains(name)) by {
            lemma_names_are_keys(before, name);
        }
        let at = self.table.slot(tag, ());
        let ghost after = self.table.rows();
        proof {
            assert forall|q: Seq<char>| #[trigger] self@.contains(q) <==> old(self)@.contains(q) || q == name by {
                lemma_names_are_keys(before, q);
                lemma_names_are_keys(after, q);
                if as_map(before).contains_key(name) {
                    assert(after == before);
                }
            }
            assert forall|i: int, j: int| 0 <= i < j < self@.len() implies text_lt(
                #[trigger] self@[i],
                #[trigger] self@[j],
            ) by {
                assert(text_lt(after[i].0, after[j].0));
            }
        }
    }
}

proof fn lemma_names_are_keys(rows: Seq<(Seq<char>, ())>, name: Seq<char>)
    ensures
        as_map(rows).contains_key(name) <==> rows.map_values(|row: (Seq<char>, ())| row.0).contains(name),
{
    let names = rows.map_values(|row: (Seq<char>, ())| row.0);
    if has_row(rows, name) {
        let i = row_of(rows, name);
        assert(names[i] == name);
    }
    if names.contains(name) {
        let i = choose|i: int| 0 <= i < names.len() && names[i] == name;
        assert(rows[i].0 == name);
    }
}

impl Duplicate for Tags {
    fn duplicate(&self) -> (copy: Self) {
        Tags { table: self.table.duplicate() }
    }
}

}
