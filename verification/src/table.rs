//! A table from texts to values in which no key occurs twice, with lookups in
//! constant time.

use vstd::hash_map::StringHashMap;
use vstd::prelude::*;

verus! {

/// One row of a table.
pub struct Row<V> {
    pub key: String,
    pub value: V,
}

/// The rows of a table, with distinct keys, and where the row of each key
/// stands.
pub struct Table<V> {
    rows: Vec<Row<V>>,
    index: StringHashMap<usize>,
}

/// The row that holds a key.
pub open spec fn row_of<V>(rows: Seq<Row<V>>, key: Seq<char>) -> int {
    choose|i: int| 0 <= i < rows.len() && (#[trigger] rows[i]).key@ == key
}

/// Whether some row holds a key.
pub open spec fn has_row<V>(rows: Seq<Row<V>>, key: Seq<char>) -> bool {
    exists|i: int| 0 <= i < rows.len() && (#[trigger] rows[i]).key@ == key
}

/// No key stands in two rows.
pub open spec fn distinct_keys<V>(rows: Seq<Row<V>>) -> bool {
    forall|i: int, j: int|
        0 <= i < rows.len() && 0 <= j < rows.len() && i != j ==> (#[trigger] rows[i]).key@ != (
        #[trigger] rows[j]).key@
}

/// The map that rows stand for.
pub open spec fn map_of_rows<V>(rows: Seq<Row<V>>) -> Map<Seq<char>, V> {
    Map::new(|key: Seq<char>| has_row(rows, key), |key: Seq<char>| rows[row_of(rows, key)].value)
}

/// Whether an index says where the row of each key stands.
pub open spec fn is_index<V>(index: Map<Seq<char>, usize>, rows: Seq<Row<V>>) -> bool {
    &&& forall|i: int|
        0 <= i < rows.len() ==> index.dom().contains((#[trigger] rows[i]).key@)
            && index[rows[i].key@] == i
    &&& forall|key: Seq<char>| #[trigger]
        index.dom().contains(key) ==> 0 <= index[key] < rows.len() && rows[index[key] as int].key@
            == key
}

impl<V> View for Table<V> {
    type V = Map<Seq<char>, V>;

    closed spec fn view(&self) -> Map<Seq<char>, V> {
        map_of_rows(self.rows@)
    }
}

impl<V> Table<V> {
    /// The index says where the row of each key stands.
    #[verifier::type_invariant]
    spec fn is_indexed(self) -> bool {
        is_index(self.index@, self.rows@)
    }

    /// The rows in the order in which they are kept.
    pub closed spec fn rows(&self) -> Seq<Row<V>> {
        self.rows@
    }

    /// A table without rows.
    pub fn new() -> (r: Self)
        ensures
            r@ == Map::<Seq<char>, V>::empty(),
            r.rows() == Seq::<Row<V>>::empty(),
    {
        let r = Table { rows: Vec::new(), index: StringHashMap::new() };
        assert(r@ =~= Map::<Seq<char>, V>::empty());
        r
    }

    /// How many rows there are. No two of them hold the same key, and together
    /// they are what the table holds.
    pub fn len(&self) -> (r: usize)
        ensures
            r == self.rows().len(),
            distinct_keys(self.rows()),
            self@ == map_of_rows(self.rows()),
    {
        proof {
            use_type_invariant(self);
        }
        self.rows.len()
    }

    /// The row at an index.
    pub fn row(&self, i: usize) -> (r: &Row<V>)
        requires
            i < self.rows().len(),
        ensures
            *r == self.rows()[i as int],
    {
        &self.rows[i]
    }

    /// The value of a key.
    pub fn get(&self, key: &str) -> (r: Option<&V>)
        ensures
            match r {
                Some(v) => self@.dom().contains(key@) && self@[key@] == *v,
                None => !self@.dom().contains(key@),
            },
    {
        proof {
            use_type_invariant(self);
        }
        match self.index.get(key) {
            Some(i) => {
                assert(self.rows@[*i as int].key@ == key@);
                assert(row_of(self.rows@, key@) == *i);
                Some(&self.rows[*i].value)
            },
            None => None,
        }
    }

    /// Takes the rows and their index out, which leaves the table empty.
    fn take(&mut self) -> (r: (Vec<Row<V>>, StringHashMap<usize>))
        ensures
            r.0@ == old(self).rows(),
            is_index(r.1@, r.0@),
    {
        let mut taken = Table::new();
        std::mem::swap(self, &mut taken);
        proof {
            use_type_invariant(&taken);
        }
        let Table { rows, index } = taken;
        (rows, index)
    }

    /// Gives a key a value, in the place of one that it had.
    pub fn insert(&mut self, key: String, value: V)
        ensures
            final(self)@ == old(self)@.insert(key@, value),
    {
        let (mut rows, mut index) = self.take();
        let ghost before = rows@;
        let ghost k = key@;
        let found: Option<usize> = match index.get(key.as_str()) {
            Some(i) => Some(*i),
            None => None,
        };
        match found {
            Some(i) => {
                rows[i] = Row { key, value };
            },
            None => {
                index.insert(key.clone(), rows.len());
                rows.push(Row { key, value });
            },
        }
        proof {
            let after = rows@;
            let n = index@[k] as int;
            assert(after[n].key@ == k && after[n].value == value);
            assert(is_index(index@, after)) by {
                assert forall|i: int| 0 <= i < after.len() implies index@.dom().contains(
                    (#[trigger] after[i]).key@,
                ) && index@[after[i].key@] == i by {
                    if i != n {
                        assert(after[i] == before[i]);
                    }
                }
            }
            lemma_map_of_indexed(before, k, n, after, value);
        }
        *self = Table { rows, index };
    }

    /// Takes a key out and hands back its value.
    pub fn remove(&mut self, key: &str) -> (r: Option<V>)
        ensures
            final(self)@ == old(self)@.remove(key@),
            match r {
                Some(v) => old(self)@.dom().contains(key@) && old(self)@[key@] == v,
                None => !old(self)@.dom().contains(key@),
            },
    {
        let (mut rows, mut index) = self.take();
        let ghost before = rows@;
        let found: Option<usize> = match index.get(key) {
            Some(i) => Some(*i),
            None => None,
        };
        match found {
            Some(i) => {
                assert(before[i as int].key@ == key@);
                assert(row_of(before, key@) == i);
                let row = rows.swap_remove(i);
                index.remove(key);
                if i < rows.len() {
                    index.insert(rows[i].key.clone(), i);
                }
                proof {
                    let after = rows@;
                    let at = i as int;
                    let last = after.len() as int;
                    assert(before[last].key@ == key@ ==> at == last);
                    assert forall|j: int| 0 <= j < after.len() implies index@.dom().contains(
                        (#[trigger] after[j]).key@,
                    ) && index@[after[j].key@] == j by {
                        if j == at {
                            assert(after[j] == before[last]);
                        } else {
                            assert(after[j] == before[j]);
                            assert(before[j].key@ != before[last].key@);
                            assert(before[j].key@ != key@);
                        }
                    }
                    assert forall|x: Seq<char>| #[trigger] index@.dom().contains(x) implies 0
                        <= index@[x] < after.len() && after[index@[x] as int].key@ == x by {
                    }
                    lemma_map_without(before, at, after);
                }
                *self = Table { rows, index };
                Some(row.value)
            },
            None => {
                *self = Table { rows, index };
                assert(self@ =~= old(self)@.remove(key@));
                None
            },
        }
    }
}

/// Rows that differ from others only in the row of one key stand for the same
/// map but for that key.
proof fn lemma_map_of_indexed<V>(
    before: Seq<Row<V>>,
    key: Seq<char>,
    n: int,
    after: Seq<Row<V>>,
    value: V,
)
    requires
        distinct_keys(after),
        0 <= n < after.len(),
        after[n].key@ == key,
        after[n].value == value,
        before.len() <= after.len() <= before.len() + 1,
        before.len() < after.len() ==> n == before.len() && !has_row(before, key),
        n < before.len() ==> before[n].key@ == key,
        forall|i: int| 0 <= i < before.len() && i != n ==> (#[trigger] after[i]) == before[i],
        distinct_keys(before),
    ensures
        map_of_rows(after) == map_of_rows(before).insert(key, value),
{
    assert forall|x: Seq<char>| has_row(after, x) == (has_row(before, x) || x == key) by {
        if has_row(before, x) {
            let j = row_of(before, x);
            assert(after[j].key@ == x);
        }
        if has_row(after, x) && x != key {
            let j = row_of(after, x);
            assert(before[j].key@ == x);
        }
    }
    assert forall|x: Seq<char>| has_row(after, x) && x != key implies after[row_of(
        after,
        x,
    )].value == before[row_of(before, x)].value by {
        let j = row_of(after, x);
        assert(before[j].key@ == x);
        assert(row_of(before, x) == j);
    }
    assert(row_of(after, key) == n);
    assert(map_of_rows(after) =~= map_of_rows(before).insert(key, value));
}

/// Rows without one of them, whose place the last one takes, stand for the same
/// map but for its key.
proof fn lemma_map_without<V>(before: Seq<Row<V>>, at: int, after: Seq<Row<V>>)
    requires
        distinct_keys(before),
        0 <= at < before.len(),
        after == before.update(at, before.last()).drop_last(),
    ensures
        map_of_rows(after) == map_of_rows(before).remove(before[at].key@),
{
    let key = before[at].key@;
    let last = before.len() - 1;
    assert forall|x: Seq<char>| has_row(after, x) == (has_row(before, x) && x != key) by {
        if has_row(before, x) && x != key {
            let j = row_of(before, x);
            if j == last {
                assert(after[at].key@ == x);
            } else {
                assert(after[j].key@ == x);
            }
        }
        if has_row(after, x) {
            let j = row_of(after, x);
            if j == at {
                assert(before[last].key@ == x);
            } else {
                assert(before[j].key@ == x);
            }
        }
    }
    assert forall|x: Seq<char>| has_row(after, x) implies after[row_of(after, x)].value
        == before[row_of(before, x)].value by {
        let j = row_of(after, x);
        let k = if j == at {
            last
        } else {
            j
        };
        assert(before[k].key@ == x);
        assert(row_of(before, x) == k);
    }
    assert(map_of_rows(after) =~= map_of_rows(before).remove(key));
}

} // verus!
