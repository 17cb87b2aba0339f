//! The table: named columns of optional integers, kept in the order of
//! their names.

use vstd::prelude::*;
use crate::order::{
    compare_names, lemma_name_before_asymmetric, lemma_name_before_transitive, name_before, Rank,
};

verus! {

/// One column: its name, and one entry for each cell read into it, in the
/// order in which the cells were read.
#[derive(Debug)]
struct Column {
    name: String,
    values: Vec<Option<i64>>,
}

/// Columns under distinct names, in ascending order of the names. As a
/// value the table is a map, its view, from each name to the entries of the
/// column under that name.
#[derive(Debug)]
pub struct Table {
    columns: Vec<Column>,
}

/// Whether each name comes before all that follow it.
pub open spec fn ascending(names: Seq<Seq<char>>) -> bool {
    forall|i: int, j: int|
        0 <= i < j < names.len() ==> name_before(#[trigger] names[i], #[trigger] names[j])
}

/// The map that takes each of `names` to the entry of `values` at its place.
pub open spec fn entries_map(names: Seq<Seq<char>>, values: Seq<Seq<Option<i64>>>) -> Map<
    Seq<char>,
    Seq<Option<i64>>,
> {
    Map::new(|k: Seq<char>| names.contains(k), |k: Seq<char>| values[names.index_of(k)])
}

/// Names in ascending order are distinct.
pub proof fn lemma_ascending_distinct(names: Seq<Seq<char>>, i: int, j: int)
    requires
        ascending(names),
        0 <= i < names.len(),
        0 <= j < names.len(),
        names[i] == names[j],
    ensures
        i == j,
{
    if i < j {
        lemma_name_before_asymmetric(names[i], names[j]);
    } else if j < i {
        lemma_name_before_asymmetric(names[j], names[i]);
    }
}

/// Under names in ascending order, each name is taken to the entry at its
/// own place.
pub proof fn lemma_entries_map_at(names: Seq<Seq<char>>, values: Seq<Seq<Option<i64>>>, i: int)
    requires
        ascending(names),
        0 <= i < names.len(),
    ensures
        entries_map(names, values).contains_key(names[i]),
        entries_map(names, values)[names[i]] == values[i],
{
    lemma_ascending_distinct(names, i, names.index_of(names[i]));
}

/// The order pins the sequence: two ascending sequences of the same names are
/// the same sequence.
pub proof fn lemma_ascending_unique(a: Seq<Seq<char>>, b: Seq<Seq<char>>)
    requires
        ascending(a),
        ascending(b),
        a.to_set() == b.to_set(),
    ensures
        a == b,
    decreases a.len(),
{
    if a.len() == 0 {
        if b.len() > 0 {
            assert(b.to_set().contains(b[0]));
        }
    } else {
        assert(a.to_set().contains(a[0]));
        let j = b.index_of(a[0]);
        assert(b.to_set().contains(b[0]));
        let i = a.index_of(b[0]);
        if j > 0 {
            if i > 0 {
                lemma_name_before_transitive(b[0], a[0], a[i]);
            }
            lemma_name_before_asymmetric(b[0], a[0]);
        }
        let a1 = a.skip(1);
        let b1 = b.skip(1);
        assert forall|k: Seq<char>| a1.to_set().contains(k) <==> b1.to_set().contains(k) by {
            if a1.contains(k) {
                let p = a1.index_of(k);
                lemma_name_before_asymmetric(a[0], a[p + 1]);
                assert(a.to_set().contains(k));
                let q = b.index_of(k);
                assert(b1[q - 1] == k);
            }
            if b1.contains(k) {
                let q = b1.index_of(k);
                lemma_name_before_asymmetric(b[0], b[q + 1]);
                assert(b.to_set().contains(k));
                let p = a.index_of(k);
                assert(a1[p - 1] == k);
            }
        }
        assert(a1.to_set() =~= b1.to_set());
        lemma_ascending_unique(a1, b1);
        assert(a =~= seq![a[0]] + a1);
    }
}

impl Table {
    /// The names of the columns, in the table's order.
    pub closed spec fn names(&self) -> Seq<Seq<char>> {
        Seq::new(self.columns@.len(), |i: int| self.columns@[i].name@)
    }

    /// The entries of the columns, in the table's order.
    pub closed spec fn values(&self) -> Seq<Seq<Option<i64>>> {
        Seq::new(self.columns@.len(), |i: int| self.columns@[i].values@)
    }

    /// Whether the table is well formed: the names are in ascending order,
    /// so no two columns share one.
    pub open spec fn wf(&self) -> bool {
        &&& self.names().len() == self.values().len()
        &&& ascending(self.names())
    }

    /// How the order of the columns and the map go together: the names are
    /// the keys of the map, and each is taken to the entries at its place.
    pub proof fn lemma_view(&self)
        requires
            self.wf(),
        ensures
            self@.dom() == self.names().to_set(),
            forall|i: int|
                0 <= i < self.names().len() ==> self@[#[trigger] self.names()[i]]
                    == self.values()[i],
    {
    }

    /// Tables that stand for the same map hold the same columns in the same
    /// order.
    pub proof fn lemma_order_determined(&self, other: &Table)
        requires
            self.wf(),
            other.wf(),
            self@ == other@,
        ensures
            self.names() == other.names(),
            self.values() == other.values(),
    {
        self.lemma_view();
        other.lemma_view();
        lemma_ascending_unique(self.names(), other.names());
        assert forall|i: int| 0 <= i < self.values().len() implies self.values()[i]
            == other.values()[i] by {
            assert(self@[self.names()[i]] == self.values()[i]);
        }
    }
}

impl View for Table {
    type V = Map<Seq<char>, Seq<Option<i64>>>;

    /// The table as a map from each column's name to its entries.
    open spec fn view(&self) -> Map<Seq<char>, Seq<Option<i64>>> {
        entries_map(self.names(), self.values())
    }
}

impl Table {
    /// A table without columns.
    pub fn new() -> (table: Table)
        ensures
            table.wf(),
            table.names() == Seq::<Seq<char>>::empty(),
            table@ == Map::<Seq<char>, Seq<Option<i64>>>::empty(),
    {
        Table { columns: Vec::new() }
    }

    /// The number of columns.
    pub fn len(&self) -> (n: usize)
        ensures
            n == self.names().len(),
            n == self.values().len(),
    {
        self.columns.len()
    }

    /// The name of the column at place `i`.
    pub fn name(&self, i: usize) -> (name: &str)
        requires
            i < self.names().len(),
        ensures
            name@ == self.names()[i as int],
    {
        self.columns[i].name.as_str()
    }

    /// The entries of the column at place `i`.
    pub fn column(&self, i: usize) -> (values: &Vec<Option<i64>>)
        requires
            i < self.names().len(),
        ensures
            values@ == self.values()[i as int],
    {
        &self.columns[i].values
    }

    /// The entries of the column under `name`, if there is one.
    pub fn get(&self, name: &str) -> (found: Option<&Vec<Option<i64>>>)
        requires
            self.wf(),
        ensures
            match found {
                Some(values) => self@.contains_key(name@) && values@ == self@[name@],
                None => !self@.contains_key(name@),
            },
    {
        match self.locate(name) {
            Ok(i) => {
                proof {
                    lemma_entries_map_at(self.names(), self.values(), i as int);
                }
                Some(&self.columns[i].values)
            },
            Err(_) => None,
        }
    }

    /// Looks `name` up by bisection: `Ok` with the place of the column under
    /// that name, or `Err` with the place at which such a column would stand.
    pub fn locate(&self, name: &str) -> (r: Result<usize, usize>)
        requires
            self.wf(),
        ensures
            match r {
                Ok(i) => i < self.names().len() && self.names()[i as int] == name@,
                Err(i) => {
                    &&& i <= self.names().len()
                    &&& !self.names().contains(name@)
                    &&& forall|j: int|
                        0 <= j < i ==> name_before(#[trigger] self.names()[j], name@)
                    &&& forall|j: int|
                        i <= j < self.names().len() ==> name_before(
                            name@,
                            #[trigger] self.names()[j],
                        )
                },
            },
    {
        let mut low: usize = 0;
        let mut high: usize = self.columns.len();
        while low < high
            invariant
                self.wf(),
                low <= high <= self.names().len(),
                high <= self.columns.len(),
                self.columns.len() == self.names().len(),
                forall|j: int| 0 <= j < low ==> name_before(#[trigger] self.names()[j], name@),
                forall|j: int|
                    high <= j < self.names().len() ==> name_before(
                        name@,
                        #[trigger] self.names()[j],
                    ),
            decreases high - low,
        {
            let mid: usize = low + (high - low) / 2;
            match compare_names(self.columns[mid].name.as_str(), name) {
                Rank::Same => {
                    return Ok(mid);
                },
                Rank::Before => {
                    proof {
                        assert forall|j: int| 0 <= j < mid + 1 implies name_before(
                            #[trigger] self.names()[j],
                            name@,
                        ) by {
                            if j < mid {
                                lemma_name_before_transitive(
                                    self.names()[j],
                                    self.names()[mid as int],
                                    name@,
                                );
                            }
                        }
                    }
                    low = mid + 1;
                },
                Rank::After => {
                    proof {
                        assert forall|j: int| mid <= j < self.names().len() implies name_before(
                            name@,
                            #[trigger] self.names()[j],
                        ) by {
                            if mid < j {
                                lemma_name_before_transitive(
                                    name@,
                                    self.names()[mid as int],
                                    self.names()[j],
                                );
                            }
                        }
                    }
                    high = mid;
                },
            }
        }
        Err(low)
    }

    /// Puts an empty column under `name`, in place of the column that stood
    /// under that name if there was one.
    pub fn insert_empty(&mut self, name: &str)
        requires
            old(self).wf(),
        ensures
            final(self).wf(),
            final(self)@ == old(self)@.insert(name@, Seq::<Option<i64>>::empty()),
    {
        match self.locate(name) {
            Ok(i) => {
                self.columns[i].values = Vec::new();
                proof {
                    assert(final(self).names() =~= old(self).names());
                    lemma_entries_map_update(
                        old(self).names(),
                        old(self).values(),
                        i as int,
                        Seq::<Option<i64>>::empty(),
                    );
                }
            },
            Err(i) => {
                let column = Column { name: name.to_owned(), values: Vec::new() };
                self.columns.insert(i, column);
                proof {
                    assert(final(self).names() =~= old(self).names().insert(i as int, name@));
                    lemma_entries_map_insert(
                        old(self).names(),
                        old(self).values(),
                        i as int,
                        name@,
                        Seq::<Option<i64>>::empty(),
                    );
                }
            },
        }
    }

    /// Appends `value` to the column under `name`; where there is no such
    /// column, nothing changes.
    pub fn append(&mut self, name: &str, value: Option<i64>)
        requires
            old(self).wf(),
        ensures
            final(self).wf(),
            final(self).names() == old(self).names(),
            final(self)@ == if old(self)@.contains_key(name@) {
                old(self)@.insert(name@, old(self)@[name@].push(value))
            } else {
                old(self)@
            },
    {
        match self.locate(name) {
            Ok(i) => {
                self.columns[i].values.push(value);
                proof {
                    assert(final(self).names() =~= old(self).names());
                    lemma_entries_map_at(old(self).names(), old(self).values(), i as int);
                    lemma_entries_map_update(
                        old(self).names(),
                        old(self).values(),
                        i as int,
                        old(self).values()[i as int].push(value),
                    );
                }
            },
            Err(_) => {},
        }
    }
}

/// Replacing the entry at one place replaces what the name at that place is
/// taken to.
pub proof fn lemma_entries_map_update(
    names: Seq<Seq<char>>,
    values: Seq<Seq<Option<i64>>>,
    i: int,
    entry: Seq<Option<i64>>,
)
    requires
        ascending(names),
        names.len() == values.len(),
        0 <= i < names.len(),
    ensures
        entries_map(names, values.update(i, entry)) == entries_map(names, values).insert(
            names[i],
            entry,
        ),
{
}

/// Putting a new name with its entry at the place that keeps the names in
/// ascending order adds that name to the map and keeps the order.
pub proof fn lemma_entries_map_insert(
    names: Seq<Seq<char>>,
    values: Seq<Seq<Option<i64>>>,
    i: int,
    name: Seq<char>,
    entry: Seq<Option<i64>>,
)
    requires
        ascending(names),
        names.len() == values.len(),
        0 <= i <= names.len(),
        forall|j: int| 0 <= j < i ==> name_before(#[trigger] names[j], name),
        forall|j: int| i <= j < names.len() ==> name_before(name, #[trigger] names[j]),
    ensures
        ascending(names.insert(i, name)),
        entries_map(names.insert(i, name), values.insert(i, entry)) == entries_map(
            names,
            values,
        ).insert(name, entry),
{
    let names2 = names.insert(i, name);
    let before = entries_map(names, values);
    let after = entries_map(names2, values.insert(i, entry));
    assert forall|k: Seq<char>| after.contains_key(k) <==> before.insert(name, entry).contains_key(
        k,
    ) by {
        if names.contains(k) {
            let j = names.index_of(k);
            if j < i {
                assert(names2[j] == k);
            } else {
                assert(names2[j + 1] == k);
            }
        }
        if k == name {
            assert(names2[i] == k);
        }
    }
}

} // verus!

