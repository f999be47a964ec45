//! A small in-memory table with optional per-column indexes: rows of
//! primitive fields, index maintenance on insert, and selection either
//! through an index or by scanning.

use vstd::prelude::*;

verus! {

/// Primitive data types of the database.
#[derive(PartialEq, Eq, Debug, Hash)]
pub enum Field {
    String(String),
    Integer(isize),
}

/// Field equality: integers by value, strings by their characters.
pub open spec fn spec_field_eq(a: Field, b: Field) -> bool {
    match (a, b) {
        (Field::String(x), Field::String(y)) => x@ == y@,
        (Field::Integer(x), Field::Integer(y)) => x == y,
        _ => false,
    }
}

/// Decides equality of two field values.
pub fn field_eq(a: &Field, b: &Field) -> (r: bool)
    ensures
        r == spec_field_eq(*a, *b),
{
    match (a, b) {
        (Field::String(x), Field::Integer(y)) => false,
        (Field::Integer(x), Field::String(y)) => false,
        (Field::String(x), Field::String(y)) => *x == *y,
        (Field::Integer(x), Field::Integer(y)) => *x == *y,
    }
}

#[derive(Debug, PartialEq, Eq)]
pub struct Row {
    fields: Vec<Field>,
}

impl Row {
    pub fn new(fields: Vec<Field>) -> (r: Self)
        ensures
            r.spec_fields() == fields@,
    {
        Row { fields }
    }

    /// The field values of this row.
    pub closed spec fn spec_fields(self) -> Seq<Field> {
        self.fields@
    }
}

/// The ascending positions of the rows whose field at column position
/// `ci` equals `f`.
pub open spec fn spec_matching(rows: Seq<Row>, ci: int, f: Field) -> Seq<usize>
    decreases rows.len(),
{
    if rows.len() == 0 {
        Seq::empty()
    } else {
        spec_matching(rows.drop_last(), ci, f) + if 0 <= ci < rows.last().spec_fields().len()
            && spec_field_eq(rows.last().spec_fields()[ci], f) {
            seq![(rows.len() - 1) as usize]
        } else {
            Seq::empty()
        }
    }
}

/// The rows whose field at column position `ci` equals `f`, in order.
pub open spec fn spec_select(rows: Seq<Row>, ci: int, f: Field) -> Seq<Row>
    decreases rows.len(),
{
    if rows.len() == 0 {
        Seq::empty()
    } else {
        spec_select(rows.drop_last(), ci, f) + if 0 <= ci < rows.last().spec_fields().len()
            && spec_field_eq(rows.last().spec_fields()[ci], f) {
            seq![rows.last()]
        } else {
            Seq::empty()
        }
    }
}

/// Data structure for efficiently finding which rows contain a
/// particular column value.
/// No two stored keys are equal fields.
spec fn keys_distinct(index: Seq<(Field, Vec<usize>)>) -> bool {
    forall|a: int, b: int|
        0 <= a < b < index.len() ==> !spec_field_eq(
            (#[trigger] index[a]).0,
            (#[trigger] index[b]).0,
        )
}

proof fn lemma_unique_key(index: Seq<(Field, Vec<usize>)>, w: int, k: int, f: Field)
    requires
        keys_distinct(index),
        0 <= w < index.len(),
        0 <= k < index.len(),
        spec_field_eq(index[w].0, f),
        spec_field_eq(index[k].0, f),
    ensures
        w == k,
{
    if w < k {
        assert(!spec_field_eq(index[w].0, index[k].0));
    } else if k < w {
        assert(!spec_field_eq(index[k].0, index[w].0));
    }
}


struct Index {
    index: Vec<(Field, Vec<usize>)>,
}

impl Index {
    /// The entry stored for a field value, if any.
    pub closed spec fn spec_lookup(self, f: Field) -> Option<Seq<usize>> {
        if exists|k: int| 0 <= k < self.index@.len() && spec_field_eq((#[trigger] self.index@[k]).0, f) {
            let k = choose|k: int| 0 <= k < self.index@.len() && spec_field_eq((#[trigger] self.index@[k]).0, f);
            Some(self.index@[k].1@)
        } else {
            None
        }
    }

    /// Keys are stored at most once.
    pub closed spec fn wf(self) -> bool {
        keys_distinct(self.index@)
    }

    fn new() -> (r: Index)
        ensures
            r.wf(),
            forall|f: Field| r.spec_lookup(f) is None,
    {
        let r = Index { index: Vec::new() };
        proof {
            assert forall|f: Field| r.spec_lookup(f) is None by {
                if r.spec_lookup(f) is Some {
                    let k = choose|k: int|
                        0 <= k < r.index@.len() && spec_field_eq((#[trigger] r.index@[k]).0, f);
                }
            }
        }
        r
    }

    /// Updates the index after a new row is added to the database:
    /// `row_index` joins the entry of `field`, which is created if absent.
    pub fn update(&mut self, field: Field, row_index: usize)
        requires
            old(self).wf(),
        ensures
            final(self).wf(),
            forall|f: Field|
                spec_field_eq(f, field) ==> #[trigger] final(self).spec_lookup(f) == Some(
                    match old(self).spec_lookup(f) {
                        Some(ids) => ids.push(row_index),
                        None => seq![row_index],
                    },
                ),
            forall|f: Field|
                !spec_field_eq(f, field) ==> #[trigger] final(self).spec_lookup(f) == old(
                    self,
                ).spec_lookup(f),
    {
        let n = self.index.len();
        let mut k: usize = 0;
        while k < n
            invariant
                old(self).wf(),
                n == self.index@.len(),
                k <= n,
                *self == *old(self),
                forall|a: int| 0 <= a < k ==> !spec_field_eq((#[trigger] self.index@[a]).0, field),
            decreases n - k,
        {
            if field_eq(&self.index[k].0, &field) {
                let ghost before = self.index@;
                let entry = &mut self.index[k];
                entry.1.push(row_index);
                proof {
                    assert(self.index@.len() == before.len());
                    assert(forall|a: int|
                        0 <= a < self.index@.len() && a != k ==> #[trigger] self.index@[a]
                            == before[a]);
                    assert(self.index@[k as int].0 == before[k as int].0);
                    assert(self.index@[k as int].1@ == before[k as int].1@.push(row_index));
                    assert(forall|a: int|
                        0 <= a < self.index@.len() ==> (#[trigger] self.index@[a]).0 == before[
                            a
                        ].0);
                    assert(before == old(self).index@);
                    assert(keys_distinct(before));
                    assert(keys_distinct(self.index@)) by {
                        assert forall|a: int, b: int|
                            0 <= a < b < self.index@.len() implies !spec_field_eq(
                            (#[trigger] self.index@[a]).0,
                            (#[trigger] self.index@[b]).0,
                        ) by {
                            assert(!spec_field_eq(before[a].0, before[b].0));
                        }
                    }
                    assert(spec_field_eq(self.index@[k as int].0, field));
                    assert forall|f: Field| spec_field_eq(f, field) implies #[trigger]
                    final(self).spec_lookup(f) == Some(
                        match old(self).spec_lookup(f) {
                            Some(ids) => ids.push(row_index),
                            None => seq![row_index],
                        },
                    ) by {
                        assert(spec_field_eq(before[k as int].0, f));
                        assert(old(self).spec_lookup(f) is Some);
                        let w = choose|w: int|
                            0 <= w < before.len() && spec_field_eq((#[trigger] before[w]).0, f);
                        lemma_unique_key(before, w, k as int, f);
                        assert(spec_field_eq(self.index@[k as int].0, f));
                        assert(final(self).spec_lookup(f) is Some);
                        let w2 = choose|w2: int|
                            0 <= w2 < self.index@.len() && spec_field_eq(
                                (#[trigger] self.index@[w2]).0,
                                f,
                            );
                        lemma_unique_key(self.index@, w2, k as int, f);
                    }
                    assert forall|f: Field|
                        !spec_field_eq(f, field) implies final(self).spec_lookup(f) == old(
                        self,
                    ).spec_lookup(f) by {
                        if old(self).spec_lookup(f) is Some {
                            let a = choose|a: int|
                                0 <= a < before.len() && spec_field_eq((#[trigger] before[a]).0, f);
                            assert(spec_field_eq(self.index@[a].0, f));
                            let a2 = choose|a2: int|
                                0 <= a2 < self.index@.len() && spec_field_eq(
                                    (#[trigger] self.index@[a2]).0,
                                    f,
                                );
                            lemma_unique_key(self.index@, a2, a, f);
                            assert(a != k);
                        } else {
                            if final(self).spec_lookup(f) is Some {
                                let a2 = choose|a2: int|
                                    0 <= a2 < self.index@.len() && spec_field_eq(
                                        (#[trigger] self.index@[a2]).0,
                                        f,
                                    );
                                assert(spec_field_eq(before[a2].0, f));
                            }
                        }
                    }
                }
                return ;
            }
            k = k + 1;
        }
        let ghost before = self.index@;
        proof {
            assert(before == old(self).index@);
            assert(keys_distinct(before));
        }
        let mut ids: Vec<usize> = Vec::new();
        ids.push(row_index);
        self.index.push((field, ids));
        proof {
            assert(self.index@.len() == before.len() + 1);
            assert(forall|a: int| 0 <= a < before.len() ==> #[trigger] self.index@[a] == before[a]);
            assert(self.index@[before.len() as int].0 == field);
            assert(self.index@[before.len() as int].1@ =~= seq![row_index]);
            assert(spec_field_eq(field, field));
            assert(spec_field_eq(self.index@[before.len() as int].0, field));
            assert(old(self).spec_lookup(field) is None) by {
                if old(self).spec_lookup(field) is Some {
                    let w = choose|w: int|
                        0 <= w < before.len() && spec_field_eq((#[trigger] before[w]).0, field);
                }
            }
            assert(keys_distinct(self.index@)) by {
                assert forall|a: int, b: int|
                    0 <= a < b < self.index@.len() implies !spec_field_eq(
                    (#[trigger] self.index@[a]).0,
                    (#[trigger] self.index@[b]).0,
                ) by {
                    if b < before.len() {
                        assert(!spec_field_eq(before[a].0, before[b].0));
                    } else {
                        assert(!spec_field_eq(before[a].0, field));
                    }
                }
            }
            assert forall|f: Field| spec_field_eq(f, field) implies #[trigger]
            final(self).spec_lookup(f) == Some(
                match old(self).spec_lookup(f) {
                    Some(ids) => ids.push(row_index),
                    None => seq![row_index],
                },
            ) by {
                assert(old(self).spec_lookup(f) is None) by {
                    if old(self).spec_lookup(f) is Some {
                        let w = choose|w: int|
                            0 <= w < before.len() && spec_field_eq((#[trigger] before[w]).0, f);
                        assert(!spec_field_eq(before[w].0, field));
                    }
                }
                assert(spec_field_eq(self.index@[before.len() as int].0, f));
                let w2 = choose|w2: int|
                    0 <= w2 < self.index@.len() && spec_field_eq(
                        (#[trigger] self.index@[w2]).0,
                        f,
                    );
                lemma_unique_key(self.index@, w2, before.len() as int, f);
            }
            assert forall|f: Field|
                !spec_field_eq(f, field) implies final(self).spec_lookup(f) == old(
                self,
            ).spec_lookup(f) by {
                if old(self).spec_lookup(f) is Some {
                    let a = choose|a: int|
                        0 <= a < before.len() && spec_field_eq((#[trigger] before[a]).0, f);
                    assert(spec_field_eq(self.index@[a].0, f));
                    let a2 = choose|a2: int|
                        0 <= a2 < self.index@.len() && spec_field_eq(
                            (#[trigger] self.index@[a2]).0,
                            f,
                        );
                    lemma_unique_key(self.index@, a2, a, f);
                } else {
                    if final(self).spec_lookup(f) is Some {
                        let a2 = choose|a2: int|
                            0 <= a2 < self.index@.len() && spec_field_eq(
                                (#[trigger] self.index@[a2]).0,
                                f,
                            );
                        assert(a2 != before.len());
                        assert(spec_field_eq(before[a2].0, f));
                    }
                }
            }
        }
    }


    /// Returns the indexes of rows that have the given field.
    pub fn lookup(&self, field: &Field) -> (r: Option<&Vec<usize>>)
        requires
            self.wf(),
        ensures
            match r {
                Some(ids) => self.spec_lookup(*field) == Some(ids@),
                None => self.spec_lookup(*field) is None,
            },
    {
        let n = self.index.len();
        for k in 0..n
            invariant
                self.wf(),
                n == self.index@.len(),
                forall|a: int| 0 <= a < k ==> !spec_field_eq((#[trigger] self.index@[a]).0, *field),
        {
            if field_eq(&self.index[k].0, field) {
                proof {
                    let w = choose|w: int|
                        0 <= w < self.index@.len() && spec_field_eq((#[trigger] self.index@[w]).0, *field);
                    assert(w == k);
                }
                return Some(&self.index[k].1);
            }
        }
        proof {
            if self.spec_lookup(*field) is Some {
                let w = choose|w: int|
                    0 <= w < self.index@.len() && spec_field_eq((#[trigger] self.index@[w]).0, *field);
            }
        }
        None
    }
}

impl Clone for Field {
    fn clone(&self) -> (r: Self)
        ensures
            r == *self,
    {
        match self {
            Field::String(s) => Field::String(s.clone()),
            Field::Integer(i) => Field::Integer(*i),
        }
    }
}


impl Clone for Row {
    fn clone(&self) -> (r: Self)
        ensures
            r.spec_fields() == self.spec_fields(),
    {
        let n = self.fields.len();
        let mut fields: Vec<Field> = Vec::new();
        for i in 0..n
            invariant
                n == self.fields@.len(),
                fields@ == self.fields@.take(i as int),
        {
            fields.push(self.fields[i].clone());
            proof {
                assert(fields@ =~= self.fields@.take(i + 1));
            }
        }
        proof {
            assert(self.fields@.take(n as int) =~= self.fields@);
        }
        Row { fields }
    }
}

/// Whether `name` is one of the given column names.
pub open spec fn is_column(columns: Seq<String>, name: Seq<char>) -> bool {
    exists|c: int| 0 <= c < columns.len() && (#[trigger] columns[c])@ == name
}

/// The position recorded for a column name, if any.
pub open spec fn spec_col_pos(cols: Seq<(String, usize)>, name: Seq<char>) -> Option<usize>
    decreases cols.len(),
{
    if cols.len() == 0 {
        None
    } else if cols[0].0@ == name {
        Some(cols[0].1)
    } else {
        spec_col_pos(cols.drop_first(), name)
    }
}

pub struct Database {
    col_to_idx: Vec<(String, usize)>,
    indexes: Vec<(String, Index)>,
    rows: Vec<Row>,
}

impl Database {
    /// The names of the columns, in order.
    pub closed spec fn spec_columns(self) -> Seq<Seq<char>> {
        self.col_to_idx@.map_values(|c: (String, usize)| c.0@)
    }

    /// The stored rows, in insertion order.
    pub closed spec fn spec_rows(self) -> Seq<Row> {
        self.rows@
    }

    /// The position of a column, if the name is one of the columns.
    pub closed spec fn spec_position(self, name: Seq<char>) -> Option<usize> {
        spec_col_pos(self.col_to_idx@, name)
    }

    /// Internal consistency: column entries record their own position,
    /// every row is as wide as the table, and every per-column index
    /// lists, for each field value, exactly the rows holding it.
    pub closed spec fn wf(self) -> bool {
        &&& forall|k: int|
            0 <= k < self.col_to_idx@.len() ==> (#[trigger] self.col_to_idx@[k]).1 == k
        &&& forall|r: int|
            0 <= r < self.rows@.len() ==> (#[trigger] self.rows@[r]).spec_fields().len()
                == self.col_to_idx@.len()
        &&& forall|x: int|
            0 <= x < self.indexes@.len() ==> (#[trigger] self.indexes@[x]).1.wf()
                && spec_col_pos(self.col_to_idx@, self.indexes@[x].0@) is Some
        &&& forall|x: int, f: Field|
            0 <= x < self.indexes@.len() ==> match #[trigger] self.indexes@[x].1.spec_lookup(f) {
                Some(ids) => ids == spec_matching(
                    self.rows@,
                    spec_col_pos(self.col_to_idx@, self.indexes@[x].0@)->0 as int,
                    f,
                ),
                None => spec_matching(
                    self.rows@,
                    spec_col_pos(self.col_to_idx@, self.indexes@[x].0@)->0 as int,
                    f,
                ).len() == 0,
            }
    }
}


/// Appending a row extends the matching positions by exactly the new row,
/// when it matches.
proof fn lemma_matching_push(rows: Seq<Row>, row: Row, ci: int, f: Field)
    ensures
        spec_matching(rows.push(row), ci, f) == spec_matching(rows, ci, f) + (if 0 <= ci
            < row.spec_fields().len() && spec_field_eq(row.spec_fields()[ci], f) {
            seq![rows.len() as usize]
        } else {
            Seq::<usize>::empty()
        }),
{
    assert(rows.push(row).drop_last() =~= rows);
    assert(rows.push(row).last() == row);
}

/// The selected rows are the matching positions read back from the table.
proof fn lemma_select_is_matching(rows: Seq<Row>, ci: int, f: Field)
    requires
        rows.len() <= usize::MAX,
    ensures
        spec_select(rows, ci, f).len() == spec_matching(rows, ci, f).len(),
        forall|w: int|
            0 <= w < spec_matching(rows, ci, f).len() ==> (#[trigger] spec_matching(
                rows,
                ci,
                f,
            )[w]) < rows.len() && spec_select(rows, ci, f)[w] == rows[spec_matching(
                rows,
                ci,
                f,
            )[w] as int],
    decreases rows.len(),
{
    if rows.len() > 0 {
        lemma_select_is_matching(rows.drop_last(), ci, f);
        let pm = spec_matching(rows.drop_last(), ci, f);
        let ps = spec_select(rows.drop_last(), ci, f);
        assert forall|w: int|
            0 <= w < spec_matching(rows, ci, f).len() implies (#[trigger] spec_matching(
            rows,
            ci,
            f,
        )[w]) < rows.len() && spec_select(rows, ci, f)[w] == rows[spec_matching(rows, ci, f)[w] as int] by {
            let hit = 0 <= ci < rows.last().spec_fields().len() && spec_field_eq(
                rows.last().spec_fields()[ci],
                f,
            );
            assert(spec_matching(rows, ci, f) == pm + (if hit {
                seq![(rows.len() - 1) as usize]
            } else {
                Seq::<usize>::empty()
            }));
            assert(spec_select(rows, ci, f) == ps + (if hit {
                seq![rows.last()]
            } else {
                Seq::<Row>::empty()
            }));
            if w < pm.len() {
                assert(spec_matching(rows, ci, f)[w] == pm[w]);
                assert(spec_select(rows, ci, f)[w] == ps[w]);
                assert(ps[w] == rows.drop_last()[pm[w] as int]);
                assert(rows.drop_last()[pm[w] as int] == rows[pm[w] as int]);
            } else {
                assert(hit);
                assert(spec_matching(rows, ci, f)[w] == (rows.len() - 1) as usize);
                assert(spec_select(rows, ci, f)[w] == rows.last());
            }
            assert(spec_matching(rows, ci, f)[w] < rows.len());
            assert(spec_select(rows, ci, f)[w] == rows[spec_matching(rows, ci, f)[w] as int]);
        }
    }
}

impl Database {
    /// Creates a new database. `columns` is a list of names of columns,
    /// and `indexed` is a list of column names that the database should
    /// build indexes for.  Column names must be distinct, and every
    /// indexed name must be a column.
    pub fn new(columns: Vec<String>, indexed: Vec<String>) -> (db: Database)
        requires
            forall|a: int, b: int|
                0 <= a < b < columns@.len() ==> (#[trigger] columns@[a])@ != (
                #[trigger] columns@[b])@,
            forall|x: int| 0 <= x < indexed@.len() ==> is_column(columns@, (#[trigger] indexed@[x])@),
        ensures
            db.wf(),
            db.spec_rows() == Seq::<Row>::empty(),
            db.spec_columns() == columns@.map_values(|c: String| c@),
    {
        let nc = columns.len();
        let mut col_to_idx: Vec<(String, usize)> = Vec::new();
        for i in 0..nc
            invariant
                nc == columns@.len(),
                col_to_idx@.len() == i,
                forall|k: int|
                    0 <= k < i ==> #[trigger] col_to_idx@[k] == (columns@[k], k as usize),
        {
            col_to_idx.push((columns[i].clone(), i));
        }
        let ni = indexed.len();
        let mut indexes: Vec<(String, Index)> = Vec::new();
        for x in 0..ni
            invariant
                ni == indexed@.len(),
                nc == columns@.len(),
                col_to_idx@.len() == nc,
                forall|k: int|
                    0 <= k < nc ==> #[trigger] col_to_idx@[k] == (columns@[k], k as usize),
                forall|x2: int|
                    0 <= x2 < indexed@.len() ==> is_column(columns@, (#[trigger] indexed@[x2])@),
                indexes@.len() == x,
                forall|k: int|
                    0 <= k < x ==> (#[trigger] indexes@[k]).0@ == indexed@[k]@ && indexes@[k].1.wf()
                        && (forall|f: Field| (#[trigger] indexes@[k].1.spec_lookup(f)) is None),
        {
            indexes.push((indexed[x].clone(), Index::new()));
        }
        let db = Database { col_to_idx, indexes, rows: Vec::new() };
        proof {
            assert forall|x: int|
                0 <= x < db.indexes@.len() implies (#[trigger] db.indexes@[x]).1.wf()
                && spec_col_pos(db.col_to_idx@, db.indexes@[x].0@) is Some by {
                assert(is_column(columns@, indexed@[x]@));
                let c = choose|c: int|
                    0 <= c < columns@.len() && (#[trigger] columns@[c])@ == indexed@[x]@;
                lemma_col_pos_found(db.col_to_idx@, indexed@[x]@, c);
            }
            assert forall|x: int, f: Field|
                0 <= x < db.indexes@.len() implies match #[trigger] db.indexes@[x].1.spec_lookup(
                f,
            ) {
                Some(ids) => ids == spec_matching(
                    db.rows@,
                    spec_col_pos(db.col_to_idx@, db.indexes@[x].0@)->0 as int,
                    f,
                ),
                None => spec_matching(
                    db.rows@,
                    spec_col_pos(db.col_to_idx@, db.indexes@[x].0@)->0 as int,
                    f,
                ).len() == 0,
            } by {
                assert(db.indexes@[x].1.spec_lookup(f) is None);
            }
            assert(db.spec_columns() =~= columns@.map_values(|c: String| c@));
        }
        db
    }

    /// Inserts a row into the database, updating indexes as necessary.
    pub fn insert(&mut self, row: Row)
        requires
            old(self).wf(),
            row.spec_fields().len() == old(self).spec_columns().len(),
            old(self).spec_rows().len() < usize::MAX,
        ensures
            final(self).wf(),
            final(self).spec_rows() == old(self).spec_rows().push(row),
            final(self).spec_columns() == old(self).spec_columns(),
            forall|name: Seq<char>|
                final(self).spec_position(name) == old(self).spec_position(name),
    {
        let row_index = self.rows.len();
        let nx = self.indexes.len();
        let ghost old_rows = self.rows@;
        let ghost cols = self.col_to_idx@;
        for x in 0..nx
            invariant
                nx == self.indexes@.len(),
                self.rows@ == old_rows,
                self.col_to_idx@ == cols,
                self.col_to_idx == old(self).col_to_idx,
                self.rows == old(self).rows,
                row_index == old_rows.len(),
                row.spec_fields().len() == cols.len(),
                old_rows.len() < usize::MAX,
                forall|k: int| 0 <= k < cols.len() ==> (#[trigger] cols[k]).1 == k,
                forall|r: int|
                    0 <= r < old_rows.len() ==> (#[trigger] old_rows[r]).spec_fields().len()
                        == cols.len(),
                forall|x2: int|
                    0 <= x2 < self.indexes@.len() ==> (#[trigger] self.indexes@[x2]).1.wf()
                        && spec_col_pos(cols, self.indexes@[x2].0@) is Some,
                forall|x2: int|
                    0 <= x2 < self.indexes@.len() ==> (#[trigger] self.indexes@[x2]).0
                        == old(self).indexes@[x2].0,
                forall|x2: int, f: Field|
                    x <= x2 < self.indexes@.len() ==> match #[trigger] self.indexes@[x2].1.spec_lookup(
                        f,
                    ) {
                        Some(ids) => ids == spec_matching(
                            old_rows,
                            spec_col_pos(cols, self.indexes@[x2].0@)->0 as int,
                            f,
                        ),
                        None => spec_matching(
                            old_rows,
                            spec_col_pos(cols, self.indexes@[x2].0@)->0 as int,
                            f,
                        ).len() == 0,
                    },
                forall|x2: int, f: Field|
                    0 <= x2 < x ==> match #[trigger] self.indexes@[x2].1.spec_lookup(f) {
                        Some(ids) => ids == spec_matching(
                            old_rows.push(row),
                            spec_col_pos(cols, self.indexes@[x2].0@)->0 as int,
                            f,
                        ),
                        None => spec_matching(
                            old_rows.push(row),
                            spec_col_pos(cols, self.indexes@[x2].0@)->0 as int,
                            f,
                        ).len() == 0,
                    },
        {
            let ghost before_ix = self.indexes@;
            let ci = self.position_of(x);
            let field = self.row_field(&row, ci);
            let ghost ci_spec = spec_col_pos(cols, self.indexes@[x as int].0@)->0 as int;
            let entry = &mut self.indexes[x];
            let ghost old_ix = entry.1;
            entry.1.update(field, row_index);
            proof {
                assert(self.indexes@.len() == before_ix.len());
                assert(forall|x2: int|
                    0 <= x2 < self.indexes@.len() && x2 != x ==> #[trigger] self.indexes@[x2]
                        == before_ix[x2]);
                assert(self.indexes@[x as int].0 == before_ix[x as int].0);
                assert forall|f: Field|
                    true implies match #[trigger] self.indexes@[x as int].1.spec_lookup(f) {
                    Some(ids) => ids == spec_matching(old_rows.push(row), ci_spec, f),
                    None => spec_matching(old_rows.push(row), ci_spec, f).len() == 0,
                } by {
                    lemma_matching_push(old_rows, row, ci_spec, f);
                    if spec_field_eq(f, row.spec_fields()[ci_spec]) {
                        assert(spec_field_eq(row.spec_fields()[ci_spec], f));
                        assert(self.indexes@[x as int].1.spec_lookup(f) == Some(
                            match old_ix.spec_lookup(f) {
                                Some(ids) => ids.push(row_index),
                                None => seq![row_index],
                            },
                        ));
                        match old_ix.spec_lookup(f) {
                            Some(ids) => {
                                assert(ids == spec_matching(old_rows, ci_spec, f));
                                assert(spec_matching(old_rows.push(row), ci_spec, f) =~= ids.push(
                                    row_index,
                                ));
                            },
                            None => {
                                assert(spec_matching(old_rows, ci_spec, f).len() == 0);
                                assert(spec_matching(old_rows.push(row), ci_spec, f) =~= seq![
                                    row_index,
                                ]);
                            },
                        }
                    } else {
                        assert(!spec_field_eq(row.spec_fields()[ci_spec], f));
                        assert(spec_matching(old_rows.push(row), ci_spec, f) =~= spec_matching(
                            old_rows,
                            ci_spec,
                            f,
                        ));
                        assert(self.indexes@[x as int].1.spec_lookup(f) == old_ix.spec_lookup(f));
                    }
                }
            }
        }
        self.rows.push(row);
        proof {
            assert(final(self).spec_columns() =~= old(self).spec_columns());
        }
    }

    /// The column position recorded for index entry `x`.
    fn position_of(&self, x: usize) -> (ci: usize)
        requires
            x < self.indexes@.len(),
            forall|k: int|
                0 <= k < self.col_to_idx@.len() ==> (#[trigger] self.col_to_idx@[k]).1 == k,
            spec_col_pos(self.col_to_idx@, self.indexes@[x as int].0@) is Some,
        ensures
            Some(ci) == spec_col_pos(self.col_to_idx@, self.indexes@[x as int].0@),
            ci < self.col_to_idx@.len(),
    {
        let name = &self.indexes[x].0;
        let n = self.col_to_idx.len();
        proof {
            assert(self.col_to_idx@.skip(0) =~= self.col_to_idx@);
        }
        for k in 0..n
            invariant
                n == self.col_to_idx@.len(),
                x < self.indexes@.len(),
                name == self.indexes@[x as int].0,
                forall|k2: int|
                    0 <= k2 < self.col_to_idx@.len() ==> (#[trigger] self.col_to_idx@[k2]).1 == k2,
                spec_col_pos(self.col_to_idx@.skip(k as int), name@) == spec_col_pos(
                    self.col_to_idx@,
                    name@,
                ),
                forall|k2: int| 0 <= k2 < k ==> (#[trigger] self.col_to_idx@[k2]).0@ != name@,
            decreases n - k,
        {
            proof {
                assert(self.col_to_idx@.skip(k as int)[0] == self.col_to_idx@[k as int]);
                assert(self.col_to_idx@.skip(k as int).drop_first() =~= self.col_to_idx@.skip(
                    k + 1,
                ));
            }
            if self.col_to_idx[k].0 == *name {
                return self.col_to_idx[k].1;
            }
        }
        proof {
            assert(self.col_to_idx@.skip(n as int) =~= Seq::<(String, usize)>::empty());
            assert(false);
        }
        0
    }

    /// The field of `row` at column position `ci`, as a value.
    fn row_field(&self, row: &Row, ci: usize) -> (f: Field)
        requires
            ci < row.spec_fields().len(),
        ensures
            f == row.spec_fields()[ci as int],
    {
        row.fields[ci].clone()
    }

    /// Finds the rows in the database whose `column` is equal to `field`,
    /// through the column's index when one exists and by scanning
    /// otherwise.
    pub fn select(&self, column: &str, field: &Field) -> (r: Vec<Row>)
        requires
            self.wf(),
            self.spec_position(column@) is Some,
        ensures
            ({
                let sel = spec_select(
                    self.spec_rows(),
                    self.spec_position(column@)->0 as int,
                    *field,
                );
                r@.len() == sel.len() && forall|w: int|
                    0 <= w < sel.len() ==> (#[trigger] r@[w]).spec_fields()
                        == sel[w].spec_fields()
            }),
    {
        let ghost ci_spec = self.spec_position(column@)->0 as int;
        let rows_len = self.rows.len();
        proof {
            assert(self.rows@.len() == rows_len);
        }
        let column_string = column.to_owned();
        let nx = self.indexes.len();
        let mut which: Option<usize> = None;
        for x in 0..nx
            invariant
                self.wf(),
                nx == self.indexes@.len(),
                column_string@ == column@,
                which is None ==> forall|x2: int|
                    0 <= x2 < x ==> (#[trigger] self.indexes@[x2]).0@ != column@,
                match which {
                    Some(w) => w < nx && self.indexes@[w as int].0@ == column@,
                    None => true,
                },
            decreases nx - x,
        {
            if self.indexes[x].0 == column_string {
                which = Some(x);
                break ;
            }
        }
        match which {
            Some(x) => {
                proof {
                    lemma_col_pos_unique(self.col_to_idx@, self.indexes@[x as int].0@);
                }
                match self.indexes[x].1.lookup(field) {
                    Some(ids) => {
                        proof {
                            assert(self.indexes@[x as int].1.spec_lookup(*field) == Some(ids@));
                            assert(ids@ == spec_matching(self.rows@, ci_spec, *field));
                            lemma_select_is_matching(self.rows@, ci_spec, *field);
                        }
                        let m = ids.len();
                        let mut out: Vec<Row> = Vec::new();
                        for w in 0..m
                            invariant
                                m == ids@.len(),
                                ids@ == spec_matching(self.rows@, ci_spec, *field),
                                self.rows@.len() <= usize::MAX,
                                self.wf(),
                                out@.len() == w,
                                forall|w2: int|
                                    0 <= w2 < w ==> (#[trigger] out@[w2]).spec_fields()
                                        == spec_select(
                                        self.rows@,
                                        ci_spec,
                                        *field,
                                    )[w2].spec_fields(),
                            decreases m - w,
                        {
                            proof {
                                lemma_select_is_matching(self.rows@, ci_spec, *field);
                                assert(ids@[w as int] < self.rows@.len());
                            }
                            out.push(self.rows[ids[w]].clone());
                        }
                        proof {
                            lemma_select_is_matching(self.rows@, ci_spec, *field);
                        }
                        out
                    },
                    None => {
                        proof {
                            assert(spec_matching(self.rows@, ci_spec, *field).len() == 0);
                            lemma_select_is_matching(self.rows@, ci_spec, *field);
                        }
                        Vec::new()
                    },
                }
            },
            None => {
                let ci = self.find_position(column);
                let n = self.rows.len();
                let mut out: Vec<Row> = Vec::new();
                for i in 0..n
                    invariant
                        n == self.rows@.len(),
                        self.wf(),
                        ci as int == ci_spec,
                        ci < self.spec_columns().len(),
                        ({
                            let sel = spec_select(self.rows@.take(i as int), ci_spec, *field);
                            out@.len() == sel.len() && forall|w2: int|
                                0 <= w2 < sel.len() ==> (#[trigger] out@[w2]).spec_fields()
                                    == sel[w2].spec_fields()
                        }),
                    decreases n - i,
                {
                    proof {
                        assert(self.rows@.take(i + 1).drop_last() =~= self.rows@.take(i as int));
                        assert(self.rows@.take(i + 1).last() == self.rows@[i as int]);
                        assert(self.rows@[i as int].spec_fields().len()
                            == self.col_to_idx@.len());
                    }
                    if field_eq(&self.rows[i].fields[ci], field) {
                        out.push(self.rows[i].clone());
                    }
                }
                proof {
                    assert(self.rows@.take(n as int) =~= self.rows@);
                }
                out
            },
        }
    }

    /// The position of a column name among the columns.
    fn find_position(&self, column: &str) -> (ci: usize)
        requires
            forall|k: int|
                0 <= k < self.col_to_idx@.len() ==> (#[trigger] self.col_to_idx@[k]).1 == k,
            spec_col_pos(self.col_to_idx@, column@) is Some,
        ensures
            Some(ci) == spec_col_pos(self.col_to_idx@, column@),
            ci < self.col_to_idx@.len(),
    {
        let column_string = column.to_owned();
        let n = self.col_to_idx.len();
        proof {
            assert(self.col_to_idx@.skip(0) =~= self.col_to_idx@);
        }
        for k in 0..n
            invariant
                n == self.col_to_idx@.len(),
                column_string@ == column@,
                forall|k2: int|
                    0 <= k2 < self.col_to_idx@.len() ==> (#[trigger] self.col_to_idx@[k2]).1 == k2,
                spec_col_pos(self.col_to_idx@.skip(k as int), column@) == spec_col_pos(
                    self.col_to_idx@,
                    column@,
                ),
            decreases n - k,
        {
            proof {
                assert(self.col_to_idx@.skip(k as int)[0] == self.col_to_idx@[k as int]);
                assert(self.col_to_idx@.skip(k as int).drop_first() =~= self.col_to_idx@.skip(
                    k + 1,
                ));
            }
            if self.col_to_idx[k].0 == column_string {
                return self.col_to_idx[k].1;
            }
        }
        proof {
            assert(self.col_to_idx@.skip(n as int) =~= Seq::<(String, usize)>::empty());
            assert(false);
        }
        0
    }
}

/// When column `c` carries `name`, the name resolves to some position.
proof fn lemma_col_pos_found(cols: Seq<(String, usize)>, name: Seq<char>, c: int)
    requires
        0 <= c < cols.len(),
        cols[c].0@ == name,
    ensures
        spec_col_pos(cols, name) is Some,
    decreases cols.len(),
{
    if cols.len() > 0 && cols[0].0@ != name {
        assert(cols.drop_first()[c - 1] == cols[c]);
        lemma_col_pos_found(cols.drop_first(), name, c - 1);
    }
}

/// A resolvable name resolves to the recorded position of some column
/// carrying it.
proof fn lemma_col_pos_unique(cols: Seq<(String, usize)>, name: Seq<char>)
    requires
        spec_col_pos(cols, name) is Some,
    ensures
        exists|c: int|
            0 <= c < cols.len() && (#[trigger] cols[c]).0@ == name && cols[c].1 == spec_col_pos(
                cols,
                name,
            )->0,
    decreases cols.len(),
{
    if cols.len() > 0 {
        if cols[0].0@ == name {
            assert(cols[0].0@ == name && cols[0].1 == spec_col_pos(cols, name)->0);
        } else {
            lemma_col_pos_unique(cols.drop_first(), name);
            let c = choose|c: int|
                0 <= c < cols.drop_first().len() && (#[trigger] cols.drop_first()[c]).0@ == name
                    && cols.drop_first()[c].1 == spec_col_pos(cols.drop_first(), name)->0;
            assert(cols[c + 1] == cols.drop_first()[c]);
            assert((cols[c + 1]).0@ == name && cols[c + 1].1 == spec_col_pos(cols, name)->0);
        }
    }
}

} // verus!
