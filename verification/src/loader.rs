use vstd::prelude::*;
use vstd::seq_lib::lemma_multiset_commutative;
use crate::text::{lemma_lex_leq_total, lemma_lex_leq_trans, lex_leq, str_leq, string_eq};
use crate::types::{ColModel, ColumnDescription, LoadError, TableDescription, TableModel};

verus! {

/// Model of one flat catalog row.
pub ghost struct RowModel {
    pub table_schema: Seq<char>,
    pub table_name: Seq<char>,
    pub column_name: Seq<char>,
    pub column_default: Option<Seq<char>>,
    pub is_nullable: bool,
    pub is_pk: bool,
    pub data_type: Seq<char>,
    pub is_array: bool,
}

/// One flat row of the catalog query, as the catalog collaborator hands it
/// over: `data_type` is already the resolved scalar element type, array-ness
/// stands apart in `is_array`, and rows of user-defined types are already
/// excluded.
pub struct CatalogRow {
    pub table_schema: String,
    pub table_name: String,
    pub column_name: String,
    pub column_default: Option<String>,
    pub is_nullable: bool,
    pub is_pk: bool,
    pub data_type: String,
    pub is_array: bool,
}

impl View for CatalogRow {
    type V = RowModel;

    open spec fn view(&self) -> RowModel {
        RowModel {
            table_schema: self.table_schema@,
            table_name: self.table_name@,
            column_name: self.column_name@,
            column_default: self.column_default.deep_view(),
            is_nullable: self.is_nullable,
            is_pk: self.is_pk,
            data_type: self.data_type@,
            is_array: self.is_array,
        }
    }
}

impl DeepView for CatalogRow {
    type V = RowModel;

    open spec fn deep_view(&self) -> RowModel {
        self@
    }
}

/// The `(schema, table)` identity a row belongs to.
pub open spec fn row_key(r: RowModel) -> (Seq<char>, Seq<char>) {
    (r.table_schema, r.table_name)
}

/// The column a row describes.
pub open spec fn col_of_row(r: RowModel) -> ColModel {
    ColModel {
        name: r.column_name,
        pg_type: r.data_type,
        is_array: r.is_array,
        is_pk: r.is_pk,
        is_nullable: r.is_nullable,
        default_value: r.column_default,
    }
}

/// The key of a table.
pub open spec fn table_key(t: TableModel) -> (Seq<char>, Seq<char>) {
    (t.schema, t.name)
}

/// The first position holding a table with the given key, or `-1`.
pub open spec fn index_of_key(ts: Seq<TableModel>, k: (Seq<char>, Seq<char>)) -> int
    decreases ts.len(),
{
    if ts.len() == 0 {
        -1
    } else if table_key(ts[0]) == k {
        0
    } else if index_of_key(ts.skip(1), k) == -1 {
        -1
    } else {
        1 + index_of_key(ts.skip(1), k)
    }
}

/// What `index_of_key` finds: the first table of that key, or a proof that no
/// table has it.
pub proof fn lemma_index_of_key(ts: Seq<TableModel>, k: (Seq<char>, Seq<char>))
    ensures
        index_of_key(ts, k) >= -1,
        index_of_key(ts, k) == -1 ==> forall|j: int|
            0 <= j < ts.len() ==> table_key(#[trigger] ts[j]) != k,
        index_of_key(ts, k) >= 0 ==> {
            let p = index_of_key(ts, k);
            &&& p < ts.len()
            &&& table_key(ts[p]) == k
            &&& forall|j: int| 0 <= j < p ==> table_key(#[trigger] ts[j]) != k
        },
    decreases ts.len(),
{
    if ts.len() > 0 {
        lemma_index_of_key(ts.skip(1), k);
        if index_of_key(ts, k) == -1 {
            assert forall|j: int| 0 <= j < ts.len() implies table_key(#[trigger] ts[j]) != k by {
                if j >= 1 {
                    assert(ts.skip(1)[j - 1] == ts[j]);
                    assert(table_key(ts.skip(1)[j - 1]) != k);
                }
            }
        } else {
            let q = index_of_key(ts, k);
            if q > 0 {
                assert(ts.skip(1)[q - 1] == ts[q]);
                assert forall|j: int| 0 <= j < q implies table_key(#[trigger] ts[j]) != k by {
                    if j >= 1 {
                        assert(ts.skip(1)[j - 1] == ts[j]);
                        assert(table_key(ts.skip(1)[j - 1]) != k);
                    }
                }
            }
        }
    }
}

/// The first position with key `k` pins `index_of_key` down.
pub proof fn lemma_index_of_key_found(ts: Seq<TableModel>, k: (Seq<char>, Seq<char>), p: int)
    requires
        0 <= p < ts.len(),
        table_key(ts[p]) == k,
        forall|j: int| 0 <= j < p ==> table_key(#[trigger] ts[j]) != k,
    ensures
        index_of_key(ts, k) == p,
    decreases p,
{
    if p > 0 {
        assert(forall|j: int| 0 <= j < p - 1 ==> ts.skip(1)[j] == ts[j + 1]);
        assert(ts.skip(1)[p - 1] == ts[p]);
        lemma_index_of_key_found(ts.skip(1), k, p - 1);
    }
}

/// No key `k` anywhere pins `index_of_key` to `-1`.
pub proof fn lemma_index_of_key_none(ts: Seq<TableModel>, k: (Seq<char>, Seq<char>))
    requires
        forall|j: int| 0 <= j < ts.len() ==> table_key(#[trigger] ts[j]) != k,
    ensures
        index_of_key(ts, k) == -1,
    decreases ts.len(),
{
    if ts.len() > 0 {
        assert(forall|j: int| 0 <= j < ts.len() - 1 ==> ts.skip(1)[j] == ts[j + 1]);
        lemma_index_of_key_none(ts.skip(1), k);
    }
}

/// Grouping of the flat catalog rows: the first row of a `(schema, table)`
/// key creates that table, every later row of the same key appends its
/// column; tables stand in first-seen order, columns in row order.
pub open spec fn group_spec(rows: Seq<RowModel>) -> Seq<TableModel>
    decreases rows.len(),
{
    if rows.len() == 0 {
        Seq::empty()
    } else {
        let prev = group_spec(rows.drop_last());
        let r = rows.last();
        let i = index_of_key(prev, row_key(r));
        if i >= 0 {
            prev.update(
                i,
                TableModel {
                    name: prev[i].name,
                    schema: prev[i].schema,
                    columns: prev[i].columns.push(col_of_row(r)),
                },
            )
        } else {
            prev.push(
                TableModel {
                    name: r.table_name,
                    schema: r.table_schema,
                    columns: seq![col_of_row(r)],
                },
            )
        }
    }
}

/// The distinct `(schema, table)` keys of the rows, in first-seen order.
pub open spec fn distinct_keys(rows: Seq<RowModel>) -> Seq<(Seq<char>, Seq<char>)>
    decreases rows.len(),
{
    if rows.len() == 0 {
        Seq::empty()
    } else {
        let prev = distinct_keys(rows.drop_last());
        if prev.contains(row_key(rows.last())) {
            prev
        } else {
            prev.push(row_key(rows.last()))
        }
    }
}

/// The columns described by the rows of key `k`, in row order.
pub open spec fn cols_of_key(rows: Seq<RowModel>, k: (Seq<char>, Seq<char>)) -> Seq<ColModel>
    decreases rows.len(),
{
    if rows.len() == 0 {
        Seq::empty()
    } else {
        let prev = cols_of_key(rows.drop_last(), k);
        if row_key(rows.last()) == k {
            prev.push(col_of_row(rows.last()))
        } else {
            prev
        }
    }
}

/// A key outside the distinct keys has no columns.
proof fn lemma_cols_of_key_absent(rows: Seq<RowModel>, k: (Seq<char>, Seq<char>))
    requires
        !distinct_keys(rows).contains(k),
    ensures
        cols_of_key(rows, k) == Seq::<ColModel>::empty(),
    decreases rows.len(),
{
    if rows.len() > 0 {
        let prev = distinct_keys(rows.drop_last());
        assert(!prev.contains(k)) by {
            if prev.contains(k) {
                let w = choose|w: int| 0 <= w < prev.len() && prev[w] == k;
                if prev.contains(row_key(rows.last())) {
                    assert(distinct_keys(rows)[w] == k);
                } else {
                    assert(distinct_keys(rows)[w] == k);
                }
            }
        }
        assert(row_key(rows.last()) != k) by {
            if row_key(rows.last()) == k {
                if prev.contains(row_key(rows.last())) {
                } else {
                    let n = prev.len() as int;
                    assert(distinct_keys(rows)[n] == k);
                }
            }
        }
        lemma_cols_of_key_absent(rows.drop_last(), k);
    }
}

/// Grouping round trip: rows describing K distinct `(schema, table)` keys
/// yield exactly K tables, in first-seen key order, no key twice, and each
/// table holds exactly the columns of its key's rows, in row order.
pub proof fn lemma_grouping_round_trip(rows: Seq<RowModel>)
    ensures
        group_spec(rows).len() == distinct_keys(rows).len(),
        forall|i: int|
            0 <= i < group_spec(rows).len() ==> table_key(#[trigger] group_spec(rows)[i])
                == distinct_keys(rows)[i],
        forall|i: int, j: int|
            0 <= i < j < distinct_keys(rows).len() ==> distinct_keys(rows)[i] != distinct_keys(
                rows,
            )[j],
        forall|i: int|
            0 <= i < group_spec(rows).len() ==> (#[trigger] group_spec(rows)[i]).columns
                == cols_of_key(rows, table_key(group_spec(rows)[i])),
    decreases rows.len(),
{
    if rows.len() > 0 {
        lemma_grouping_round_trip(rows.drop_last());
        let prev = group_spec(rows.drop_last());
        let dk = distinct_keys(rows.drop_last());
        let r = rows.last();
        let k = row_key(r);
        let idx = index_of_key(prev, k);
        lemma_index_of_key(prev, k);
        let g = group_spec(rows);
        if idx >= 0 {
            assert(dk.contains(k)) by {
                assert(dk[idx] == k);
            }
            assert(distinct_keys(rows) == dk);
            assert forall|i: int| 0 <= i < g.len() implies (#[trigger] g[i]).columns
                == cols_of_key(rows, table_key(g[i])) by {
                if i == idx {
                    assert(g[i].columns == prev[idx].columns.push(col_of_row(r)));
                } else {
                    assert(table_key(g[i]) == dk[i]);
                    assert(dk[i] != dk[idx]);
                    assert(table_key(g[i]) != k);
                }
            }
        } else {
            assert(!dk.contains(k)) by {
                if dk.contains(k) {
                    let w = choose|w: int| 0 <= w < dk.len() && dk[w] == k;
                    assert(table_key(prev[w]) == k);
                }
            }
            assert(distinct_keys(rows) == dk.push(k));
            lemma_cols_of_key_absent(rows.drop_last(), k);
            assert forall|i: int| 0 <= i < g.len() implies (#[trigger] g[i]).columns
                == cols_of_key(rows, table_key(g[i])) by {
                if i == g.len() - 1 {
                    assert(g[i].columns =~= cols_of_key(rows, k));
                } else {
                    assert(table_key(g[i]) == dk[i]);
                    assert(table_key(g[i]) != k) by {
                        if dk[i] == k {
                            assert(dk.contains(k));
                        }
                    }
                }
            }
        }
    }
}

/// Looks for the table of a row's key among the tables built so far.
fn find_table(tables: &Vec<TableDescription>, schema: &String, name: &String) -> (r: Option<usize>)
    ensures
        match r {
            Some(p) => p < tables@.len() && index_of_key(tables.deep_view(), (schema@, name@))
                == p as int,
            None => index_of_key(tables.deep_view(), (schema@, name@)) == -1,
        },
{
    let ghost k = (schema@, name@);
    let mut p: usize = 0;
    while p < tables.len()
        invariant
            p <= tables@.len(),
            forall|j: int| 0 <= j < p ==> table_key(#[trigger] tables.deep_view()[j]) != k,
            k == (schema@, name@),
        decreases tables@.len() - p,
    {
        let t = &tables[p];
        if string_eq(&t.schema, schema.as_str()) && string_eq(&t.name, name.as_str()) {
            proof {
                lemma_index_of_key_found(tables.deep_view(), k, p as int);
            }
            return Some(p);
        }
        p = p + 1;
    }
    proof {
        lemma_index_of_key_none(tables.deep_view(), k);
    }
    None
}

/// Builds the column a row describes.
fn col_from_row(row: &CatalogRow) -> (c: ColumnDescription)
    ensures
        c@ == col_of_row(row@),
{
    let default_value = match &row.column_default {
        Some(d) => Some(d.clone()),
        None => None,
    };
    ColumnDescription {
        name: row.column_name.clone(),
        pg_type: row.data_type.clone(),
        is_array: row.is_array,
        is_pk: row.is_pk,
        is_nullable: row.is_nullable,
        default_value,
    }
}

/// Groups the flat rows into tables, exactly as `group_spec` says.
fn group_rows(rows: &Vec<CatalogRow>) -> (r: Vec<TableDescription>)
    ensures
        r.deep_view() == group_spec(rows.deep_view()),
{
    let ghost rdv = rows.deep_view();
    let mut tables: Vec<TableDescription> = Vec::new();
    let mut i: usize = 0;
    proof {
        assert(rdv.take(0) =~= Seq::<RowModel>::empty());
        assert(tables.deep_view() =~= group_spec(rdv.take(0)));
    }
    while i < rows.len()
        invariant
            i <= rows.len(),
            rdv == rows.deep_view(),
            rdv.len() == rows@.len(),
            tables.deep_view() == group_spec(rdv.take(i as int)),
        decreases rows.len() - i,
    {
        let row = &rows[i];
        let col = col_from_row(row);
        let ghost pre = rdv.take(i as int + 1);
        proof {
            assert(pre.drop_last() =~= rdv.take(i as int));
            assert(pre.last() == rdv[i as int]);
            assert(rdv[i as int] == rows@[i as int]@);
        }
        match find_table(&tables, &row.table_schema, &row.table_name) {
            Some(p) => {
                let ghost old_view = tables@;
                let ghost old_deep = tables.deep_view();
                let mut tab = tables.remove(p);
                tab.columns.push(col);
                let ghost tabsnap = tab;
                tables.insert(p, tab);
                proof {
                    let updated = TableModel {
                        name: old_deep[p as int].name,
                        schema: old_deep[p as int].schema,
                        columns: old_deep[p as int].columns.push(col_of_row(rdv[i as int])),
                    };
                    assert(tabsnap.columns.deep_view() =~= old_deep[p as int].columns.push(
                        col_of_row(rdv[i as int]),
                    ));
                    assert(tabsnap.deep_view() == updated);
                    assert(tables@ =~= old_view.update(p as int, tabsnap));
                    assert forall|j: int| 0 <= j < tables@.len() implies tables.deep_view()[j]
                        == old_deep.update(p as int, updated)[j] by {}
                    assert(tables.deep_view() =~= old_deep.update(p as int, updated));
                }
            },
            None => {
                let tab = TableDescription {
                    name: row.table_name.clone(),
                    schema: row.table_schema.clone(),
                    columns: vec![col],
                };
                let ghost old_deep = tables.deep_view();
                let ghost tabsnap = tab;
                tables.push(tab);
                proof {
                    let fresh = TableModel {
                        name: rdv[i as int].table_name,
                        schema: rdv[i as int].table_schema,
                        columns: seq![col_of_row(rdv[i as int])],
                    };
                    assert(tabsnap.columns.deep_view() =~= seq![col_of_row(rdv[i as int])]);
                    assert(tabsnap.deep_view() == fresh);
                    assert forall|j: int| 0 <= j < tables@.len() implies tables.deep_view()[j]
                        == old_deep.push(fresh)[j] by {}
                    assert(tables.deep_view() =~= old_deep.push(fresh));
                }
            },
        }
        i = i + 1;
    }
    proof {
        assert(rdv.take(rows@.len() as int) =~= rdv);
    }
    tables
}

/// Where a table sorts into an already sorted run: after every table whose
/// name does not come after its own, so that earlier tables of equal names
/// keep their place.
pub open spec fn insert_sorted(t: TableModel, s: Seq<TableModel>) -> Seq<TableModel>
    decreases s.len(),
{
    if s.len() == 0 {
        seq![t]
    } else if lex_leq(s[0].name, t.name) {
        seq![s[0]] + insert_sorted(t, s.skip(1))
    } else {
        seq![t] + s
    }
}

/// The sorted arrangement of the tables: every table inserted in turn, stably,
/// in lexicographic order of table names.
pub open spec fn sort_spec(s: Seq<TableModel>) -> Seq<TableModel>
    decreases s.len(),
{
    if s.len() == 0 {
        Seq::empty()
    } else {
        insert_sorted(s.last(), sort_spec(s.drop_last()))
    }
}

/// Non-decreasing table names, pairwise.
pub open spec fn sorted_by_name(s: Seq<TableModel>) -> bool {
    forall|i: int, j: int| 0 <= i <= j < s.len() ==> lex_leq(#[trigger] s[i].name, #[trigger] s[j].name)
}

/// Inserting at the scanned position is what `insert_sorted` means.
proof fn lemma_insert_sorted_at(t: TableModel, s: Seq<TableModel>, p: int)
    requires
        0 <= p <= s.len(),
        forall|j: int| 0 <= j < p ==> lex_leq(#[trigger] s[j].name, t.name),
        p < s.len() ==> !lex_leq(s[p].name, t.name),
    ensures
        insert_sorted(t, s) == s.take(p) + seq![t] + s.skip(p),
    decreases p,
{
    if s.len() == 0 {
        assert(s.take(0) + seq![t] + s.skip(0) =~= seq![t]);
    } else if p == 0 {
        if lex_leq(s[0].name, t.name) {
            assert(false);
        }
        assert(s.take(0) + seq![t] + s.skip(0) =~= seq![t] + s);
    } else {
        assert(forall|j: int| 0 <= j < p - 1 ==> s.skip(1)[j] == s[j + 1]);
        assert(p - 1 < s.skip(1).len() ==> s.skip(1)[p - 1] == s[p]);
        lemma_insert_sorted_at(t, s.skip(1), p - 1);
        assert(seq![s[0]] + (s.skip(1).take(p - 1) + seq![t] + s.skip(1).skip(p - 1)) =~= s.take(p)
            + seq![t] + s.skip(p));
    }
}

/// Insertion adds exactly the one table.
pub proof fn lemma_insert_sorted_multiset(t: TableModel, s: Seq<TableModel>)
    ensures
        insert_sorted(t, s).to_multiset() =~= s.to_multiset().insert(t),
        insert_sorted(t, s).len() == s.len() + 1,
    decreases s.len(),
{
    broadcast use vstd::seq_lib::group_to_multiset_ensures;

    if s.len() == 0 {
        assert(seq![t] =~= Seq::<TableModel>::empty().push(t));
    } else if lex_leq(s[0].name, t.name) {
        lemma_insert_sorted_multiset(t, s.skip(1));
        lemma_multiset_commutative(seq![s[0]], insert_sorted(t, s.skip(1)));
        lemma_multiset_commutative(seq![s[0]], s.skip(1));
        assert(seq![s[0]] + s.skip(1) =~= s);
    } else {
        lemma_multiset_commutative(seq![t], s);
        assert(seq![t] =~= Seq::<TableModel>::empty().push(t));
    }
}

/// Every name of the run bounds the inserted run from below, provided it
/// bounds both the table and the run.
proof fn lemma_insert_sorted_bound(t: TableModel, s: Seq<TableModel>, b: Seq<char>)
    requires
        lex_leq(b, t.name),
        forall|j: int| 0 <= j < s.len() ==> lex_leq(b, #[trigger] s[j].name),
    ensures
        forall|k: int|
            0 <= k < insert_sorted(t, s).len() ==> lex_leq(b, #[trigger] insert_sorted(t, s)[k].name),
    decreases s.len(),
{
    if s.len() == 0 {
    } else if lex_leq(s[0].name, t.name) {
        assert(forall|j: int| 0 <= j < s.skip(1).len() ==> s.skip(1)[j] == s[j + 1]);
        lemma_insert_sorted_bound(t, s.skip(1), b);
        assert(forall|k: int|
            1 <= k < insert_sorted(t, s).len() ==> insert_sorted(t, s)[k] == insert_sorted(
                t,
                s.skip(1),
            )[k - 1]);
    } else {
        assert(forall|k: int|
            1 <= k < insert_sorted(t, s).len() ==> insert_sorted(t, s)[k] == s[k - 1]);
    }
}

/// Insertion keeps the run sorted.
pub proof fn lemma_insert_sorted_sorted(t: TableModel, s: Seq<TableModel>)
    requires
        sorted_by_name(s),
    ensures
        sorted_by_name(insert_sorted(t, s)),
    decreases s.len(),
{
    if s.len() == 0 {
        lemma_lex_leq_total(t.name, t.name);
    } else if lex_leq(s[0].name, t.name) {
        let rest = insert_sorted(t, s.skip(1));
        assert(forall|j: int| 0 <= j < s.skip(1).len() ==> s.skip(1)[j] == s[j + 1]);
        lemma_insert_sorted_sorted(t, s.skip(1));
        lemma_insert_sorted_bound(t, s.skip(1), s[0].name);
        let r = insert_sorted(t, s);
        assert(forall|k: int| 1 <= k < r.len() ==> r[k] == rest[k - 1]);
        assert(r[0] == s[0]);
        assert forall|i: int, j: int| 0 <= i <= j < r.len() implies lex_leq(
            #[trigger] r[i].name,
            #[trigger] r[j].name,
        ) by {
            if i == 0 && j == 0 {
                lemma_lex_leq_total(r[0].name, r[0].name);
            } else if i == 0 {
                assert(lex_leq(s[0].name, rest[j - 1].name));
            } else {
                assert(lex_leq(rest[i - 1].name, rest[j - 1].name));
            }
        }
    } else {
        let r = insert_sorted(t, s);
        assert(forall|k: int| 1 <= k < r.len() ==> r[k] == s[k - 1]);
        assert(r[0] == t);
        lemma_lex_leq_total(s[0].name, t.name);
        assert forall|i: int, j: int| 0 <= i <= j < r.len() implies lex_leq(
            #[trigger] r[i].name,
            #[trigger] r[j].name,
        ) by {
            if i == 0 && j == 0 {
                lemma_lex_leq_total(t.name, t.name);
            } else if i == 0 {
                lemma_lex_leq_trans(t.name, s[0].name, s[j - 1].name);
            } else {
                assert(lex_leq(s[i - 1].name, s[j - 1].name));
            }
        }
    }
}

/// The sorted arrangement is sorted and holds exactly the given tables.
pub proof fn lemma_sort_spec(s: Seq<TableModel>)
    ensures
        sorted_by_name(sort_spec(s)),
        sort_spec(s).to_multiset() =~= s.to_multiset(),
        sort_spec(s).len() == s.len(),
    decreases s.len(),
{
    broadcast use vstd::seq_lib::group_to_multiset_ensures;

    if s.len() > 0 {
        lemma_sort_spec(s.drop_last());
        lemma_insert_sorted_sorted(s.last(), sort_spec(s.drop_last()));
        lemma_insert_sorted_multiset(s.last(), sort_spec(s.drop_last()));
        assert(s.drop_last().push(s.last()) =~= s);
    }
}

/// The position a table sorts into: right after every table already placed
/// whose name does not come after its own.
fn insertion_point(out: &Vec<TableDescription>, t: &TableDescription) -> (p: usize)
    ensures
        p <= out@.len(),
        forall|j: int| 0 <= j < p ==> lex_leq(#[trigger] out.deep_view()[j].name, t.name@),
        p < out@.len() ==> !lex_leq(out.deep_view()[p as int].name, t.name@),
{
    let mut p: usize = 0;
    loop
        invariant
            p <= out@.len(),
            forall|j: int| 0 <= j < p ==> lex_leq(#[trigger] out.deep_view()[j].name, t.name@),
        decreases out@.len() - p,
    {
        if p == out.len() {
            return p;
        }
        if !str_leq(out[p].name.as_str(), t.name.as_str()) {
            return p;
        }
        p = p + 1;
    }
}

/// Sorts the grouped tables by name, stably.
fn sort_tables(input: Vec<TableDescription>) -> (out: Vec<TableDescription>)
    ensures
        out.deep_view() == sort_spec(input.deep_view()),
{
    let ghost idv = input.deep_view();
    let mut out: Vec<TableDescription> = Vec::new();
    let mut i: usize = 0;
    proof {
        assert(idv.take(0) =~= Seq::<TableModel>::empty());
        assert(out.deep_view() =~= sort_spec(idv.take(0)));
    }
    let n = input.len();
    let mut rest = input;
    for i in 0..n
        invariant
            n == rest@.len() + i,
            idv.len() == n,
            forall|j: int| 0 <= j < rest@.len() ==> rest@[j].deep_view() == idv[j + i],
            out.deep_view() == sort_spec(idv.take(i as int)),
    {
        let t = rest.remove(0);
        let ghost tm = idv[i as int];
        let p = insertion_point(&out, &t);
        proof {
            lemma_insert_sorted_at(tm, out.deep_view(), p as int);
        }
        let ghost old_deep = out.deep_view();
        out.insert(p, t);
        proof {
            assert forall|j: int| 0 <= j < out@.len() implies out.deep_view()[j]
                == old_deep.insert(p as int, tm)[j] by {}
            assert(out.deep_view() =~= old_deep.insert(p as int, tm));
            assert(old_deep.take(p as int) + seq![tm] + old_deep.skip(p as int) =~= old_deep.insert(
                p as int,
                tm,
            ));
            assert(idv.take(i as int + 1).drop_last() =~= idv.take(i as int));
            assert(idv.take(i as int + 1).last() == idv[i as int]);
            assert(forall|j: int|
                0 <= j < rest@.len() ==> rest@[j].deep_view() == idv[j + i + 1]);
        }
    }
    proof {
        assert(idv.take(n as int) =~= idv);
    }
    out
}

/// The whole schema model a row stream yields: the rows grouped into tables
/// and the tables sorted by name; the empty stream is refused.
pub open spec fn load_spec(rows: Seq<RowModel>) -> Result<Seq<TableModel>, LoadError> {
    if rows.len() == 0 {
        Err(LoadError::EmptySchema)
    } else {
        Ok(sort_spec(group_spec(rows)))
    }
}

/// Builds the schema model from the catalog's flat rows: groups them into
/// tables and returns the tables sorted by name. Zero eligible rows are a
/// hard failure, never an empty success.
pub fn tables_from_rows(rows: &Vec<CatalogRow>) -> (r: Result<Vec<TableDescription>, LoadError>)
    ensures
        rows@.len() == 0 <==> r is Err,
        r matches Err(e) ==> e is EmptySchema,
        r matches Ok(ts) ==> ts.deep_view() == sort_spec(group_spec(rows.deep_view())),
{
    if rows.len() == 0 {
        return Err(LoadError::EmptySchema);
    }
    let grouped = group_rows(rows);
    Ok(sort_tables(grouped))
}

} // verus!
