use vstd::prelude::*;
use vstd::string::*;
use crate::casing::{camel_of, to_camel_case};
use crate::render::{render_entity, rendered_of, RenderColumn};
use crate::text::{has_prefix, has_suffix, str_eq, str_has_prefix, str_has_suffix};
use crate::types::{ColModel, ColumnDescription, GenErrModel, GenError, TableDescription, TableModel, gen_err_matches};

verus! {

/// The fixed boilerplate every generated sqlalchemy artifact starts with.
pub const PY_HEADER: &'static str = "\nimport sqlalchemy as sa\nimport sqlalchemy.dialects.postgresql as pg\nfrom sqlalchemy.ext.declarative import declarative_base\nimport ast\nimport geoalchemy2\n\nBase = declarative_base()\nmetadata = Base.metadata\n\ndef _make_geometry_type(name):\n    class MyType(sa.types.UserDefinedType):\n        comparator_factory = geoalchemy2.comparator.Comparator\n\n        def get_col_spec(self, **kw):\n            return name\n\n        def bind_processor(self, dialect):\n            def process(value):\n                return value\n\n            return process\n\n        def result_processor(self, dialect, coltype):\n            def process(value):\n                return ast.literal_eval(value)\n\n            return process\n\n    return MyType\n\n\n_PgPolygon = _make_geometry_type(\"polygon\")\n_PgBox = _make_geometry_type(\"box\")\n\n";

/// The tera template for one sqlalchemy entity block.
pub const PY_TEMPLATE: &'static str = "\nclass {{ table_name_camel_cased }}(Base):\n    __tablename__ = \"{{ table_name }}\"\n    __table_args__ = {\"schema\": \"{{ schema }}\"}\n{% for c in pk_columns %}    {{ c[0] }} = sa.Column({{ c[1] }}, primary_key=True)\n{% endfor %}{% for c in columns %}    {{ c[0] }} = sa.Column({{ c[1] }})\n{% endfor %}\n";

/// The sqlalchemy mapping of one scalar database type name; `None` for a
/// name outside the allow-list.
pub open spec fn py_scalar_of(t: Seq<char>) -> Option<Seq<char>> {
    if t == "boolean"@ {
        Some("sa.Boolean"@)
    } else if t == "integer"@ {
        Some("sa.Integer"@)
    } else if t == "double precision"@ {
        Some("sa.Float"@)
    } else if t == "single precision"@ {
        Some("sa.Float"@)
    } else if t == "real"@ {
        Some("sa.Float"@)
    } else if t == "bigint"@ {
        Some("sa.BigInteger"@)
    } else if has_prefix(t, "character varying"@) {
        Some("sa.String"@)
    } else if t == "text"@ {
        Some("sa.Text"@)
    } else if t == "uuid"@ {
        Some("pg.UUID"@)
    } else if has_prefix(t, "timestamp"@) && has_suffix(t, "range"@) {
        Some("pg.TSTZRANGE"@)
    } else if has_prefix(t, "timestamp"@) {
        Some("sa.DateTime(True)"@)
    } else if t == "jsonb"@ {
        Some("pg.JSONB"@)
    } else if t == "json"@ {
        Some("sa.JSON"@)
    } else if t == "interval"@ {
        Some("pg.INTERVAL"@)
    } else if t == "date"@ {
        Some("sa.Date"@)
    } else if t == "tstzrange"@ {
        Some("pg.TSTZRANGE"@)
    } else if t == "bytea"@ {
        Some("sa.LargeBinary"@)
    } else if t == "inet"@ {
        Some("pg.INET"@)
    } else if t == "int4range"@ {
        Some("pg.INT4RANGE"@)
    } else if t == "numeric"@ {
        Some("sa.Numeric"@)
    } else if t == "character"@ {
        Some("sa.CHAR"@)
    } else if t == "box"@ {
        Some("_PgBox"@)
    } else if t == "polygon"@ {
        Some("_PgPolygon"@)
    } else {
        None
    }
}

/// Looks one scalar type name up in the sqlalchemy allow-list.
pub fn get_scalar_py_type(pg_type: &String) -> (r: Option<String>)
    ensures
        r.deep_view() == py_scalar_of(pg_type@),
{
    let s = pg_type.as_str();
    if str_eq(s, "boolean") {
        Some(String::from_str("sa.Boolean"))
    } else if str_eq(s, "integer") {
        Some(String::from_str("sa.Integer"))
    } else if str_eq(s, "double precision") {
        Some(String::from_str("sa.Float"))
    } else if str_eq(s, "single precision") {
        Some(String::from_str("sa.Float"))
    } else if str_eq(s, "real") {
        Some(String::from_str("sa.Float"))
    } else if str_eq(s, "bigint") {
        Some(String::from_str("sa.BigInteger"))
    } else if str_has_prefix(s, "character varying") {
        Some(String::from_str("sa.String"))
    } else if str_eq(s, "text") {
        Some(String::from_str("sa.Text"))
    } else if str_eq(s, "uuid") {
        Some(String::from_str("pg.UUID"))
    } else if str_has_prefix(s, "timestamp") && str_has_suffix(s, "range") {
        Some(String::from_str("pg.TSTZRANGE"))
    } else if str_has_prefix(s, "timestamp") {
        Some(String::from_str("sa.DateTime(True)"))
    } else if str_eq(s, "jsonb") {
        Some(String::from_str("pg.JSONB"))
    } else if str_eq(s, "json") {
        Some(String::from_str("sa.JSON"))
    } else if str_eq(s, "interval") {
        Some(String::from_str("pg.INTERVAL"))
    } else if str_eq(s, "date") {
        Some(String::from_str("sa.Date"))
    } else if str_eq(s, "tstzrange") {
        Some(String::from_str("pg.TSTZRANGE"))
    } else if str_eq(s, "bytea") {
        Some(String::from_str("sa.LargeBinary"))
    } else if str_eq(s, "inet") {
        Some(String::from_str("pg.INET"))
    } else if str_eq(s, "int4range") {
        Some(String::from_str("pg.INT4RANGE"))
    } else if str_eq(s, "numeric") {
        Some(String::from_str("sa.Numeric"))
    } else if str_eq(s, "character") {
        Some(String::from_str("sa.CHAR"))
    } else if str_eq(s, "box") {
        Some(String::from_str("_PgBox"))
    } else if str_eq(s, "polygon") {
        Some(String::from_str("_PgPolygon"))
    } else {
        None
    }
}

/// Whatever stands between the prefix and the suffix, a type name beginning
/// with `timestamp` and ending with `range` maps to the range type, never to
/// the plain timestamp mapping.
pub proof fn lemma_py_timestamp_range(t: Seq<char>)
    requires
        has_prefix(t, "timestamp"@),
        has_suffix(t, "range"@),
    ensures
        py_scalar_of(t) == Some("pg.TSTZRANGE"@),
        py_scalar_of(t) != Some("sa.DateTime(True)"@),
{
    reveal_strlit("timestamp");
    reveal_strlit("boolean");
    reveal_strlit("integer");
    reveal_strlit("double precision");
    reveal_strlit("single precision");
    reveal_strlit("real");
    reveal_strlit("bigint");
    reveal_strlit("character varying");
    reveal_strlit("text");
    reveal_strlit("uuid");
    reveal_strlit("pg.TSTZRANGE");
    reveal_strlit("sa.DateTime(True)");
    assert(t.len() >= 9);
    assert(t[0] == 't') by {
        assert(t.subrange(0, 9)[0] == t[0]);
    }
    assert(!has_prefix(t, "character varying"@)) by {
        if has_prefix(t, "character varying"@) {
            assert(t.subrange(0, 17)[0] == t[0]);
        }
    }
    assert("pg.TSTZRANGE"@.len() != "sa.DateTime(True)"@.len());
}

/// The sqlalchemy array wrapping of a scalar type expression.
pub open spec fn py_wrap(t: Seq<char>) -> Seq<char> {
    "sa.ARRAY("@ + t + ")"@
}

/// The full sqlalchemy type of a column: the scalar mapping, wrapped exactly
/// once in the array construct when the column is an array; `None` when the
/// scalar name is outside the allow-list.
pub open spec fn py_col_type_of(c: ColModel) -> Option<Seq<char>> {
    match py_scalar_of(c.pg_type) {
        Some(s) => Some(
            if c.is_array {
                py_wrap(s)
            } else {
                s
            },
        ),
        None => None,
    }
}

/// Derives the rendered sqlalchemy type of one column.
pub fn py_column_type(c: &ColumnDescription) -> (r: Option<String>)
    ensures
        r.deep_view() == py_col_type_of(c@),
{
    match get_scalar_py_type(&c.pg_type) {
        Some(s) => {
            if c.is_array {
                let mut out = String::from_str("sa.ARRAY(");
                out.append(s.as_str());
                out.append(")");
                proof {
                    assert(out@ =~= py_wrap(s@));
                }
                Some(out)
            } else {
                Some(s)
            }
        },
        None => None,
    }
}

/// Array wrapping is applied at most once: a column's derived type is the
/// scalar mapping itself, or that mapping wrapped exactly once — never a
/// wrapping of an already wrapped expression.
pub proof fn lemma_py_wrap_at_most_once(c: ColModel)
    requires
        py_scalar_of(c.pg_type) is Some,
    ensures
        ({
            let s = py_scalar_of(c.pg_type)->Some_0;
            &&& py_col_type_of(c) == Some(
                if c.is_array {
                    py_wrap(s)
                } else {
                    s
                },
            )
            &&& py_col_type_of(c) != Some(py_wrap(py_wrap(s)))
        }),
{
    reveal_strlit("sa.ARRAY(");
    reveal_strlit(")");
    let s = py_scalar_of(c.pg_type)->Some_0;
    assert(py_wrap(s).len() == s.len() + 10);
    assert(py_wrap(py_wrap(s)).len() == s.len() + 20);
}

/// The first column, in catalog order, whose scalar type the strict mapper
/// refuses; `None` when every column maps.
pub open spec fn first_unmapped(cols: Seq<ColModel>) -> Option<ColModel>
    decreases cols.len(),
{
    if cols.len() == 0 {
        None
    } else if py_scalar_of(cols[0].pg_type) is None {
        Some(cols[0])
    } else {
        first_unmapped(cols.skip(1))
    }
}

/// The rendering context rows for the columns of one pk group, in catalog
/// order, each with its sqlalchemy type. Meaningful only when every column
/// maps.
pub open spec fn pk_group(cols: Seq<ColModel>, want_pk: bool) -> Seq<ColModel>
    decreases cols.len(),
{
    if cols.len() == 0 {
        Seq::empty()
    } else {
        let prefix = pk_group(cols.drop_last(), want_pk);
        if cols.last().is_pk == want_pk {
            prefix.push(cols.last())
        } else {
            prefix
        }
    }
}

/// The rendering context row of one column: its name and its sqlalchemy type.
pub open spec fn render_pair(c: ColModel) -> (Seq<char>, Seq<char>) {
    (
        c.name,
        match py_col_type_of(c) {
            Some(t) => t,
            None => Seq::empty(),
        },
    )
}

/// The context rows of a group of columns, in order.
pub open spec fn render_rows(cols: Seq<ColModel>) -> Seq<(Seq<char>, Seq<char>)>
    decreases cols.len(),
{
    if cols.len() == 0 {
        Seq::empty()
    } else {
        render_rows(cols.drop_last()).push(render_pair(cols.last()))
    }
}

pub open spec fn py_render_cols(cols: Seq<ColModel>, want_pk: bool) -> Seq<(Seq<char>, Seq<char>)> {
    render_rows(pk_group(cols, want_pk))
}

/// Appending a column that maps leaves a fully-mapped prefix fully mapped;
/// appending one that does not map makes it the first unmapped column.
proof fn lemma_first_unmapped_push(s: Seq<ColModel>, x: ColModel)
    requires
        first_unmapped(s) is None,
    ensures
        first_unmapped(s.push(x)) == if py_scalar_of(x.pg_type) is None {
            Some(x)
        } else {
            None::<ColModel>
        },
    decreases s.len(),
{
    if s.len() == 0 {
        assert(s.push(x)[0] == x);
        assert(s.push(x).skip(1) =~= Seq::<ColModel>::empty());
    } else {
        assert(py_scalar_of(s[0].pg_type) is Some && first_unmapped(s.skip(1)) is None) by {
            assert(first_unmapped(s) == if py_scalar_of(s[0].pg_type) is None {
                Some(s[0])
            } else {
                first_unmapped(s.skip(1))
            });
        }
        assert(s.push(x)[0] == s[0]);
        assert(s.push(x).skip(1) =~= s.skip(1).push(x));
        lemma_first_unmapped_push(s.skip(1), x);
        assert(py_scalar_of(s.push(x)[0].pg_type) is Some);
        assert(first_unmapped(s.push(x)) == first_unmapped(s.push(x).skip(1)));
        assert(first_unmapped(s.push(x).skip(1)) == first_unmapped(s.skip(1).push(x)));
    }
}

/// When everything before position `i` maps and the column at `i` does not,
/// that column is the first unmapped one of the whole sequence.
proof fn lemma_first_unmapped_at(s: Seq<ColModel>, i: int)
    requires
        0 <= i < s.len(),
        first_unmapped(s.take(i)) is None,
        py_scalar_of(s[i].pg_type) is None,
    ensures
        first_unmapped(s) == Some(s[i]),
    decreases i,
{
    if i == 0 {
        assert(s[0] == s[i]);
    } else {
        assert(s.take(i)[0] == s[0]);
        assert(s.take(i).skip(1) =~= s.skip(1).take(i - 1));
        assert(s.skip(1)[i - 1] == s[i]);
        lemma_first_unmapped_at(s.skip(1), i - 1);
    }
}

/// Builds the rendering context rows of one table under the strict dialect:
/// the non-key columns and the primary-key columns, each with its sqlalchemy
/// type; fails on the first column whose type is outside the allow-list.
pub fn build_py_context(table: &TableDescription) -> (r: Result<
    (Vec<RenderColumn>, Vec<RenderColumn>),
    GenError,
>)
    ensures
        r matches Ok(p) ==> first_unmapped(table@.columns) is None && p.0.deep_view()
            == py_render_cols(table@.columns, false) && p.1.deep_view() == py_render_cols(
            table@.columns,
            true,
        ),
        r matches Err(e) ==> (first_unmapped(table@.columns) matches Some(c) && gen_err_matches(
            e,
            GenErrModel::Unmapped { table: table.name@, column: c.name, pg_type: c.pg_type },
        )),
{
    let cols = &table.columns;
    let ghost dv = table@.columns;
    let mut plain: Vec<RenderColumn> = Vec::new();
    let mut pks: Vec<RenderColumn> = Vec::new();
    let mut i: usize = 0;
    proof {
        assert(dv.take(0) =~= Seq::<ColModel>::empty());
        assert(plain.deep_view() =~~= py_render_cols(dv.take(0), false));
        assert(pks.deep_view() =~~= py_render_cols(dv.take(0), true));
    }
    while i < cols.len()
        invariant
            i <= cols.len(),
            dv == table@.columns,
            dv == cols.deep_view(),
            dv.len() == cols@.len(),
            first_unmapped(dv.take(i as int)) is None,
            plain.deep_view() == py_render_cols(dv.take(i as int), false),
            pks.deep_view() == py_render_cols(dv.take(i as int), true),
        decreases cols.len() - i,
    {
        let c = &cols[i];
        proof {
            assert(dv[i as int] == cols@[i as int]@);
        }
        match py_column_type(c) {
            Some(t) => {
                let rc = RenderColumn { name: c.name.clone(), col_type: t };
                let ghost x = rc@;
                let ghost old_plain = plain.deep_view();
                let ghost old_pks = pks.deep_view();
                proof {
                    lemma_first_unmapped_push(dv.take(i as int), dv[i as int]);
                    assert(dv.take(i as int).push(dv[i as int]) =~= dv.take(i as int + 1));
                }
                if c.is_pk {
                    pks.push(rc);
                    proof {
                        assert forall|j: int| 0 <= j < pks@.len() implies pks.deep_view()[j]
                            == old_pks.push(x)[j] by {}
                        assert(pks.deep_view() =~= old_pks.push(x));
                        assert(x == render_pair(dv[i as int]));
                        lemma_render_cols_push(dv, i as int);
                    }
                } else {
                    plain.push(rc);
                    proof {
                        assert forall|j: int| 0 <= j < plain@.len() implies plain.deep_view()[j]
                            == old_plain.push(x)[j] by {}
                        assert(plain.deep_view() =~= old_plain.push(x));
                        assert(x == render_pair(dv[i as int]));
                        lemma_render_cols_push(dv, i as int);
                    }
                }
            },
            None => {
                proof {
                    lemma_first_unmapped_at(dv, i as int);
                }
                return Err(
                    GenError::UnmappedType {
                        table: table.name.clone(),
                        column: c.name.clone(),
                        pg_type: c.pg_type.clone(),
                    },
                );
            },
        }
        i = i + 1;
    }
    proof {
        assert(dv.take(cols@.len() as int) =~= dv);
    }
    Ok((plain, pks))
}

/// Appending a column appends its context row.
proof fn lemma_render_rows_push(s: Seq<ColModel>, x: ColModel)
    ensures
        render_rows(s.push(x)) == render_rows(s).push(render_pair(x)),
{
    assert(s.push(x).drop_last() =~= s);
    assert(s.push(x).last() == x);
}

/// Taking one more column extends exactly one of the two groups by that
/// column's context row and leaves the other unchanged.
proof fn lemma_render_cols_push(dv: Seq<ColModel>, i: int)
    requires
        0 <= i < dv.len(),
    ensures
        dv[i].is_pk ==> py_render_cols(dv.take(i + 1), true) == py_render_cols(
            dv.take(i),
            true,
        ).push(render_pair(dv[i])) && py_render_cols(dv.take(i + 1), false) == py_render_cols(
            dv.take(i),
            false,
        ),
        !dv[i].is_pk ==> py_render_cols(dv.take(i + 1), false) == py_render_cols(
            dv.take(i),
            false,
        ).push(render_pair(dv[i])) && py_render_cols(dv.take(i + 1), true) == py_render_cols(
            dv.take(i),
            true,
        ),
{
    let longer = dv.take(i + 1);
    assert(longer.drop_last() =~= dv.take(i));
    assert(longer.last() == dv[i]);
    if dv[i].is_pk {
        assert(pk_group(longer, true) == pk_group(dv.take(i), true).push(dv[i]));
        assert(pk_group(longer, false) == pk_group(dv.take(i), false));
        lemma_render_rows_push(pk_group(dv.take(i), true), dv[i]);
    } else {
        assert(pk_group(longer, false) == pk_group(dv.take(i), false).push(dv[i]));
        assert(pk_group(longer, true) == pk_group(dv.take(i), true));
        lemma_render_rows_push(pk_group(dv.take(i), false), dv[i]);
    }
}

/// What generating one table under the strict dialect yields: the rendered
/// entity block, a failure naming the first unmapped column type, or a render
/// failure.
pub open spec fn py_entity_spec(t: TableModel) -> Result<Seq<char>, GenErrModel> {
    match first_unmapped(t.columns) {
        Some(c) => Err(
            GenErrModel::Unmapped { table: t.name, column: c.name, pg_type: c.pg_type },
        ),
        None => match rendered_of(
            PY_TEMPLATE@,
            t.name,
            camel_of(t.name),
            t.schema,
            py_render_cols(t.columns, false),
            py_render_cols(t.columns, true),
        ) {
            Some(txt) => Ok(txt),
            None => Err(GenErrModel::RenderFailed { table: t.name }),
        },
    }
}

/// Generates the entity block of one table under the strict dialect.
pub fn generate_entity(table: &TableDescription) -> (r: Result<String, GenError>)
    ensures
        r matches Ok(t) ==> py_entity_spec(table@) == Ok::<_, GenErrModel>(t@),
        r matches Err(e) ==> (py_entity_spec(table@) matches Err(m) && gen_err_matches(e, m)),
{
    let (cols, pks) = match build_py_context(table) {
        Ok(p) => p,
        Err(e) => {
            return Err(e);
        },
    };
    let entity_name = to_camel_case(&table.name);
    match render_entity(PY_TEMPLATE, &table.name, &entity_name, &table.schema, &cols, &pks) {
        Ok(text) => Ok(text),
        Err(message) => Err(GenError::RenderFailed { table: table.name.clone(), message }),
    }
}

/// What the entity blocks of all tables concatenate to, or the first failure.
pub open spec fn py_blocks_spec(tables: Seq<TableModel>) -> Result<Seq<char>, GenErrModel>
    decreases tables.len(),
{
    if tables.len() == 0 {
        Ok(Seq::empty())
    } else {
        match py_blocks_spec(tables.drop_last()) {
            Ok(acc) => match py_entity_spec(tables.last()) {
                Ok(b) => Ok(acc + b),
                Err(e) => Err(e),
            },
            Err(e) => Err(e),
        }
    }
}

/// What the whole strict-dialect run yields: the fixed header followed by one
/// entity block per table, in table order, or the first failure.
pub open spec fn py_output_spec(tables: Seq<TableModel>) -> Result<Seq<char>, GenErrModel> {
    match py_blocks_spec(tables) {
        Ok(b) => Ok(PY_HEADER@ + b),
        Err(e) => Err(e),
    }
}

/// The combined artifact of a strict run begins with the fixed boilerplate
/// header.
pub proof fn lemma_py_output_has_header(tables: Seq<TableModel>)
    ensures
        py_output_spec(tables) matches Ok(t) ==> has_prefix(t, PY_HEADER@),
{
    if py_output_spec(tables) is Ok {
        let b = py_blocks_spec(tables)->Ok_0;
        assert((PY_HEADER@ + b).subrange(0, PY_HEADER@.len() as int) =~= PY_HEADER@);
    }
}

/// A failure on a prefix of the tables decides the whole run.
proof fn lemma_py_blocks_err_prefix(tables: Seq<TableModel>, j: int, m: GenErrModel)
    requires
        0 <= j <= tables.len(),
        py_blocks_spec(tables.take(j)) == Err::<Seq<char>, _>(m),
    ensures
        py_blocks_spec(tables) == Err::<Seq<char>, _>(m),
    decreases tables.len() - j,
{
    if j == tables.len() {
        assert(tables.take(j) =~= tables);
    } else {
        assert(tables.take(j + 1).drop_last() =~= tables.take(j));
        lemma_py_blocks_err_prefix(tables, j + 1, m);
    }
}

/// Generates the one combined artifact of the strict dialect: the boilerplate
/// header, then one entity block per table in the given order. Stops at the
/// first column type outside the allow-list and at the first table whose
/// template the rendering collaborator refuses.
pub fn generate_entities(tables: &Vec<TableDescription>) -> (r: Result<String, GenError>)
    ensures
        r matches Ok(t) ==> py_output_spec(tables.deep_view()) == Ok::<_, GenErrModel>(t@),
        r matches Err(e) ==> (py_output_spec(tables.deep_view()) matches Err(m) && gen_err_matches(
            e,
            m,
        )),
{
    let mut out = String::from_str(PY_HEADER);
    let ghost dv = tables.deep_view();
    let mut i: usize = 0;
    proof {
        assert(dv.take(0) =~= Seq::<TableModel>::empty());
        assert(out@ =~= PY_HEADER@ + Seq::<char>::empty());
    }
    while i < tables.len()
        invariant
            i <= tables.len(),
            dv == tables.deep_view(),
            dv.len() == tables@.len(),
            py_blocks_spec(dv.take(i as int)) matches Ok(b) && out@ == PY_HEADER@ + b,
        decreases tables.len() - i,
    {
        let ghost pre = dv.take(i as int + 1);
        proof {
            assert(pre.drop_last() =~= dv.take(i as int));
            assert(pre.last() == dv[i as int]);
        }
        match generate_entity(&tables[i]) {
            Ok(block) => {
                out.append(block.as_str());
                proof {
                    let b0 = py_blocks_spec(dv.take(i as int))->Ok_0;
                    assert(py_blocks_spec(pre) == Ok::<_, GenErrModel>(b0 + block@));
                    assert(PY_HEADER@ + b0 + block@ =~= PY_HEADER@ + (b0 + block@));
                }
            },
            Err(e) => {
                proof {
                    let m = py_entity_spec(dv[i as int])->Err_0;
                    lemma_py_blocks_err_prefix(dv, i as int + 1, m);
                }
                return Err(e);
            },
        }
        i = i + 1;
    }
    proof {
        assert(dv.take(tables@.len() as int) =~= dv);
    }
    Ok(out)
}

} // verus!
