use vstd::prelude::*;
use vstd::string::*;
use crate::casing::{camel_of, to_camel_case};
use crate::render::{render_entity, rendered_of, RenderColumn};
use crate::text::{has_prefix, has_suffix, str_eq, str_has_prefix, str_has_suffix};
use crate::types::{ColModel, ColumnDescription, GenErrModel, GenError, TableDescription, TableModel, gen_err_matches};

verus! {

/// The fixed boilerplate every generated typeorm file starts with.
pub const TS_HEADER: &'static str = "import { Column, Entity } from \"typeorm\";\n\n";

/// The tera template for one typeorm entity block.
pub const TS_TEMPLATE: &'static str = "@Entity(\"{{ table_name }}\", { schema: \"{{ schema }}\" })\nexport class {{ table_name_camel_cased }} {\n{% for c in columns %}  @Column()\n  {{ c[0] }}: {{ c[1] }};\n\n{% endfor %}}\n";

/// The typeorm mapping of one scalar database type name; `None` for a name
/// outside the allow-list.
pub open spec fn ts_scalar_of(t: Seq<char>) -> Option<Seq<char>> {
    if t == "boolean"@ {
        Some("boolean"@)
    } else if t == "integer"@ {
        Some("number"@)
    } else if t == "double precision"@ {
        Some("number"@)
    } else if t == "bigint"@ {
        Some("BigInt"@)
    } else if has_prefix(t, "character varying"@) {
        Some("string"@)
    } else if t == "text"@ {
        Some("string"@)
    } else if t == "uuid"@ {
        Some("string"@)
    } else if has_suffix(t, "range"@) {
        Some("string"@)
    } else if has_prefix(t, "timestamp"@) {
        Some("Date"@)
    } else if t == "jsonb"@ {
        Some("object"@)
    } else if t == "json"@ {
        Some("object"@)
    } else {
        None
    }
}

/// Looks one scalar type name up in the typeorm allow-list.
pub fn get_scalar_ts_type(pg_type: &String) -> (r: Option<String>)
    ensures
        r.deep_view() == ts_scalar_of(pg_type@),
{
    let s = pg_type.as_str();
    if str_eq(s, "boolean") {
        Some(String::from_str("boolean"))
    } else if str_eq(s, "integer") {
        Some(String::from_str("number"))
    } else if str_eq(s, "double precision") {
        Some(String::from_str("number"))
    } else if str_eq(s, "bigint") {
        Some(String::from_str("BigInt"))
    } else if str_has_prefix(s, "character varying") {
        Some(String::from_str("string"))
    } else if str_eq(s, "text") {
        Some(String::from_str("string"))
    } else if str_eq(s, "uuid") {
        Some(String::from_str("string"))
    } else if str_has_suffix(s, "range") {
        Some(String::from_str("string"))
    } else if str_has_prefix(s, "timestamp") {
        Some(String::from_str("Date"))
    } else if str_eq(s, "jsonb") {
        Some(String::from_str("object"))
    } else if str_eq(s, "json") {
        Some(String::from_str("object"))
    } else {
        None
    }
}

/// Whatever stands between the prefix and the suffix, a type name beginning
/// with `timestamp` and ending with `range` maps to the range type, never to
/// the plain timestamp mapping.
pub proof fn lemma_ts_timestamp_range(t: Seq<char>)
    requires
        has_prefix(t, "timestamp"@),
        has_suffix(t, "range"@),
    ensures
        ts_scalar_of(t) == Some("string"@),
        ts_scalar_of(t) != Some("Date"@),
{
    reveal_strlit("timestamp");
    reveal_strlit("range");
    reveal_strlit("boolean");
    reveal_strlit("integer");
    reveal_strlit("double precision");
    reveal_strlit("bigint");
    reveal_strlit("character varying");
    reveal_strlit("text");
    reveal_strlit("uuid");
    reveal_strlit("string");
    reveal_strlit("Date");
    assert(t.len() >= 9);
    assert(t[0] == 't') by {
        assert(t.subrange(0, 9)[0] == t[0]);
    }
    assert(!has_prefix(t, "character varying"@)) by {
        if has_prefix(t, "character varying"@) {
            assert(t.subrange(0, 17)[0] == t[0]);
        }
    }
    assert("string"@.len() != "Date"@.len());
}

/// The full typeorm type of a column: the scalar mapping, wrapped exactly
/// once in the `[]` array notation when the column is an array, with the
/// dynamic fallback `any` for a scalar name outside the allow-list.
pub open spec fn ts_col_type_of(c: ColModel) -> Seq<char> {
    let scalar = match ts_scalar_of(c.pg_type) {
        Some(s) => s,
        None => "any"@,
    };
    if c.is_array {
        scalar + "[]"@
    } else {
        scalar
    }
}

/// Derives the rendered typeorm type of one column.
pub fn ts_column_type(c: &ColumnDescription) -> (r: String)
    ensures
        r@ == ts_col_type_of(c@),
{
    let scalar = match get_scalar_ts_type(&c.pg_type) {
        Some(s) => s,
        None => String::from_str("any"),
    };
    if c.is_array {
        scalar.concat("[]")
    } else {
        scalar
    }
}

/// Array wrapping is applied at most once: a column's derived type is its
/// scalar mapping (or the dynamic fallback), wrapped exactly once when the
/// column is an array and not at all otherwise.
pub proof fn lemma_ts_wrap_at_most_once(c: ColModel)
    ensures
        ({
            let scalar = match ts_scalar_of(c.pg_type) {
                Some(s) => s,
                None => "any"@,
            };
            &&& ts_col_type_of(c) == if c.is_array {
                scalar + "[]"@
            } else {
                scalar
            }
            &&& ts_col_type_of(c) != scalar + "[]"@ + "[]"@
        }),
{
    reveal_strlit("[]");
    let scalar = match ts_scalar_of(c.pg_type) {
        Some(s) => s,
        None => "any"@,
    };
    assert((scalar + "[]"@).len() == scalar.len() + 2);
    assert((scalar + "[]"@ + "[]"@).len() == scalar.len() + 4);
}

/// The rendering context rows for a table's columns: every column, in catalog
/// order, with its typeorm type.
pub open spec fn ts_render_cols(cols: Seq<ColModel>) -> Seq<(Seq<char>, Seq<char>)> {
    cols.map_values(|c: ColModel| (c.name, ts_col_type_of(c)))
}

/// Builds the rendering context rows for a table's columns.
fn build_ts_cols(cols: &Vec<ColumnDescription>) -> (r: Vec<RenderColumn>)
    ensures
        r.deep_view() == ts_render_cols(cols.deep_view()),
{
    let mut out: Vec<RenderColumn> = Vec::new();
    let mut i: usize = 0;
    proof {
        assert(out.deep_view() =~~= ts_render_cols(cols.deep_view().take(0)));
    }
    while i < cols.len()
        invariant
            i <= cols.len(),
            out@.len() == i,
            out.deep_view() == ts_render_cols(cols.deep_view().take(i as int)),
        decreases cols.len() - i,
    {
        let c = &cols[i];
        let name = c.name.clone();
        let col_type = ts_column_type(c);
        out.push(RenderColumn { name, col_type });
        proof {
            let dv = cols.deep_view();
            assert(out@.len() == i + 1);
            assert(dv[i as int] == cols@[i as int]@);
            assert(out@[i as int].deep_view() == (cols@[i as int].name@, ts_col_type_of(
                dv[i as int],
            )));
            assert(out@[i as int].deep_view() == ts_render_cols(dv.take(i as int + 1))[i as int]);
            assert forall|j: int| 0 <= j < i + 1 implies out.deep_view()[j] == ts_render_cols(
                dv.take(i as int + 1),
            )[j] by {
                if j < i {
                    assert(out@[j].deep_view() == ts_render_cols(dv.take(i as int))[j]);
                    assert(dv.take(i as int)[j] == dv.take(i as int + 1)[j]);
                }
            }
            assert(out.deep_view() =~= ts_render_cols(cols.deep_view().take(i as int + 1)));
        }
        i = i + 1;
    }
    proof {
        assert(cols.deep_view().take(cols@.len() as int) =~= cols.deep_view());
    }
    out
}

/// What rendering one table under the typeorm dialect yields, if the
/// rendering collaborator accepts the template.
pub open spec fn ts_entity_spec(t: TableModel) -> Option<Seq<char>> {
    rendered_of(
        TS_TEMPLATE@,
        t.name,
        camel_of(t.name),
        t.schema,
        ts_render_cols(t.columns),
        Seq::empty(),
    )
}

/// Model of one output artifact.
pub ghost struct ArtifactModel {
    pub file_name: Seq<char>,
    pub content: Seq<char>,
}

/// One output artifact: a file name and the text to write under it.
pub struct FileArtifact {
    pub file_name: String,
    pub content: String,
}

impl View for FileArtifact {
    type V = ArtifactModel;

    open spec fn view(&self) -> ArtifactModel {
        ArtifactModel { file_name: self.file_name@, content: self.content@ }
    }
}

impl DeepView for FileArtifact {
    type V = ArtifactModel;

    open spec fn deep_view(&self) -> ArtifactModel {
        self@
    }
}

/// Produces the artifact for one table: the file named after the table's
/// plain (non-camel-cased) name, beginning with the fixed boilerplate header
/// and holding the one rendered entity block.
pub fn generate_single_entity_file(table: &TableDescription) -> (r: Result<FileArtifact, GenError>)
    ensures
        r matches Ok(a) ==> (ts_entity_spec(table@) matches Some(b) && a.content@ == TS_HEADER@ + b
            && has_prefix(a.content@, TS_HEADER@) && a.file_name@ == table.name@ + ".ts"@),
        r matches Err(e) ==> ts_entity_spec(table@) is None && gen_err_matches(
            e,
            GenErrModel::RenderFailed { table: table.name@ },
        ),
{
    let entity_name = to_camel_case(&table.name);
    let cols = build_ts_cols(&table.columns);
    let pks: Vec<RenderColumn> = Vec::new();
    proof {
        assert(pks.deep_view() =~= Seq::<(Seq<char>, Seq<char>)>::empty());
    }
    match render_entity(TS_TEMPLATE, &table.name, &entity_name, &table.schema, &cols, &pks) {
        Ok(block) => {
            let file_name = table.name.clone().concat(".ts");
            let mut content = String::from_str(TS_HEADER);
            content.append(block.as_str());
            proof {
                assert((TS_HEADER@ + block@).subrange(0, TS_HEADER@.len() as int) =~= TS_HEADER@);
            }
            Ok(FileArtifact { file_name, content })
        },
        Err(message) => Err(GenError::RenderFailed { table: table.name.clone(), message }),
    }
}

/// What generating every table under the typeorm dialect yields: one artifact
/// per table, in table order, or the first failure.
pub open spec fn ts_files_spec(tables: Seq<TableModel>) -> Result<Seq<ArtifactModel>, GenErrModel>
    decreases tables.len(),
{
    if tables.len() == 0 {
        Ok(Seq::empty())
    } else {
        match ts_files_spec(tables.drop_last()) {
            Ok(acc) => match ts_entity_spec(tables.last()) {
                Some(txt) => Ok(
                    acc.push(
                        ArtifactModel {
                            file_name: tables.last().name + ".ts"@,
                            content: TS_HEADER@ + txt,
                        },
                    ),
                ),
                None => Err(GenErrModel::RenderFailed { table: tables.last().name }),
            },
            Err(e) => Err(e),
        }
    }
}

/// Every artifact of a permissive run begins with the fixed boilerplate
/// header.
pub proof fn lemma_ts_files_have_header(tables: Seq<TableModel>)
    ensures
        ts_files_spec(tables) matches Ok(v) ==> forall|i: int|
            0 <= i < v.len() ==> has_prefix((#[trigger] v[i]).content, TS_HEADER@),
    decreases tables.len(),
{
    if tables.len() > 0 && ts_files_spec(tables) is Ok {
        lemma_ts_files_have_header(tables.drop_last());
        let v = ts_files_spec(tables)->Ok_0;
        let prev = ts_files_spec(tables.drop_last())->Ok_0;
        let txt = ts_entity_spec(tables.last())->Some_0;
        assert(v == prev.push(
            ArtifactModel { file_name: tables.last().name + ".ts"@, content: TS_HEADER@ + txt },
        ));
        assert((TS_HEADER@ + txt).subrange(0, TS_HEADER@.len() as int) =~= TS_HEADER@);
        assert(forall|i: int| 0 <= i < prev.len() ==> v[i] == prev[i]);
    }
}

/// A failure on a prefix of the tables decides the whole run.
proof fn lemma_ts_files_err_prefix(tables: Seq<TableModel>, j: int, m: GenErrModel)
    requires
        0 <= j <= tables.len(),
        ts_files_spec(tables.take(j)) == Err::<Seq<ArtifactModel>, _>(m),
    ensures
        ts_files_spec(tables) == Err::<Seq<ArtifactModel>, _>(m),
    decreases tables.len() - j,
{
    if j == tables.len() {
        assert(tables.take(j) =~= tables);
    } else {
        assert(tables.take(j + 1).drop_last() =~= tables.take(j));
        lemma_ts_files_err_prefix(tables, j + 1, m);
    }
}

/// Generates one artifact per table under the typeorm (permissive) dialect;
/// stops at the first table whose template the rendering collaborator
/// refuses.
pub fn generate_entities(tables: &Vec<TableDescription>) -> (r: Result<Vec<FileArtifact>, GenError>)
    ensures
        r matches Ok(v) ==> ts_files_spec(tables.deep_view()) == Ok::<_, GenErrModel>(
            v.deep_view(),
        ),
        r matches Err(e) ==> (ts_files_spec(tables.deep_view()) matches Err(m) && gen_err_matches(
            e,
            m,
        )),
{
    let mut out: Vec<FileArtifact> = Vec::new();
    let mut i: usize = 0;
    proof {
        assert(tables.deep_view().take(0) =~= Seq::<TableModel>::empty());
        assert(out.deep_view() =~= Seq::<ArtifactModel>::empty());
    }
    while i < tables.len()
        invariant
            i <= tables.len(),
            ts_files_spec(tables.deep_view().take(i as int)) == Ok::<_, GenErrModel>(
                out.deep_view(),
            ),
        decreases tables.len() - i,
    {
        let ghost pre = tables.deep_view().take(i as int + 1);
        proof {
            assert(pre.drop_last() =~= tables.deep_view().take(i as int));
            assert(pre.last() == tables.deep_view()[i as int]);
        }
        match generate_single_entity_file(&tables[i]) {
            Ok(a) => {
                out.push(a);
                proof {
                    assert(ts_files_spec(pre) matches Ok(v) && out.deep_view() =~= v);
                }
            },
            Err(e) => {
                proof {
                    let m = (GenErrModel::RenderFailed { table: tables.deep_view()[i as int].name });
                    lemma_ts_files_err_prefix(tables.deep_view(), i as int + 1, m);
                }
                return Err(e);
            },
        }
        i = i + 1;
    }
    proof {
        assert(tables.deep_view().take(tables@.len() as int) =~= tables.deep_view());
    }
    Ok(out)
}

} // verus!
