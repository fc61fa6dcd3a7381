use ormgen::loader::{tables_from_rows, CatalogRow};
use ormgen::py_sqlalchemy::{build_py_context, generate_entity, PY_HEADER};
use ormgen::ts_typeorm::{generate_single_entity_file, generate_entities as ts_generate, TS_HEADER};
use ormgen::py_sqlalchemy::generate_entities as py_generate;
use ormgen::types::{GenError, LoadError, TableDescription};
use ormgen::{generate, Artifacts};
use ormgen::types::Dialect;

fn row(schema: &str, table: &str, column: &str, pg_type: &str, is_array: bool, is_pk: bool) -> CatalogRow {
    CatalogRow {
        table_schema: String::from(schema),
        table_name: String::from(table),
        column_name: String::from(column),
        column_default: None,
        is_nullable: false,
        is_pk,
        data_type: String::from(pg_type),
        is_array,
    }
}

fn user_account_rows() -> Vec<CatalogRow> {
    vec![
        row("public", "user_account", "id", "integer", false, true),
        row("public", "user_account", "email", "character varying", false, false),
        row("public", "user_account", "tags", "text", true, false),
    ]
}

#[test]
fn empty_schema_is_refused() {
    let rows: Vec<CatalogRow> = Vec::new();
    match tables_from_rows(&rows) {
        Err(LoadError::EmptySchema) => {}
        _ => panic!("an empty catalog must yield EmptySchema"),
    }
}

#[test]
fn grouping_round_trip() {
    let rows = vec![
        row("public", "orders", "id", "integer", false, true),
        row("public", "user_account", "id", "integer", false, true),
        row("public", "orders", "total", "numeric", false, false),
        row("public", "archive", "id", "uuid", false, true),
        row("public", "user_account", "email", "text", false, false),
    ];
    let tables = tables_from_rows(&rows).unwrap();
    assert_eq!(tables.len(), 3);
    assert_eq!(tables[0].name, "archive");
    assert_eq!(tables[1].name, "orders");
    assert_eq!(tables[2].name, "user_account");
    assert_eq!(tables[1].schema, "public");
    let orders = &tables[1];
    assert_eq!(orders.columns.len(), 2);
    assert_eq!(orders.columns[0].name, "id");
    assert_eq!(orders.columns[1].name, "total");
    let ua = &tables[2];
    assert_eq!(ua.columns.len(), 2);
    assert_eq!(ua.columns[0].name, "id");
    assert_eq!(ua.columns[1].name, "email");
    assert!(ua.columns[0].is_pk);
    assert!(!ua.columns[1].is_pk);
}

#[test]
fn tables_sorted_by_name() {
    let rows = vec![
        row("public", "zebra", "id", "integer", false, true),
        row("public", "alpha", "id", "integer", false, true),
        row("public", "mid", "id", "integer", false, true),
    ];
    let tables = tables_from_rows(&rows).unwrap();
    let names: Vec<&str> = tables.iter().map(|t| t.name.as_str()).collect();
    assert_eq!(names, vec!["alpha", "mid", "zebra"]);
}

#[test]
fn table_equality_is_schema_and_name() {
    let a = TableDescription {
        name: String::from("t"),
        schema: String::from("public"),
        columns: Vec::new(),
    };
    let rows = user_account_rows();
    let b = TableDescription {
        name: String::from("t"),
        schema: String::from("public"),
        columns: tables_from_rows(&rows).unwrap().remove(0).columns,
    };
    let c = TableDescription {
        name: String::from("t"),
        schema: String::from("other"),
        columns: Vec::new(),
    };
    assert!(a == b);
    assert!(a != c);
}

#[test]
fn strict_dialect_segregates_and_maps_user_account() {
    let rows = user_account_rows();
    let tables = tables_from_rows(&rows).unwrap();
    assert_eq!(tables.len(), 1);
    let (cols, pks) = build_py_context(&tables[0]).unwrap();
    assert_eq!(pks.len(), 1);
    assert_eq!(pks[0].name, "id");
    assert_eq!(pks[0].col_type, "sa.Integer");
    assert_eq!(cols.len(), 2);
    assert_eq!(cols[0].name, "email");
    assert_eq!(cols[0].col_type, "sa.String");
    assert_eq!(cols[1].name, "tags");
    assert_eq!(cols[1].col_type, "sa.ARRAY(sa.Text)");
    let block = generate_entity(&tables[0]).unwrap();
    assert!(block.contains("class UserAccount(Base):"));
    assert!(block.contains("__tablename__ = \"user_account\""));
    assert!(block.contains("\"schema\": \"public\""));
    assert!(block.contains("id = sa.Column(sa.Integer, primary_key=True)"));
    assert!(block.contains("email = sa.Column(sa.String)"));
    assert!(block.contains("tags = sa.Column(sa.ARRAY(sa.Text))"));
}

#[test]
fn strict_dialect_combined_artifact_starts_with_header() {
    let rows = user_account_rows();
    let tables = tables_from_rows(&rows).unwrap();
    let out = py_generate(&tables).unwrap();
    assert!(out.starts_with(PY_HEADER));
    assert!(out.len() > PY_HEADER.len());
    assert!(out.contains("class UserAccount(Base):"));
}

#[test]
fn strict_dialect_rejects_unmapped_type() {
    let mut rows = user_account_rows();
    rows.push(row("public", "user_account", "attrs", "hstore", false, false));
    let tables = tables_from_rows(&rows).unwrap();
    match py_generate(&tables) {
        Err(GenError::UnmappedType { table, column, pg_type }) => {
            assert_eq!(table, "user_account");
            assert_eq!(column, "attrs");
            assert_eq!(pg_type, "hstore");
        }
        _ => panic!("hstore must be a fatal unmapped type under the strict dialect"),
    }
}

#[test]
fn permissive_dialect_substitutes_any_for_unmapped_type() {
    let mut rows = user_account_rows();
    rows.push(row("public", "user_account", "attrs", "hstore", false, false));
    let tables = tables_from_rows(&rows).unwrap();
    let files = ts_generate(&tables).unwrap();
    assert_eq!(files.len(), 1);
    assert_eq!(files[0].file_name, "user_account.ts");
    assert!(files[0].content.contains("attrs: any;"));
    assert!(files[0].content.contains("export class UserAccount {"));
}

#[test]
fn permissive_dialect_one_file_per_table() {
    let rows = vec![
        row("public", "orders", "id", "integer", false, true),
        row("public", "user_account", "id", "integer", false, true),
    ];
    let tables = tables_from_rows(&rows).unwrap();
    let files = ts_generate(&tables).unwrap();
    assert_eq!(files.len(), 2);
    assert_eq!(files[0].file_name, "orders.ts");
    assert_eq!(files[1].file_name, "user_account.ts");
    assert!(files[0].content.starts_with(TS_HEADER));
    assert!(files[1].content.starts_with(TS_HEADER));
    assert!(files[0].content.contains("@Entity(\"orders\", { schema: \"public\" })"));
    assert!(files[0].content.contains("id: number;"));
}

#[test]
fn permissive_single_entity_file() {
    let rows = user_account_rows();
    let tables = tables_from_rows(&rows).unwrap();
    let art = generate_single_entity_file(&tables[0]).unwrap();
    assert_eq!(art.file_name, "user_account.ts");
    assert!(art.content.starts_with(TS_HEADER));
    assert!(art.content.contains("export class UserAccount {"));
    assert!(art.content.contains("email: string;"));
    assert!(art.content.contains("tags: string[];"));
}

#[test]
fn two_runs_are_byte_identical() {
    let make = || {
        let rows = vec![
            row("public", "orders", "id", "integer", false, true),
            row("public", "user_account", "id", "integer", false, true),
            row("public", "user_account", "email", "character varying", false, false),
        ];
        let tables = tables_from_rows(&rows).unwrap();
        let py = py_generate(&tables).unwrap();
        let ts = ts_generate(&tables).unwrap();
        (py, ts)
    };
    let (py1, ts1) = make();
    let (py2, ts2) = make();
    assert_eq!(py1, py2);
    assert_eq!(ts1.len(), ts2.len());
    for (a, b) in ts1.iter().zip(ts2.iter()) {
        assert_eq!(a.file_name, b.file_name);
        assert_eq!(a.content, b.content);
    }
}

#[test]
fn dispatch_follows_dialect() {
    let rows = user_account_rows();
    let tables = tables_from_rows(&rows).unwrap();
    match generate(&Dialect::PySqlAlchemy, &tables).unwrap() {
        Artifacts::Combined(text) => assert!(text.starts_with(PY_HEADER)),
        _ => panic!("the strict dialect emits one combined artifact"),
    }
    match generate(&Dialect::TSTypeorm, &tables).unwrap() {
        Artifacts::PerTable(files) => assert_eq!(files.len(), 1),
        _ => panic!("the permissive dialect emits one artifact per table"),
    }
}

#[test]
fn optional_metadata_carried_through() {
    let mut r = row("public", "orders", "created_at", "timestamp with time zone", false, false);
    r.column_default = Some(String::from("now()"));
    r.is_nullable = true;
    let rows = vec![r];
    let tables = tables_from_rows(&rows).unwrap();
    let c = &tables[0].columns[0];
    assert_eq!(c.default_value.as_deref(), Some("now()"));
    assert!(c.is_nullable);
    assert!(!c.is_pk);
    assert!(!c.is_array);
    assert_eq!(c.pg_type, "timestamp with time zone");
}
