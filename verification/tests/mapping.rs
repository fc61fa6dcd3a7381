use ormgen::casing::to_camel_case;
use ormgen::py_sqlalchemy::{get_scalar_py_type, py_column_type};
use ormgen::ts_typeorm::{get_scalar_ts_type, ts_column_type};
use ormgen::types::{ColumnDescription, Dialect};

fn col(name: &str, pg_type: &str, is_array: bool, is_pk: bool) -> ColumnDescription {
    ColumnDescription {
        name: String::from(name),
        pg_type: String::from(pg_type),
        is_array,
        is_pk,
        is_nullable: false,
        default_value: None,
    }
}

#[test]
fn py_scalar_known_types() {
    assert_eq!(get_scalar_py_type(&String::from("boolean")).unwrap(), "sa.Boolean");
    assert_eq!(get_scalar_py_type(&String::from("integer")).unwrap(), "sa.Integer");
    assert_eq!(get_scalar_py_type(&String::from("double precision")).unwrap(), "sa.Float");
    assert_eq!(get_scalar_py_type(&String::from("bigint")).unwrap(), "sa.BigInteger");
    assert_eq!(get_scalar_py_type(&String::from("text")).unwrap(), "sa.Text");
    assert_eq!(get_scalar_py_type(&String::from("uuid")).unwrap(), "pg.UUID");
    assert_eq!(get_scalar_py_type(&String::from("jsonb")).unwrap(), "pg.JSONB");
    assert_eq!(get_scalar_py_type(&String::from("json")).unwrap(), "sa.JSON");
    assert_eq!(get_scalar_py_type(&String::from("interval")).unwrap(), "pg.INTERVAL");
    assert_eq!(get_scalar_py_type(&String::from("date")).unwrap(), "sa.Date");
    assert_eq!(get_scalar_py_type(&String::from("tstzrange")).unwrap(), "pg.TSTZRANGE");
    assert_eq!(get_scalar_py_type(&String::from("bytea")).unwrap(), "sa.LargeBinary");
    assert_eq!(get_scalar_py_type(&String::from("inet")).unwrap(), "pg.INET");
    assert_eq!(get_scalar_py_type(&String::from("int4range")).unwrap(), "pg.INT4RANGE");
    assert_eq!(get_scalar_py_type(&String::from("numeric")).unwrap(), "sa.Numeric");
    assert_eq!(get_scalar_py_type(&String::from("character")).unwrap(), "sa.CHAR");
    assert_eq!(get_scalar_py_type(&String::from("polygon")).unwrap(), "_PgPolygon");
}

#[test]
fn py_scalar_prefix_rules() {
    assert_eq!(get_scalar_py_type(&String::from("character varying")).unwrap(), "sa.String");
    assert_eq!(get_scalar_py_type(&String::from("character varying(255)")).unwrap(), "sa.String");
    assert_eq!(
        get_scalar_py_type(&String::from("timestamp with time zone")).unwrap(),
        "sa.DateTime(True)"
    );
    assert_eq!(
        get_scalar_py_type(&String::from("timestamp without time zone")).unwrap(),
        "sa.DateTime(True)"
    );
}

#[test]
fn py_timestamp_range_beats_plain_timestamp() {
    assert_eq!(get_scalar_py_type(&String::from("timestamptz_custom_range")).unwrap(), "pg.TSTZRANGE");
    assert_eq!(get_scalar_py_type(&String::from("timestamprange")).unwrap(), "pg.TSTZRANGE");
}

#[test]
fn py_geometry_box_is_mapped() {
    assert_eq!(get_scalar_py_type(&String::from("box")).unwrap(), "_PgBox");
}

#[test]
fn py_unknown_type_is_unmapped() {
    assert!(get_scalar_py_type(&String::from("hstore")).is_none());
    assert!(get_scalar_py_type(&String::from("")).is_none());
    assert!(get_scalar_py_type(&String::from("BOOLEAN")).is_none());
}

#[test]
fn py_array_wrapping_applied_once() {
    let c = col("tags", "text", true, false);
    assert_eq!(py_column_type(&c).unwrap(), "sa.ARRAY(sa.Text)");
    let plain = col("body", "text", false, false);
    assert_eq!(py_column_type(&plain).unwrap(), "sa.Text");
    let unmapped = col("attrs", "hstore", true, false);
    assert!(py_column_type(&unmapped).is_none());
}

#[test]
fn ts_scalar_known_types() {
    assert_eq!(get_scalar_ts_type(&String::from("boolean")).unwrap(), "boolean");
    assert_eq!(get_scalar_ts_type(&String::from("integer")).unwrap(), "number");
    assert_eq!(get_scalar_ts_type(&String::from("double precision")).unwrap(), "number");
    assert_eq!(get_scalar_ts_type(&String::from("bigint")).unwrap(), "BigInt");
    assert_eq!(get_scalar_ts_type(&String::from("character varying")).unwrap(), "string");
    assert_eq!(get_scalar_ts_type(&String::from("text")).unwrap(), "string");
    assert_eq!(get_scalar_ts_type(&String::from("uuid")).unwrap(), "string");
    assert_eq!(get_scalar_ts_type(&String::from("jsonb")).unwrap(), "object");
    assert_eq!(get_scalar_ts_type(&String::from("json")).unwrap(), "object");
}

#[test]
fn ts_character_varying_prefix_rule() {
    assert_eq!(get_scalar_ts_type(&String::from("character varying(255)")).unwrap(), "string");
    assert_eq!(get_scalar_ts_type(&String::from("character varying(10)")).unwrap(), "string");
}

#[test]
fn ts_range_and_timestamp_rules() {
    assert_eq!(get_scalar_ts_type(&String::from("int4range")).unwrap(), "string");
    assert_eq!(get_scalar_ts_type(&String::from("tstzrange")).unwrap(), "string");
    assert_eq!(get_scalar_ts_type(&String::from("timestamptz_custom_range")).unwrap(), "string");
    assert_eq!(get_scalar_ts_type(&String::from("timestamp with time zone")).unwrap(), "Date");
}

#[test]
fn ts_unknown_type_falls_back_to_any() {
    assert!(get_scalar_ts_type(&String::from("hstore")).is_none());
    let c = col("attrs", "hstore", false, false);
    assert_eq!(ts_column_type(&c), "any");
    let arr = col("attrs", "hstore", true, false);
    assert_eq!(ts_column_type(&arr), "any[]");
    let tags = col("tags", "text", true, false);
    assert_eq!(ts_column_type(&tags), "string[]");
}

#[test]
fn camel_case_examples() {
    assert_eq!(to_camel_case(&String::from("user_account")), "UserAccount");
    assert_eq!(to_camel_case(&String::from("orders")), "Orders");
    assert_eq!(to_camel_case(&String::from("_leading")), "Leading");
    assert_eq!(to_camel_case(&String::from("two words")), "TwoWords");
    assert_eq!(to_camel_case(&String::from("kebab-case-name")), "KebabCaseName");
    assert_eq!(to_camel_case(&String::from("")), "");
    assert_eq!(to_camel_case(&String::from("___")), "");
}

#[test]
fn camel_case_idempotent_on_camel_input() {
    assert_eq!(to_camel_case(&String::from("Orders")), "Orders");
    assert_eq!(to_camel_case(&to_camel_case(&String::from("user_account"))), "UserAccount");
}

#[test]
fn camel_case_unicode_uppercase() {
    assert_eq!(to_camel_case(&String::from("épée")), "Épée");
    assert_eq!(to_camel_case(&String::from("ß_x")), "SSX");
}

#[test]
fn dialect_from_string() {
    assert!(matches!(Dialect::from_string(&String::from("ts-typeorm")), Some(Dialect::TSTypeorm)));
    assert!(matches!(
        Dialect::from_string(&String::from("py-sqlalchemy")),
        Some(Dialect::PySqlAlchemy)
    ));
    assert!(Dialect::from_string(&String::from("rails")).is_none());
    assert!(Dialect::from_string(&String::from("")).is_none());
}

#[test]
fn column_display_string() {
    let c = col("id", "integer", false, true);
    assert_eq!(c.display_string(), "id: integer");
}
