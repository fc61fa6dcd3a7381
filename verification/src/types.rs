use vstd::prelude::*;
use vstd::string::*;
use crate::text::string_eq;

verus! {

/// Mathematical model of one column: every field as a plain value.
pub ghost struct ColModel {
    pub name: Seq<char>,
    pub pg_type: Seq<char>,
    pub is_array: bool,
    pub is_pk: bool,
    pub is_nullable: bool,
    pub default_value: Option<Seq<char>>,
}

/// One column of a table, as the catalog reports it. `pg_type` always holds
/// the scalar element type; array-ness lives only in `is_array`.
pub struct ColumnDescription {
    pub name: String,
    pub pg_type: String,
    pub is_array: bool,
    pub is_pk: bool,
    pub is_nullable: bool,
    pub default_value: Option<String>,
}

impl View for ColumnDescription {
    type V = ColModel;

    open spec fn view(&self) -> ColModel {
        ColModel {
            name: self.name@,
            pg_type: self.pg_type@,
            is_array: self.is_array,
            is_pk: self.is_pk,
            is_nullable: self.is_nullable,
            default_value: self.default_value.deep_view(),
        }
    }
}

impl DeepView for ColumnDescription {
    type V = ColModel;

    open spec fn deep_view(&self) -> ColModel {
        self@
    }
}

impl ColumnDescription {
    /// A one-line rendering of the column, `name: type`.
    pub fn display_string(&self) -> (r: String)
        ensures
            r@ == self.name@ + ": "@ + self.pg_type@,
    {
        let mut out = self.name.clone();
        out.append(": ");
        out.append(self.pg_type.as_str());
        out
    }
}

/// Mathematical model of one table.
pub ghost struct TableModel {
    pub name: Seq<char>,
    pub schema: Seq<char>,
    pub columns: Seq<ColModel>,
}

/// One table of the loaded schema, with its columns in catalog order.
pub struct TableDescription {
    pub name: String,
    pub schema: String,
    pub columns: Vec<ColumnDescription>,
}

impl View for TableDescription {
    type V = TableModel;

    open spec fn view(&self) -> TableModel {
        TableModel { name: self.name@, schema: self.schema@, columns: self.columns.deep_view() }
    }
}

impl DeepView for TableDescription {
    type V = TableModel;

    open spec fn deep_view(&self) -> TableModel {
        self@
    }
}

impl PartialEq for TableDescription {
    /// Table identity is the `(schema, name)` pair; column contents do not
    /// take part in equality.
    fn eq(&self, other: &Self) -> (r: bool) {
        string_eq(&self.name, other.name.as_str()) && string_eq(
            &self.schema,
            other.schema.as_str(),
        )
    }
}

impl vstd::std_specs::cmp::PartialEqSpecImpl for TableDescription {
    open spec fn obeys_eq_spec() -> bool {
        true
    }

    open spec fn eq_spec(&self, other: &TableDescription) -> bool {
        self.name@ == other.name@ && self.schema@ == other.schema@
    }
}

impl Eq for TableDescription {

}

/// Why loading the schema model failed.
#[derive(Debug)]
pub enum LoadError {
    /// The catalog could not be reached, or its query failed; the payload is
    /// the underlying diagnostic text.
    ConnectionFailed(String),
    /// The schema held no eligible table at all.
    EmptySchema,
}

/// Why generating entities failed.
#[derive(Debug)]
pub enum GenError {
    /// The strict dialect met a column type outside its allow-list.
    UnmappedType { table: String, column: String, pg_type: String },
    /// The rendering collaborator refused a template; the message is its
    /// diagnostic text.
    RenderFailed { table: String, message: String },
}

/// Model of a generation failure; the rendering collaborator's diagnostic
/// text is not modelled.
pub ghost enum GenErrModel {
    Unmapped { table: Seq<char>, column: Seq<char>, pg_type: Seq<char> },
    RenderFailed { table: Seq<char> },
}

/// Relates an executable generation error to its model, ignoring only the
/// diagnostic text of a render failure.
pub open spec fn gen_err_matches(e: GenError, m: GenErrModel) -> bool {
    match e {
        GenError::UnmappedType { table, column, pg_type } => m == (GenErrModel::Unmapped {
            table: table@,
            column: column@,
            pg_type: pg_type@,
        }),
        GenError::RenderFailed { table, message } => m == (GenErrModel::RenderFailed {
            table: table@,
        }),
    }
}

/// The output conventions this generator can emit.
pub enum Dialect {
    TSTypeorm,
    PySqlAlchemy,
}

/// Which dialect a requested name selects, if any.
pub open spec fn dialect_of(s: Seq<char>) -> Option<Dialect> {
    if s == "ts-typeorm"@ {
        Some(Dialect::TSTypeorm)
    } else if s == "py-sqlalchemy"@ {
        Some(Dialect::PySqlAlchemy)
    } else {
        None
    }
}

impl Dialect {
    /// Resolves a dialect name; an unknown name is a configuration error and
    /// selects nothing.
    pub fn from_string(s: &String) -> (r: Option<Dialect>)
        ensures
            r == dialect_of(s@),
    {
        if string_eq(s, "ts-typeorm") {
            Some(Dialect::TSTypeorm)
        } else if string_eq(s, "py-sqlalchemy") {
            Some(Dialect::PySqlAlchemy)
        } else {
            None
        }
    }
}

} // verus!
