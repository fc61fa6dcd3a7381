pub mod casing;
pub mod loader;
pub mod py_sqlalchemy;
pub mod render;
pub mod text;
pub mod ts_typeorm;
pub mod types;

use vstd::prelude::*;
use crate::loader::{group_spec, load_spec, sort_spec, RowModel};
use crate::py_sqlalchemy::py_output_spec;
use crate::ts_typeorm::{ts_files_spec, FileArtifact};
use crate::types::{Dialect, GenErrModel, GenError, TableDescription, gen_err_matches};

verus! {

/// What one run writes: the strict dialect's single combined file, or the
/// permissive dialect's one file per table.
pub enum Artifacts {
    Combined(String),
    PerTable(Vec<FileArtifact>),
}

/// Drives one generation run for the chosen dialect over the loaded schema
/// model.
pub fn generate(dialect: &Dialect, tables: &Vec<TableDescription>) -> (r: Result<
    Artifacts,
    GenError,
>)
    ensures
        dialect is PySqlAlchemy ==> match r {
            Ok(a) => a matches Artifacts::Combined(t) && py_output_spec(tables.deep_view())
                == Ok::<_, GenErrModel>(t@),
            Err(e) => py_output_spec(tables.deep_view()) matches Err(m) && gen_err_matches(e, m),
        },
        dialect is TSTypeorm ==> match r {
            Ok(a) => a matches Artifacts::PerTable(v) && ts_files_spec(tables.deep_view())
                == Ok::<_, GenErrModel>(v.deep_view()),
            Err(e) => ts_files_spec(tables.deep_view()) matches Err(m) && gen_err_matches(e, m),
        },
{
    match dialect {
        Dialect::PySqlAlchemy => match py_sqlalchemy::generate_entities(tables) {
            Ok(t) => Ok(Artifacts::Combined(t)),
            Err(e) => Err(e),
        },
        Dialect::TSTypeorm => match ts_typeorm::generate_entities(tables) {
            Ok(v) => Ok(Artifacts::PerTable(v)),
            Err(e) => Err(e),
        },
    }
}

/// Determinism: two runs over an unchanged catalog state go through the same
/// schema model and produce byte-identical artifacts, under either dialect.
/// The runs must observe the same row sequence, not merely the same rows: a
/// table's column order follows the row stream, so a reordered stream
/// legitimately yields another column order.
pub proof fn lemma_deterministic_run(rows1: Seq<RowModel>, rows2: Seq<RowModel>)
    requires
        rows1 == rows2,
    ensures
        load_spec(rows1) == load_spec(rows2),
        py_output_spec(sort_spec(group_spec(rows1))) == py_output_spec(
            sort_spec(group_spec(rows2)),
        ),
        ts_files_spec(sort_spec(group_spec(rows1))) == ts_files_spec(
            sort_spec(group_spec(rows2)),
        ),
{
}

} // verus!
