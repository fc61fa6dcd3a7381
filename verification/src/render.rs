use vstd::prelude::*;
use crate::py_sqlalchemy::PY_TEMPLATE;
use crate::ts_typeorm::TS_TEMPLATE;

verus! {

/// One column as handed to the rendering collaborator: its identifier and its
/// already-derived target type expression.
pub struct RenderColumn {
    pub name: String,
    pub col_type: String,
}

impl View for RenderColumn {
    type V = (Seq<char>, Seq<char>);

    open spec fn view(&self) -> (Seq<char>, Seq<char>) {
        (self.name@, self.col_type@)
    }
}

impl DeepView for RenderColumn {
    type V = (Seq<char>, Seq<char>);

    open spec fn deep_view(&self) -> (Seq<char>, Seq<char>) {
        self@
    }
}

/// The text the rendering collaborator produces for a template and a context,
/// or `None` where it refuses the template. Rendering is a function of these
/// values alone.
pub uninterp spec fn rendered_of(
    template: Seq<char>,
    table_name: Seq<char>,
    entity_name: Seq<char>,
    schema: Seq<char>,
    columns: Seq<(Seq<char>, Seq<char>)>,
    pk_columns: Seq<(Seq<char>, Seq<char>)>,
) -> Option<Seq<char>>;

/// Relies on `tera::Tera::one_off` (with autoescaping off), and promises
/// something only for the library's two fixed templates. Neither of them
/// holds a map literal, a `set` statement or a stateful template function, so
/// this tera version renders each of them, or refuses it, as a function of
/// the context values alone; an arbitrary template could iterate an unordered
/// map and so render differently across calls. The context binds five keys;
/// the permissive dialect's template reads no `pk_columns` and is handed an
/// empty list for it.
#[verifier::external_body]
pub(crate) fn render_entity(
    template: &str,
    table_name: &String,
    entity_name: &String,
    schema: &String,
    columns: &Vec<RenderColumn>,
    pk_columns: &Vec<RenderColumn>,
) -> (r: Result<String, String>)
    ensures
        (template@ == PY_TEMPLATE@ || template@ == TS_TEMPLATE@) ==> (r matches Ok(t) ==> Some(t@)
            == rendered_of(
            template@,
            table_name@,
            entity_name@,
            schema@,
            columns.deep_view(),
            pk_columns.deep_view(),
        )),
        (template@ == PY_TEMPLATE@ || template@ == TS_TEMPLATE@) ==> (r matches Err(_)
            ==> rendered_of(
            template@,
            table_name@,
            entity_name@,
            schema@,
            columns.deep_view(),
            pk_columns.deep_view(),
        ) is None),
{
    let mut ctx = tera::Context::new();
    ctx.insert("table_name", table_name);
    ctx.insert("table_name_camel_cased", entity_name);
    ctx.insert("schema", schema);
    let cols: Vec<(&String, &String)> = columns.iter().map(|c| (&c.name, &c.col_type)).collect();
    ctx.insert("columns", &cols);
    let pks: Vec<(&String, &String)> = pk_columns.iter().map(|c| (&c.name, &c.col_type)).collect();
    ctx.insert("pk_columns", &pks);
    tera::Tera::one_off(template, &ctx, false).map_err(|e| e.to_string())
}

} // verus!
