//! Rendering with the template engine: escaping text for HTML, building the
//! values that a template reads, and handing them to the engine.
use vstd::prelude::*;

verus! {

/// What stands for the character `c` in escaped text: an entity for each of
/// `&`, `<`, `>`, `"`, `'` and `/`, the character itself otherwise.
pub open spec fn escaped_char(c: char) -> Seq<char> {
    if c == '&' {
        "&amp;"@
    } else if c == '<' {
        "&lt;"@
    } else if c == '>' {
        "&gt;"@
    } else if c == '"' {
        "&quot;"@
    } else if c == '\'' {
        "&#x27;"@
    } else if c == '/' {
        "&#x2F;"@
    } else {
        seq![c]
    }
}

/// `text` escaped for HTML, character by character.
pub open spec fn html_escaped(text: Seq<char>) -> Seq<char>
    decreases text.len(),
{
    if text.len() == 0 {
        Seq::empty()
    } else {
        html_escaped(text.drop_last()) + escaped_char(text.last())
    }
}

/// Calls `tera::escape_html`. Trusted: the text returned is the input with
/// each of the six characters `&`, `<`, `>`, `"`, `'` and `/` replaced by its
/// entity, and every other character kept.
#[verifier::external_body]
pub(crate) fn escape_html(input: &str) -> (output: String)
    ensures
        output@ == html_escaped(input@),
{
    tera::escape_html(input)
}

/// The template engine, with the templates and functions it was given.
#[verifier::external_type_specification]
#[verifier::external_body]
pub struct ExTera(tera::Tera);

/// The values that a template reads, by name.
#[verifier::external_type_specification]
#[verifier::external_body]
pub struct ExContext(tera::Context);

/// One value that a template reads.
#[verifier::external_type_specification]
#[verifier::external_body]
pub struct ExValue(tera::Value);

/// The fields of an object value, by name.
#[verifier::external_type_specification]
#[verifier::external_body]
#[verifier::reject_recursive_types(K)]
#[verifier::reject_recursive_types(V)]
pub struct ExJsonMap<K, V>(tera::Map<K, V>);

/// The engine's account of a failure.
#[verifier::external_type_specification]
#[verifier::external_body]
pub struct ExTeraError(tera::Error);

/// A value that a template reads, as a mathematical value.
pub enum Json {
    Null,
    Flag(bool),
    Text(Seq<char>),
    List(Seq<Json>),
    Object(Map<Seq<char>, Json>),
}

/// What a value holds.
pub uninterp spec fn json_of(value: tera::Value) -> Json;

/// The values that a context holds, by name.
pub uninterp spec fn context_entries(context: tera::Context) -> Map<Seq<char>, Json>;

/// No values at all.
pub open spec fn no_entries() -> Map<Seq<char>, Json> {
    Map::empty()
}

/// What a list of values holds, element by element.
pub open spec fn jsons_of(values: Seq<tera::Value>) -> Seq<Json> {
    values.map_values(|v: tera::Value| json_of(v))
}

/// The fields that an object holds, by name.
pub uninterp spec fn object_fields(object: tera::Map<String, tera::Value>) -> Map<Seq<char>, Json>;

/// Makes the value `tera::Value::Null`. Trusted: it holds nothing.
#[verifier::external_body]
pub(crate) fn value_null() -> (value: tera::Value)
    ensures
        json_of(value) == Json::Null,
{
    tera::Value::Null
}

/// Makes a `tera::Value::Bool`. Trusted: it holds the flag.
#[verifier::external_body]
pub(crate) fn value_flag(flag: bool) -> (value: tera::Value)
    ensures
        json_of(value) == Json::Flag(flag),
{
    tera::Value::Bool(flag)
}

/// Makes a `tera::Value::String`. Trusted: it holds the text.
#[verifier::external_body]
pub(crate) fn value_text(text: &str) -> (value: tera::Value)
    ensures
        json_of(value) == Json::Text(text@),
{
    tera::Value::String(text.to_owned())
}

/// Makes a `tera::Value::Array`. Trusted: it holds the values, in order.
#[verifier::external_body]
pub(crate) fn value_list(values: Vec<tera::Value>) -> (value: tera::Value)
    ensures
        json_of(value) == Json::List(jsons_of(values@)),
{
    tera::Value::Array(values)
}

/// Calls `tera::Map::new`. Trusted: the object has no field.
#[verifier::external_body]
pub(crate) fn object_new() -> (object: tera::Map<String, tera::Value>)
    ensures
        object_fields(object) == no_entries(),
{
    tera::Map::new()
}

/// Calls `tera::Map::insert`. Trusted: the object then holds the value
/// under the name, in place of what it held there, and the rest as before.
#[verifier::external_body]
pub(crate) fn object_insert(
    object: &mut tera::Map<String, tera::Value>,
    name: String,
    value: tera::Value,
)
    ensures
        object_fields(*final(object)) == object_fields(*old(object)).insert(name@, json_of(value)),
{
    object.insert(name, value);
}

/// Makes a `tera::Value::Object`. Trusted: it holds the fields of the
/// object.
#[verifier::external_body]
pub(crate) fn value_object(object: tera::Map<String, tera::Value>) -> (value: tera::Value)
    ensures
        json_of(value) == Json::Object(object_fields(object)),
{
    tera::Value::Object(object)
}

/// Calls `tera::Context::new`. Trusted: the context holds nothing.
#[verifier::external_body]
pub(crate) fn context_new() -> (made: tera::Context)
    ensures
        context_entries(made) == no_entries(),
{
    tera::Context::new()
}

/// Calls `tera::Context::insert`. Trusted: the context then holds the value
/// under the name, in place of what it held there, and the rest as before.
#[verifier::external_body]
pub(crate) fn context_insert(context: &mut tera::Context, name: &str, value: &tera::Value)
    ensures
        context_entries(*final(context)) == context_entries(*old(context)).insert(
            name@,
            json_of(*value),
        ),
{
    context.insert(name, value)
}

/// The names of the templates that an engine holds.
pub uninterp spec fn template_names(engine: tera::Tera) -> Set<Seq<char>>;

/// The name of the template that a failure reports as not found, where
/// that is what the failure reports.
pub uninterp spec fn missing_template(error: tera::Error) -> Option<Seq<char>>;

/// Calls `tera::Tera::render`. Trusted: where the engine holds no template
/// of the name, it fails and reports that template as not found. What
/// comes back otherwise depends on the templates and functions that the
/// engine holds: nothing is claimed of it.
#[verifier::external_body]
pub(crate) fn tera_render(engine: &tera::Tera, template: &str, context: &tera::Context) -> (r:
    Result<String, tera::Error>)
    ensures
        !template_names(*engine).contains(template@) ==> r is Err && missing_template(r->Err_0)
            == Some(template@),
{
    engine.render(template, context)
}

/// Calls `tera::Tera::render_str`. What comes back depends on the functions
/// that the engine holds: nothing is claimed of it.
#[verifier::external_body]
pub(crate) fn tera_render_str(engine: &mut tera::Tera, input: &str, context: &tera::Context)
    -> Result<String, tera::Error> {
    engine.render_str(input, context)
}

/// Why a rendering failed.
#[derive(Debug, PartialEq, Eq)]
pub enum RenderError {
    /// The engine has no template of this name.
    TemplateNotFound(String),
    /// Any other failure, in the engine's words.
    Other(String),
}

/// A failure that reports the template `name` as not found.
pub open spec fn reports_missing(failure: RenderError, name: Seq<char>) -> bool {
    failure matches RenderError::TemplateNotFound(n) && n@ == name
}

/// Reads a `tera::Error`: tells a missing template, which carries its name,
/// from the other kinds, which are put into words by the error's `Display`.
/// Trusted: a failure that reports a template as not found is read as such,
/// with the name; any other is read as words. Nothing is claimed of the
/// words.
#[verifier::external_body]
pub(crate) fn render_error(error: tera::Error) -> (failure: RenderError)
    ensures
        match missing_template(error) {
            Some(name) => reports_missing(failure, name),
            None => failure is Other,
        },
{
    match error.kind {
        tera::ErrorKind::TemplateNotFound(name) => RenderError::TemplateNotFound(name),
        _ => RenderError::Other(error.to_string()),
    }
}

/// What a rendering gives for what the engine gave: the text where there is
/// one, else the failure, a missing template by its name and any other
/// failure in words.
pub fn render_outcome(rendered: Result<String, tera::Error>) -> (r: Result<String, RenderError>)
    ensures
        match rendered {
            Ok(text) => r == Ok::<String, RenderError>(text),
            Err(e) => r is Err && match missing_template(e) {
                Some(name) => reports_missing(r->Err_0, name),
                None => r->Err_0 is Other,
            },
        },
{
    match rendered {
        Ok(text) => Ok(text),
        Err(e) => Err(render_error(e)),
    }
}

/// The value of an optional text: nothing where there is none.
pub open spec fn optional_text_json(text: Option<Seq<char>>) -> Json {
    match text {
        Some(text) => Json::Text(text),
        None => Json::Null,
    }
}

/// The value of an optional text.
pub fn value_optional_text(text: Option<&str>) -> (value: tera::Value)
    ensures
        json_of(value) == optional_text_json(
            match text {
                Some(t) => Some(t@),
                None => None,
            },
        ),
{
    match text {
        Some(t) => value_text(t),
        None => value_null(),
    }
}

} // verus!
