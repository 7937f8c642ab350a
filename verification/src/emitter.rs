//! Assembly of the output unit: the source text of every generated
//! operation, one after the other, handed to the formatter and freed of the
//! marker that assembly may leave behind.

use vstd::prelude::*;
use vstd::string::*;
use crate::binder::{Argument, ArgumentModel, Binding, BindingModel};
use crate::error::{agrees, Construct, GenError, GenErrorModel};
use crate::outside::{format_source, formatted_source, string_literal, string_literal_of};
use crate::registry::NameRegistry;
use crate::synth::{
    all_normalized,
    generate_operation_response,
    response_text,
    GeneratedOperation,
    OperationModel,
};
use crate::text::{strip_marker, without_marker};
use crate::types::type_name_of;

verus! {

/// One unit of output: a logical name and the text that belongs under it.
#[derive(Debug, PartialEq, Eq)]
pub struct OutputUnit {
    pub name: String,
    pub content: String,
}

/// The mathematical value of an `OutputUnit`.
pub ghost struct OutputUnitModel {
    pub name: Seq<char>,
    pub content: Seq<char>,
}

impl DeepView for OutputUnit {
    type V = OutputUnitModel;

    open spec fn deep_view(&self) -> OutputUnitModel {
        OutputUnitModel { name: self.name@, content: self.content@ }
    }
}

/// The name of the one unit that generation produces.
pub open spec fn unit_name() -> Seq<char> {
    "somefile.rs"@
}

/// The empty declaration that separates items during assembly and is taken
/// out of the formatted text.
pub open spec fn marker_text() -> Seq<char> {
    "type newline = ();"@
}

/// The documentation attribute that holds a string literal.
pub open spec fn doc_attribute_of(literal: Seq<char>) -> Seq<char> {
    "#[doc = "@ + literal + "]\n"@
}

/// The documentation attribute of one line: the line follows a space, as
/// comment text does.
pub open spec fn doc_line_source(line: Seq<char>) -> Seq<char> {
    doc_attribute_of(string_literal_of(" "@ + line))
}

/// The documentation attributes of the first `n` lines.
pub open spec fn docs_source(docs: Seq<Seq<char>>, n: int) -> Seq<char>
    decreases n,
{
    if n <= 0 {
        Seq::empty()
    } else {
        docs_source(docs, n - 1) + doc_line_source(docs[n - 1])
    }
}

/// The identifiers of the first `n` bindings, each followed by a comma.
pub open spec fn binding_names(bindings: Seq<BindingModel>, n: int) -> Seq<char>
    decreases n,
{
    if n <= 0 {
        Seq::empty()
    } else {
        binding_names(bindings, n - 1) + bindings[n - 1].ident + ", "@
    }
}

/// The types of the first `n` bindings, each followed by a comma.
pub open spec fn binding_types(bindings: Seq<BindingModel>, n: int) -> Seq<char>
    decreases n,
{
    if n <= 0 {
        Seq::empty()
    } else {
        binding_types(bindings, n - 1) + type_name_of(bindings[n - 1].ty) + ", "@
    }
}

/// The source text of one argument: a pattern that names what is extracted,
/// a colon, and the extractor's type.
pub open spec fn argument_source(argument: ArgumentModel) -> Seq<char> {
    match argument {
        ArgumentModel::State => "State(state): State<ApiState>"@,
        ArgumentModel::Path(bindings) => "Path(("@ + binding_names(
            bindings,
            bindings.len() as int,
        ) + ")): Path<("@ + binding_types(bindings, bindings.len() as int) + ")>"@,
        ArgumentModel::Query(binding) => "Query("@ + binding.ident + "): Query<"@ + type_name_of(
            binding.ty,
        ) + ">"@,
        ArgumentModel::Json => "Json(request): Json<TODO>"@,
        ArgumentModel::Form => "Form(request): Form<TODO>"@,
    }
}

/// The source text of the first `n` arguments, each followed by a comma.
pub open spec fn arguments_source(arguments: Seq<ArgumentModel>, n: int) -> Seq<char>
    decreases n,
{
    if n <= 0 {
        Seq::empty()
    } else {
        arguments_source(arguments, n - 1) + argument_source(arguments[n - 1]) + ", "@
    }
}

/// The source text of one generated operation: its documentation, then a
/// public function that can suspend, with the operation's name, arguments
/// and return type, whose body is the marker of what is not yet written.
pub open spec fn operation_source(operation: OperationModel) -> Seq<char> {
    docs_source(operation.docs, operation.docs.len() as int) + "pub async fn "@ + operation.name
        + "("@ + arguments_source(operation.args, operation.args.len() as int) + ") "@
        + response_text() + " {\n    todo!();\n}\n"@
}

/// The source text of the first `n` operations, one after the other.
pub open spec fn unit_source(operations: Seq<OperationModel>, n: int) -> Seq<char>
    decreases n,
{
    if n <= 0 {
        Seq::empty()
    } else {
        unit_source(operations, n - 1) + operation_source(operations[n - 1])
    }
}

/// Whether a text is the source text of a unit of normalized operations.
pub open spec fn is_unit_source(source: Seq<char>) -> bool {
    exists|operations: Seq<OperationModel>|
        all_normalized(operations) && source == #[trigger] unit_source(
            operations,
            operations.len() as int,
        )
}

/// The unit that comes of the formatter's answer: the formatted text without
/// the marker, under the fixed name; a refusal where the formatter could not
/// read the unit.
pub open spec fn finished_unit(formatted: Option<Seq<char>>) -> Result<
    OutputUnitModel,
    GenErrorModel,
> {
    match formatted {
        Some(text) => Ok(
            OutputUnitModel { name: unit_name(), content: without_marker(text, marker_text()) },
        ),
        None => Err(GenErrorModel::UnsupportedConstruct(Construct::UnitSyntax)),
    }
}

/// The unit that is emitted for the given operations.
pub open spec fn emitted_unit(operations: Seq<OperationModel>) -> Result<
    OutputUnitModel,
    GenErrorModel,
> {
    finished_unit(formatted_source(unit_source(operations, operations.len() as int)))
}

/// Writes the documentation attribute that holds a string literal.
pub fn doc_attribute(literal: &str) -> (r: String)
    ensures
        r@ == doc_attribute_of(literal@),
{
    let mut out = String::from_str("#[doc = ");
    out.append(literal);
    out.append("]\n");
    out
}

/// Writes the documentation attributes of an operation's lines.
pub fn render_docs(docs: &Vec<String>) -> (r: String)
    ensures
        r@ == docs_source(docs.deep_view(), docs.len() as int),
{
    let ghost lines = docs.deep_view();
    let mut out = String::new();
    let mut i: usize = 0;
    while i < docs.len()
        invariant
            i <= docs.len(),
            lines == docs.deep_view(),
            out@ == docs_source(lines, i as int),
        decreases docs.len() - i,
    {
        let mut spaced = String::from_str(" ");
        spaced.append(docs[i].as_str());
        let literal = string_literal(spaced.as_str());
        let attribute = doc_attribute(literal.as_str());
        assert(lines[i as int] == docs@[i as int]@);
        out.append(attribute.as_str());
        i = i + 1;
    }
    out
}

/// Writes the identifiers and the types of a path's bindings.
fn render_bindings(bindings: &Vec<Binding>) -> (r: (String, String))
    ensures
        r.0@ == binding_names(bindings.deep_view(), bindings.len() as int),
        r.1@ == binding_types(bindings.deep_view(), bindings.len() as int),
{
    let ghost models = bindings.deep_view();
    let mut names = String::new();
    let mut types = String::new();
    let mut i: usize = 0;
    while i < bindings.len()
        invariant
            i <= bindings.len(),
            models == bindings.deep_view(),
            names@ == binding_names(models, i as int),
            types@ == binding_types(models, i as int),
        decreases bindings.len() - i,
    {
        assert(models[i as int] == bindings@[i as int].deep_view());
        names.append(bindings[i].ident.as_str());
        names.append(", ");
        let ty = bindings[i].ty.name();
        types.append(ty.as_str());
        types.append(", ");
        i = i + 1;
    }
    (names, types)
}

/// Writes the source text of one argument.
pub fn render_argument(argument: &Argument) -> (r: String)
    ensures
        r@ == argument_source(argument.deep_view()),
{
    match argument {
        Argument::State => String::from_str("State(state): State<ApiState>"),
        Argument::Path(bindings) => {
            let (names, types) = render_bindings(bindings);
            let mut out = String::from_str("Path((");
            out.append(names.as_str());
            out.append(")): Path<(");
            out.append(types.as_str());
            out.append(")>");
            out
        },
        Argument::Query(binding) => {
            let ty = binding.ty.name();
            let mut out = String::from_str("Query(");
            out.append(binding.ident.as_str());
            out.append("): Query<");
            out.append(ty.as_str());
            out.append(">");
            out
        },
        Argument::Json => String::from_str("Json(request): Json<TODO>"),
        Argument::Form => String::from_str("Form(request): Form<TODO>"),
    }
}

/// Writes the source text of an argument list.
fn render_arguments(arguments: &Vec<Argument>) -> (r: String)
    ensures
        r@ == arguments_source(arguments.deep_view(), arguments.len() as int),
{
    let ghost models = arguments.deep_view();
    let mut out = String::new();
    let mut i: usize = 0;
    while i < arguments.len()
        invariant
            i <= arguments.len(),
            models == arguments.deep_view(),
            out@ == arguments_source(models, i as int),
        decreases arguments.len() - i,
    {
        assert(models[i as int] == arguments@[i as int].deep_view());
        let argument = render_argument(&arguments[i]);
        out.append(argument.as_str());
        out.append(", ");
        i = i + 1;
    }
    out
}

/// Writes the source text of one generated operation.
pub fn render_operation(operation: &GeneratedOperation) -> (r: String)
    ensures
        r@ == operation_source(operation.deep_view()),
{
    let mut out = render_docs(&operation.docs);
    let arguments = render_arguments(&operation.args);
    let response = generate_operation_response();
    out.append("pub async fn ");
    out.append(operation.name.as_str());
    out.append("(");
    out.append(arguments.as_str());
    out.append(") ");
    out.append(response.as_str());
    out.append(" {\n    todo!();\n}\n");
    out
}

/// Writes the source text of a unit: every operation, in the given order.
pub fn render_unit(operations: &Vec<GeneratedOperation>) -> (r: String)
    ensures
        r@ == unit_source(operations.deep_view(), operations.len() as int),
{
    let ghost models = operations.deep_view();
    let mut out = String::new();
    let mut i: usize = 0;
    while i < operations.len()
        invariant
            i <= operations.len(),
            models == operations.deep_view(),
            out@ == unit_source(models, i as int),
        decreases operations.len() - i,
    {
        assert(models[i as int] == operations@[i as int].deep_view());
        let operation = render_operation(&operations[i]);
        out.append(operation.as_str());
        i = i + 1;
    }
    out
}

/// Makes the output unit of the formatter's answer.
pub fn finish_unit(formatted: Option<String>) -> (r: Result<OutputUnit, GenError>)
    ensures
        agrees(r, finished_unit(formatted.deep_view())),
{
    match formatted {
        Some(text) => {
            let content = strip_marker(text.as_str(), "type newline = ();");
            Ok(OutputUnit { name: String::from_str("somefile.rs"), content })
        },
        None => Err(GenError::UnsupportedConstruct(Construct::UnitSyntax)),
    }
}

/// Emits the registry's operations as one formatted unit, in the order of
/// their names.
pub fn emit(registry: &NameRegistry) -> (r: Result<OutputUnit, GenError>)
    requires
        all_normalized(registry@),
    ensures
        agrees(r, emitted_unit(registry@)),
{
    let operations = registry.methods();
    let source = render_unit(operations);
    let formatted = format_source(source.as_str());
    finish_unit(formatted)
}

} // verus!
