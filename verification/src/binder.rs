//! The argument list of a generated operation: the shared state, the
//! combined binder of the path's shared parameters, one binder per
//! operation-scoped parameter, and the binder of the request body.

use vstd::prelude::*;
use vstd::string::*;
use crate::document::{
    ApiDocument,
    ComponentParameter,
    Components,
    Operation,
    Parameter,
    ParameterFormat,
    ParameterOrRef,
    RequestBodyOrRef,
    SchemaKind,
};
use crate::error::{agrees, Construct, GenError, GenErrorModel};
use crate::outside::{expression_syntax, is_expression, is_normalized, snake_case, snake_case_of};
use crate::text::{compare_names, last_segment, last_segment_of, NameOrder};
use crate::types::{get_parameter_type, parameter_type, ResolvedType};

verus! {

/// An identifier bound to a value of a resolved type.
#[derive(Debug, PartialEq, Eq)]
pub struct Binding {
    pub ident: String,
    pub ty: ResolvedType,
}

/// The mathematical value of a `Binding`.
pub ghost struct BindingModel {
    pub ident: Seq<char>,
    pub ty: ResolvedType,
}

impl DeepView for Binding {
    type V = BindingModel;

    open spec fn deep_view(&self) -> BindingModel {
        BindingModel { ident: self.ident@, ty: self.ty }
    }
}

/// One argument of a generated operation.
#[derive(Debug, PartialEq, Eq)]
pub enum Argument {
    /// The shared server state; the first argument of every operation.
    State,
    /// The tuple of a path's shared parameters, in declaration order.
    Path(Vec<Binding>),
    /// One operation-scoped parameter.
    Query(Binding),
    /// A JSON request body, its payload type left open.
    Json,
    /// A form-encoded request body, its payload type left open.
    Form,
}

/// The mathematical value of an `Argument`.
pub ghost enum ArgumentModel {
    State,
    Path(Seq<BindingModel>),
    Query(BindingModel),
    Json,
    Form,
}

impl DeepView for Argument {
    type V = ArgumentModel;

    open spec fn deep_view(&self) -> ArgumentModel {
        match self {
            Argument::State => ArgumentModel::State,
            Argument::Path(bindings) => ArgumentModel::Path(bindings.deep_view()),
            Argument::Query(binding) => ArgumentModel::Query(binding.deep_view()),
            Argument::Json => ArgumentModel::Json,
            Argument::Form => ArgumentModel::Form,
        }
    }
}

/// The media type of a JSON request body.
pub open spec fn json_media_type() -> Seq<char> {
    "application/json"@
}

/// The media type of a form-encoded request body.
pub open spec fn form_media_type() -> Seq<char> {
    "application/x-www-form-urlencoded"@
}

/// The first component from position `from` on that has the given name.
pub open spec fn component_lookup(
    entries: Seq<ComponentParameter>,
    name: Seq<char>,
    from: int,
) -> Option<ParameterOrRef>
    decreases entries.len() - from,
{
    if from >= entries.len() {
        None
    } else if entries[from].name@ == name {
        Some(entries[from].parameter)
    } else {
        component_lookup(entries, name, from + 1)
    }
}

/// The parameter that a shared parameter stands for. A reference is looked
/// up in the component table by its last segment; it is missing where there
/// is no table, no component of that name, or the component is itself a
/// reference.
pub open spec fn shared_parameter(definition: ApiDocument, parameter: ParameterOrRef) -> Result<
    Parameter,
    GenErrorModel,
> {
    match parameter {
        ParameterOrRef::Item(item) => Ok(item),
        ParameterOrRef::Reference(reference) => match definition.components {
            None => Err(GenErrorModel::MissingReference(reference@)),
            Some(components) => match component_lookup(
                components.parameters@,
                last_segment_of(reference@),
                0,
            ) {
                Some(ParameterOrRef::Item(item)) => Ok(item),
                _ => Err(GenErrorModel::MissingReference(reference@)),
            },
        },
    }
}

/// The error of the first of the first `n` shared parameters that does not
/// resolve, if there is one.
pub open spec fn first_unresolved(
    definition: ApiDocument,
    parameters: Seq<ParameterOrRef>,
    n: int,
) -> Option<GenErrorModel>
    decreases n,
{
    if n <= 0 {
        None
    } else {
        match first_unresolved(definition, parameters, n - 1) {
            Some(e) => Some(e),
            None => match shared_parameter(definition, parameters[n - 1]) {
                Ok(_) => None,
                Err(e) => Some(e),
            },
        }
    }
}

/// The binding of one shared parameter: its normalized name and its
/// resolved type.
pub open spec fn shared_binding(parameter: Parameter) -> Result<BindingModel, GenErrorModel> {
    match parameter_type(parameter) {
        Ok(ty) => Ok(BindingModel { ident: snake_case_of(parameter.name@), ty }),
        Err(c) => Err(GenErrorModel::UnsupportedConstruct(c)),
    }
}

/// The bindings of the first `n` shared parameters, all of which resolve, or
/// the error of the first whose type is not supported.
pub open spec fn shared_bindings(
    definition: ApiDocument,
    parameters: Seq<ParameterOrRef>,
    n: int,
) -> Result<Seq<BindingModel>, GenErrorModel>
    decreases n,
{
    if n <= 0 {
        Ok(Seq::empty())
    } else {
        match shared_bindings(definition, parameters, n - 1) {
            Err(e) => Err(e),
            Ok(bindings) => match shared_parameter(definition, parameters[n - 1]) {
                Err(e) => Err(e),
                Ok(parameter) => match shared_binding(parameter) {
                    Err(e) => Err(e),
                    Ok(binding) => Ok(bindings.push(binding)),
                },
            },
        }
    }
}

/// The combined binder of a path's shared parameters: none where the path
/// has no shared parameters. Every reference is resolved before any type is.
pub open spec fn path_argument(definition: ApiDocument, parameters: Seq<ParameterOrRef>) -> Result<
    Option<ArgumentModel>,
    GenErrorModel,
> {
    match first_unresolved(definition, parameters, parameters.len() as int) {
        Some(e) => Err(e),
        None => if parameters.len() == 0 {
            Ok(None)
        } else {
            match shared_bindings(definition, parameters, parameters.len() as int) {
                Err(e) => Err(e),
                Ok(bindings) => Ok(Some(ArgumentModel::Path(bindings))),
            }
        },
    }
}

/// The binder of an operation-scoped parameter, given its normalized name
/// and whether that name reads as an expression.
pub open spec fn query_argument_of(ident: Seq<char>, expression: bool, parameter: Parameter) -> Result<
    ArgumentModel,
    GenErrorModel,
> {
    if !expression {
        Err(GenErrorModel::UnsupportedConstruct(Construct::BinderIdentifier))
    } else {
        match parameter_type(parameter) {
            Ok(ty) => Ok(ArgumentModel::Query(BindingModel { ident, ty })),
            Err(c) => Err(GenErrorModel::UnsupportedConstruct(c)),
        }
    }
}

/// The binder of an operation-scoped parameter. A reference stops
/// generation.
pub open spec fn query_binding(parameter: ParameterOrRef) -> Result<ArgumentModel, GenErrorModel> {
    match parameter {
        ParameterOrRef::Reference(_) => Err(
            GenErrorModel::UnsupportedConstruct(Construct::ParameterReference),
        ),
        ParameterOrRef::Item(item) => query_argument_of(
            snake_case_of(item.name@),
            expression_syntax(snake_case_of(item.name@)),
            item,
        ),
    }
}

/// The binders of the first `n` operation-scoped parameters, or the error of
/// the first that has none.
pub open spec fn query_arguments(parameters: Seq<ParameterOrRef>, n: int) -> Result<
    Seq<ArgumentModel>,
    GenErrorModel,
>
    decreases n,
{
    if n <= 0 {
        Ok(Seq::empty())
    } else {
        match query_arguments(parameters, n - 1) {
            Err(e) => Err(e),
            Ok(arguments) => match query_binding(parameters[n - 1]) {
                Err(e) => Err(e),
                Ok(argument) => Ok(arguments.push(argument)),
            },
        }
    }
}

/// The binder that a media type selects.
pub open spec fn body_argument_of(media_type: Seq<char>) -> Result<ArgumentModel, GenErrorModel> {
    if media_type == json_media_type() {
        Ok(ArgumentModel::Json)
    } else if media_type == form_media_type() {
        Ok(ArgumentModel::Form)
    } else {
        Err(GenErrorModel::UnsupportedConstruct(Construct::MediaType))
    }
}

/// The binder of a request body: that of its first media type; none where
/// no body, or no media type, is declared.
pub open spec fn request_body_argument_of(body: Option<RequestBodyOrRef>) -> Result<
    Option<ArgumentModel>,
    GenErrorModel,
> {
    match body {
        None => Ok(None),
        Some(RequestBodyOrRef::Reference(_)) => Err(
            GenErrorModel::UnsupportedConstruct(Construct::RequestBodyReference),
        ),
        Some(RequestBodyOrRef::Item(item)) => if item.media_types@.len() == 0 {
            Ok(None)
        } else {
            match body_argument_of(item.media_types@[0]@) {
                Ok(argument) => Ok(Some(argument)),
                Err(e) => Err(e),
            }
        },
    }
}

/// The sequence that holds an optional argument, if it is there.
pub open spec fn optional_argument(argument: Option<ArgumentModel>) -> Seq<ArgumentModel> {
    match argument {
        Some(a) => seq![a],
        None => Seq::empty(),
    }
}

/// The argument list of an operation: the shared state, the path's binder
/// if it has one, the binders of the operation's parameters in order, and
/// the binder of its request body if it has one. The parameters are looked
/// at before the request body.
pub open spec fn operation_arguments(path_arguments: Option<ArgumentModel>, operation: Operation) -> Result<
    Seq<ArgumentModel>,
    GenErrorModel,
> {
    match query_arguments(operation.parameters@, operation.parameters@.len() as int) {
        Err(e) => Err(e),
        Ok(queries) => match request_body_argument_of(operation.request_body) {
            Err(e) => Err(e),
            Ok(body) => Ok(
                seq![ArgumentModel::State] + optional_argument(path_arguments) + queries
                    + optional_argument(body),
            ),
        },
    }
}

/// Whether every identifier that an argument binds is a snake-case form.
pub open spec fn argument_normalized(argument: ArgumentModel) -> bool {
    match argument {
        ArgumentModel::Path(bindings) => forall|i: int|
            0 <= i < bindings.len() ==> is_normalized((#[trigger] bindings[i]).ident),
        ArgumentModel::Query(binding) => is_normalized(binding.ident),
        _ => true,
    }
}

/// Whether an optional path binder binds snake-case forms only.
pub open spec fn path_arguments_normalized(path_arguments: Option<ArgumentModel>) -> bool {
    path_arguments matches Some(argument) ==> argument_normalized(argument)
}

/// The bindings of shared parameters bind snake-case forms.
pub proof fn lemma_shared_bindings_normalized(
    definition: ApiDocument,
    parameters: Seq<ParameterOrRef>,
    n: int,
)
    ensures
        shared_bindings(definition, parameters, n) matches Ok(bindings) ==> forall|i: int|
            0 <= i < bindings.len() ==> is_normalized((#[trigger] bindings[i]).ident),
    decreases n,
{
    if n > 0 {
        lemma_shared_bindings_normalized(definition, parameters, n - 1);
    }
}

/// The binder of a path's shared parameters binds snake-case forms.
pub proof fn lemma_path_argument_normalized(
    definition: ApiDocument,
    parameters: Seq<ParameterOrRef>,
)
    ensures
        path_argument(definition, parameters) matches Ok(path_arguments)
            ==> path_arguments_normalized(path_arguments),
{
    lemma_shared_bindings_normalized(definition, parameters, parameters.len() as int);
}

/// The binders of operation-scoped parameters bind snake-case forms.
pub proof fn lemma_query_arguments_normalized(parameters: Seq<ParameterOrRef>, n: int)
    ensures
        query_arguments(parameters, n) matches Ok(arguments) ==> forall|i: int|
            0 <= i < arguments.len() ==> argument_normalized(#[trigger] arguments[i]),
    decreases n,
{
    if n > 0 {
        lemma_query_arguments_normalized(parameters, n - 1);
    }
}

/// An argument list binds snake-case forms if the path's binder does.
pub proof fn lemma_operation_arguments_normalized(
    path_arguments: Option<ArgumentModel>,
    operation: Operation,
)
    requires
        path_arguments_normalized(path_arguments),
    ensures
        operation_arguments(path_arguments, operation) matches Ok(arguments) ==> forall|i: int|
            0 <= i < arguments.len() ==> argument_normalized(#[trigger] arguments[i]),
{
    lemma_query_arguments_normalized(operation.parameters@, operation.parameters@.len() as int);
}

/// Whether a parameter has an inline schema of one of the scalar kinds.
pub open spec fn scalar_parameter(parameter: Parameter) -> bool {
    parameter.format matches ParameterFormat::Schema(kind) && (kind == SchemaKind::String || kind
        == SchemaKind::Number || kind == SchemaKind::Integer || kind == SchemaKind::Boolean)
}

/// Whether an operation-scoped parameter is of a supported shape: given
/// inline, with a scalar schema and a name whose normalized form reads as an
/// expression.
pub open spec fn query_parameter_supported(parameter: ParameterOrRef) -> bool {
    parameter matches ParameterOrRef::Item(item) && scalar_parameter(item) && expression_syntax(
        snake_case_of(item.name@),
    )
}

/// Whether a request body is of a supported shape: absent, or given inline
/// with no media type or with a first media type that is JSON or
/// form-encoded.
pub open spec fn request_body_supported(body: Option<RequestBodyOrRef>) -> bool {
    match body {
        None => true,
        Some(RequestBodyOrRef::Reference(_)) => false,
        Some(RequestBodyOrRef::Item(item)) => item.media_types@.len() == 0 || item.media_types@[0]@
            == json_media_type() || item.media_types@[0]@ == form_media_type(),
    }
}

/// Whether the shared parameters of a path are of a supported shape: each
/// resolves to a parameter with a scalar schema.
pub open spec fn shared_parameters_supported(
    definition: ApiDocument,
    parameters: Seq<ParameterOrRef>,
) -> bool {
    forall|j: int|
        0 <= j < parameters.len() ==> (shared_parameter(
            definition,
            #[trigger] parameters[j],
        ) matches Ok(item) && scalar_parameter(item))
}

/// A binder is built for every operation-scoped parameter of a supported
/// shape, and for no other.
pub proof fn lemma_query_binding_supported(parameter: ParameterOrRef)
    ensures
        query_binding(parameter) is Ok <==> query_parameter_supported(parameter),
        query_binding(parameter) matches Err(e) ==> e is UnsupportedConstruct,
{
}

/// The binders of the first `n` operation-scoped parameters are built
/// exactly if each of them is of a supported shape; then there are `n`.
pub proof fn lemma_query_arguments_supported(parameters: Seq<ParameterOrRef>, n: int)
    requires
        0 <= n <= parameters.len(),
    ensures
        query_arguments(parameters, n) is Ok <==> forall|j: int|
            0 <= j < n ==> query_parameter_supported(#[trigger] parameters[j]),
        query_arguments(parameters, n) matches Ok(arguments) ==> arguments.len() == n,
        query_arguments(parameters, n) matches Err(e) ==> e is UnsupportedConstruct,
    decreases n,
{
    if n > 0 {
        lemma_query_arguments_supported(parameters, n - 1);
        lemma_query_binding_supported(parameters[n - 1]);
        if query_arguments(parameters, n) is Ok {
            assert forall|j: int| 0 <= j < n implies query_parameter_supported(
                #[trigger] parameters[j],
            ) by {
                if j < n - 1 {
                } else {
                    assert(query_binding(parameters[n - 1]) is Ok);
                }
            }
        }
    }
}

/// The binder of a request body is built exactly if the body is of a
/// supported shape.
pub proof fn lemma_request_body_supported(body: Option<RequestBodyOrRef>)
    ensures
        request_body_argument_of(body) is Ok <==> request_body_supported(body),
        request_body_argument_of(body) matches Err(e) ==> e is UnsupportedConstruct,
{
}

/// The argument list of an operation is built exactly if its parameters and
/// its request body are of supported shapes. It begins with the shared
/// state, which the path's binder follows if the path has one.
pub proof fn lemma_operation_arguments_supported(
    path_arguments: Option<ArgumentModel>,
    operation: Operation,
)
    ensures
        operation_arguments(path_arguments, operation) is Ok <==> request_body_supported(
            operation.request_body,
        ) && forall|j: int|
            0 <= j < operation.parameters@.len() ==> query_parameter_supported(
                #[trigger] operation.parameters@[j],
            ),
        operation_arguments(path_arguments, operation) matches Err(e)
            ==> e is UnsupportedConstruct,
        operation_arguments(path_arguments, operation) matches Ok(arguments) ==> {
            &&& arguments.len() >= 1
            &&& arguments[0] == ArgumentModel::State
            &&& path_arguments matches Some(binder) ==> arguments.len() >= 2 && arguments[1]
                == binder
        },
{
    lemma_query_arguments_supported(operation.parameters@, operation.parameters@.len() as int);
    lemma_request_body_supported(operation.request_body);
}

/// The shared parameters of a path give a binder exactly if they are of a
/// supported shape.
pub proof fn lemma_path_argument_supported(
    definition: ApiDocument,
    parameters: Seq<ParameterOrRef>,
)
    ensures
        path_argument(definition, parameters) is Ok <==> shared_parameters_supported(
            definition,
            parameters,
        ),
{
    lemma_shared_supported_upto(definition, parameters, parameters.len() as int);
}

/// The first `n` shared parameters resolve and give bindings exactly if
/// each of them resolves to a parameter with a scalar schema.
proof fn lemma_shared_supported_upto(
    definition: ApiDocument,
    parameters: Seq<ParameterOrRef>,
    n: int,
)
    requires
        0 <= n <= parameters.len(),
    ensures
        first_unresolved(definition, parameters, n) is None <==> forall|j: int|
            0 <= j < n ==> shared_parameter(definition, #[trigger] parameters[j]) is Ok,
        (first_unresolved(definition, parameters, n) is None && shared_bindings(
            definition,
            parameters,
            n,
        ) is Ok) <==> forall|j: int|
            0 <= j < n ==> (shared_parameter(definition, #[trigger] parameters[j]) matches Ok(
                item,
            ) && scalar_parameter(item)),
    decreases n,
{
    if n > 0 {
        lemma_shared_supported_upto(definition, parameters, n - 1);
        if first_unresolved(definition, parameters, n) is None {
            assert forall|j: int| 0 <= j < n implies shared_parameter(
                definition,
                #[trigger] parameters[j],
            ) is Ok by {
                if j == n - 1 {
                    assert(shared_parameter(definition, parameters[n - 1]) is Ok);
                }
            }
            if shared_bindings(definition, parameters, n) is Ok {
                assert forall|j: int| 0 <= j < n implies (shared_parameter(
                    definition,
                    #[trigger] parameters[j],
                ) matches Ok(item) && scalar_parameter(item)) by {
                    if j == n - 1 {
                        assert(shared_parameter(definition, parameters[n - 1]) is Ok);
                    }
                }
            }
        }
    }
}

/// Whether every one of a path's shared parameters resolves.
pub open spec fn shared_parameters_resolve(
    definition: ApiDocument,
    parameters: Seq<ParameterOrRef>,
) -> bool {
    forall|j: int|
        0 <= j < parameters.len() ==> shared_parameter(definition, #[trigger] parameters[j]) is Ok
}

/// The binder of a path's shared parameters fails by a missing reference or
/// by an unsupported construct; where every shared parameter resolves, by
/// an unsupported construct only: that of the first parameter whose schema
/// is not a scalar.
pub proof fn lemma_path_argument_failure(
    definition: ApiDocument,
    parameters: Seq<ParameterOrRef>,
)
    ensures
        path_argument(definition, parameters) matches Err(e) ==> e is MissingReference
            || e is UnsupportedConstruct,
        shared_parameters_resolve(definition, parameters) ==> (path_argument(
            definition,
            parameters,
        ) matches Err(e) ==> e is UnsupportedConstruct),
        shared_parameters_supported(definition, parameters) ==> shared_parameters_resolve(
            definition,
            parameters,
        ),
{
    lemma_shared_failure_upto(definition, parameters, parameters.len() as int);
    lemma_shared_supported_upto(definition, parameters, parameters.len() as int);
}

/// How the first `n` shared parameters can fail: in resolution by a missing
/// reference, and, where all of them resolve, in their bindings by an
/// unsupported construct.
proof fn lemma_shared_failure_upto(
    definition: ApiDocument,
    parameters: Seq<ParameterOrRef>,
    n: int,
)
    requires
        0 <= n <= parameters.len(),
    ensures
        first_unresolved(definition, parameters, n) matches Some(e) ==> e is MissingReference,
        first_unresolved(definition, parameters, n) is None ==> (shared_bindings(
            definition,
            parameters,
            n,
        ) matches Err(e) ==> e is UnsupportedConstruct),
    decreases n,
{
    if n > 0 {
        lemma_shared_failure_upto(definition, parameters, n - 1);
    }
}

/// The binder of a path's shared parameters depends on the document only
/// through its component table.
pub proof fn lemma_path_argument_reads_components(
    first: ApiDocument,
    second: ApiDocument,
    parameters: Seq<ParameterOrRef>,
)
    requires
        first.components == second.components,
    ensures
        path_argument(first, parameters) == path_argument(second, parameters),
{
    lemma_shared_reads_components(first, second, parameters, parameters.len() as int);
}

/// The resolution and the bindings of the first `n` shared parameters
/// depend on the document only through its component table.
proof fn lemma_shared_reads_components(
    first: ApiDocument,
    second: ApiDocument,
    parameters: Seq<ParameterOrRef>,
    n: int,
)
    requires
        first.components == second.components,
    ensures
        first_unresolved(first, parameters, n) == first_unresolved(second, parameters, n),
        shared_bindings(first, parameters, n) == shared_bindings(second, parameters, n),
    decreases n,
{
    if n > 0 {
        lemma_shared_reads_components(first, second, parameters, n - 1);
        assert(shared_parameter(first, parameters[n - 1]) == shared_parameter(
            second,
            parameters[n - 1],
        ));
    }
}

impl Binding {
    /// A copy of this binding.
    pub fn duplicate(&self) -> (r: Binding)
        ensures
            r.deep_view() == self.deep_view(),
    {
        Binding { ident: self.ident.clone(), ty: self.ty }
    }
}

impl Argument {
    /// A copy of this argument.
    pub fn duplicate(&self) -> (r: Argument)
        ensures
            r.deep_view() == self.deep_view(),
    {
        match self {
            Argument::State => Argument::State,
            Argument::Path(bindings) => {
                let mut copies: Vec<Binding> = Vec::new();
                let mut i: usize = 0;
                while i < bindings.len()
                    invariant
                        i <= bindings.len(),
                        copies.len() == i,
                        forall|j: int|
                            0 <= j < i ==> (#[trigger] copies@[j]).deep_view()
                                == bindings@[j].deep_view(),
                    decreases bindings.len() - i,
                {
                    copies.push(bindings[i].duplicate());
                    i = i + 1;
                }
                assert(copies.deep_view() =~= bindings.deep_view());
                Argument::Path(copies)
            },
            Argument::Query(binding) => Argument::Query(binding.duplicate()),
            Argument::Json => Argument::Json,
            Argument::Form => Argument::Form,
        }
    }
}

/// Looks a name up in the component table.
fn find_component<'a>(components: &'a Components, name: &str) -> (r: Option<&'a ParameterOrRef>)
    ensures
        match component_lookup(components.parameters@, name@, 0) {
            Some(p) => r matches Some(q) && *q == p,
            None => r is None,
        },
{
    let mut i: usize = 0;
    while i < components.parameters.len()
        invariant
            i <= components.parameters.len(),
            component_lookup(components.parameters@, name@, 0) == component_lookup(
                components.parameters@,
                name@,
                i as int,
            ),
        decreases components.parameters.len() - i,
    {
        let entry = &components.parameters[i];
        if compare_names(entry.name.as_str(), name) == NameOrder::Same {
            return Some(&entry.parameter);
        }
        i = i + 1;
    }
    None
}

/// Resolves one shared parameter against the component table.
pub fn resolve_shared_parameter<'a>(
    definition: &'a ApiDocument,
    parameter: &'a ParameterOrRef,
) -> (r: Result<&'a Parameter, GenError>)
    ensures
        match shared_parameter(*definition, *parameter) {
            Ok(p) => r matches Ok(q) && *q == p,
            Err(e) => r matches Err(x) && x@ == e,
        },
{
    match parameter {
        ParameterOrRef::Item(item) => Ok(item),
        ParameterOrRef::Reference(reference) => {
            match &definition.components {
                None => Err(GenError::MissingReference(reference.clone())),
                Some(components) => {
                    let name = last_segment(reference.as_str());
                    match find_component(components, name) {
                        Some(ParameterOrRef::Item(item)) => Ok(item),
                        _ => Err(GenError::MissingReference(reference.clone())),
                    }
                },
            }
        },
    }
}

/// Builds the combined binder of a path's shared parameters.
pub fn generate_path_args(definition: &ApiDocument, parameters: &Vec<ParameterOrRef>) -> (r: Result<
    Option<Argument>,
    GenError,
>)
    ensures
        agrees(r, path_argument(*definition, parameters@)),
{
    let mut resolved: Vec<&Parameter> = Vec::new();
    let mut i: usize = 0;
    while i < parameters.len()
        invariant
            i <= parameters.len(),
            resolved.len() == i,
            first_unresolved(*definition, parameters@, i as int) is None,
            forall|j: int|
                0 <= j < i ==> shared_parameter(*definition, parameters@[j]) == Ok::<
                    Parameter,
                    GenErrorModel,
                >(*#[trigger] resolved@[j]),
        decreases parameters.len() - i,
    {
        match resolve_shared_parameter(definition, &parameters[i]) {
            Ok(parameter) => {
                resolved.push(parameter);
            },
            Err(e) => {
                proof {
                    lemma_first_unresolved_stays(
                        *definition,
                        parameters@,
                        i + 1,
                        parameters@.len() as int,
                    );
                }
                return Err(e);
            },
        }
        i = i + 1;
    }
    if resolved.len() == 0 {
        return Ok(None);
    }
    let mut bindings: Vec<Binding> = Vec::new();
    let mut k: usize = 0;
    assert(bindings.deep_view() =~= Seq::<BindingModel>::empty());
    while k < resolved.len()
        invariant
            k <= resolved.len(),
            resolved.len() == parameters.len(),
            parameters.len() > 0,
            first_unresolved(*definition, parameters@, parameters@.len() as int) is None,
            forall|j: int|
                0 <= j < resolved.len() ==> shared_parameter(*definition, parameters@[j]) == Ok::<
                    Parameter,
                    GenErrorModel,
                >(*#[trigger] resolved@[j]),
            shared_bindings(*definition, parameters@, k as int) == Ok::<
                Seq<BindingModel>,
                GenErrorModel,
            >(bindings.deep_view()),
        decreases resolved.len() - k,
    {
        let parameter: &Parameter = resolved[k];
        let ident = snake_case(parameter.name.as_str());
        match get_parameter_type(parameter) {
            Ok(ty) => {
                let ghost before = bindings.deep_view();
                bindings.push(Binding { ident, ty });
                assert(bindings.deep_view() =~= before.push(
                    BindingModel { ident: snake_case_of(parameter.name@), ty },
                ));
            },
            Err(e) => {
                proof {
                    lemma_shared_bindings_stays(
                        *definition,
                        parameters@,
                        k + 1,
                        parameters@.len() as int,
                    );
                }
                return Err(e);
            },
        }
        k = k + 1;
    }
    Ok(Some(Argument::Path(bindings)))
}

/// Once one of the first `n` shared parameters fails to resolve, the error
/// stays the same however many more are looked at.
proof fn lemma_first_unresolved_stays(
    definition: ApiDocument,
    parameters: Seq<ParameterOrRef>,
    n: int,
    m: int,
)
    requires
        n <= m,
        first_unresolved(definition, parameters, n) is Some,
    ensures
        first_unresolved(definition, parameters, m) == first_unresolved(definition, parameters, n),
    decreases m - n,
{
    if n < m {
        lemma_first_unresolved_stays(definition, parameters, n, m - 1);
    }
}

/// Once the bindings of the first `n` shared parameters fail, the error
/// stays the same however many more are looked at.
proof fn lemma_shared_bindings_stays(
    definition: ApiDocument,
    parameters: Seq<ParameterOrRef>,
    n: int,
    m: int,
)
    requires
        n <= m,
        shared_bindings(definition, parameters, n) is Err,
    ensures
        shared_bindings(definition, parameters, m) == shared_bindings(definition, parameters, n),
    decreases m - n,
{
    if n < m {
        lemma_shared_bindings_stays(definition, parameters, n, m - 1);
    }
}

/// Once the binders of the first `n` parameters fail, the error stays the
/// same however many more are looked at.
proof fn lemma_query_arguments_stays(parameters: Seq<ParameterOrRef>, n: int, m: int)
    requires
        n <= m,
        query_arguments(parameters, n) is Err,
    ensures
        query_arguments(parameters, m) == query_arguments(parameters, n),
    decreases m - n,
{
    if n < m {
        lemma_query_arguments_stays(parameters, n, m - 1);
    }
}

/// Builds the binder of an operation-scoped parameter from its normalized
/// name and from whether that name reads as an expression.
pub fn query_argument(ident: String, expression: bool, parameter: &Parameter) -> (r: Result<
    Argument,
    GenError,
>)
    ensures
        agrees(r, query_argument_of(ident@, expression, *parameter)),
{
    if !expression {
        return Err(GenError::UnsupportedConstruct(Construct::BinderIdentifier));
    }
    match get_parameter_type(parameter) {
        Ok(ty) => Ok(Argument::Query(Binding { ident, ty })),
        Err(e) => Err(e),
    }
}

/// Builds the binder of an operation-scoped parameter.
pub fn bind_query_parameter(parameter: &ParameterOrRef) -> (r: Result<Argument, GenError>)
    ensures
        agrees(r, query_binding(*parameter)),
{
    match parameter {
        ParameterOrRef::Reference(_) => Err(
            GenError::UnsupportedConstruct(Construct::ParameterReference),
        ),
        ParameterOrRef::Item(item) => {
            let ident = snake_case(item.name.as_str());
            let expression = is_expression(ident.as_str());
            query_argument(ident, expression, item)
        },
    }
}

/// Selects the binder of a request body by its media type.
pub fn body_argument(media_type: &str) -> (r: Result<Argument, GenError>)
    ensures
        agrees(r, body_argument_of(media_type@)),
{
    if compare_names(media_type, "application/json") == NameOrder::Same {
        Ok(Argument::Json)
    } else if compare_names(media_type, "application/x-www-form-urlencoded") == NameOrder::Same {
        Ok(Argument::Form)
    } else {
        Err(GenError::UnsupportedConstruct(Construct::MediaType))
    }
}

/// Builds the binder of an operation's request body, if it declares one.
pub fn request_body_argument(body: &Option<RequestBodyOrRef>) -> (r: Result<
    Option<Argument>,
    GenError,
>)
    ensures
        agrees(r, request_body_argument_of(*body)),
{
    match body {
        None => Ok(None),
        Some(RequestBodyOrRef::Reference(_)) => Err(
            GenError::UnsupportedConstruct(Construct::RequestBodyReference),
        ),
        Some(RequestBodyOrRef::Item(item)) => {
            if item.media_types.len() == 0 {
                Ok(None)
            } else {
                match body_argument(item.media_types[0].as_str()) {
                    Ok(argument) => Ok(Some(argument)),
                    Err(e) => Err(e),
                }
            }
        },
    }
}

/// Builds the ordered argument list of one operation.
pub fn generate_operation_args(path_arguments: &Option<Argument>, operation: &Operation) -> (r:
    Result<Vec<Argument>, GenError>)
    ensures
        agrees(r, operation_arguments(path_arguments.deep_view(), *operation)),
{
    let mut fn_args: Vec<Argument> = Vec::new();
    fn_args.push(Argument::State);
    if let Some(argument) = path_arguments {
        fn_args.push(argument.duplicate());
    }
    let ghost head = seq![ArgumentModel::State] + optional_argument(path_arguments.deep_view());
    assert(fn_args.deep_view() =~= head);
    let mut i: usize = 0;
    while i < operation.parameters.len()
        invariant
            i <= operation.parameters.len(),
            query_arguments(operation.parameters@, i as int) is Ok,
            fn_args.deep_view() == head + query_arguments(operation.parameters@, i as int)->Ok_0,
        decreases operation.parameters.len() - i,
    {
        match bind_query_parameter(&operation.parameters[i]) {
            Ok(argument) => {
                let ghost before = fn_args.deep_view();
                let ghost model = argument.deep_view();
                fn_args.push(argument);
                assert(fn_args.deep_view() =~= before.push(model));
                assert(before.push(model) =~= head + query_arguments(
                    operation.parameters@,
                    i as int,
                )->Ok_0.push(model));
            },
            Err(e) => {
                proof {
                    lemma_query_arguments_stays(
                        operation.parameters@,
                        i + 1,
                        operation.parameters@.len() as int,
                    );
                }
                return Err(e);
            },
        }
        i = i + 1;
    }
    match request_body_argument(&operation.request_body) {
        Ok(Some(argument)) => {
            let ghost before = fn_args.deep_view();
            let ghost model = argument.deep_view();
            fn_args.push(argument);
            assert(fn_args.deep_view() =~= before + seq![model]);
        },
        Ok(None) => {
            assert(fn_args.deep_view() + Seq::<ArgumentModel>::empty() =~= fn_args.deep_view());
        },
        Err(e) => {
            return Err(e);
        },
    }
    Ok(fn_args)
}

} // verus!
