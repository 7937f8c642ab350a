use oapi_codegen::binder::{
    bind_query_parameter, body_argument, generate_operation_args, generate_path_args,
    query_argument, request_body_argument, resolve_shared_parameter, Argument, Binding,
};
use oapi_codegen::document::{
    ApiDocument, ComponentParameter, Components, Operation, Parameter, ParameterFormat,
    ParameterOrRef, RequestBody, RequestBodyOrRef, SchemaKind,
};
use oapi_codegen::error::{Construct, GenError};
use oapi_codegen::types::{ResolvedType, ScalarType};

fn plain(name: &str, required: bool, kind: SchemaKind) -> Parameter {
    Parameter { name: name.to_string(), required, format: ParameterFormat::Schema(kind) }
}

fn inline(name: &str, required: bool, kind: SchemaKind) -> ParameterOrRef {
    ParameterOrRef::Item(plain(name, required, kind))
}

fn reference(to: &str) -> ParameterOrRef {
    ParameterOrRef::Reference(to.to_string())
}

fn document(components: Option<Vec<(&str, ParameterOrRef)>>) -> ApiDocument {
    ApiDocument {
        paths: vec![],
        components: components.map(|entries| Components {
            parameters: entries
                .into_iter()
                .map(|(name, parameter)| ComponentParameter { name: name.to_string(), parameter })
                .collect(),
        }),
    }
}

fn operation(parameters: Vec<ParameterOrRef>, body: Option<RequestBodyOrRef>) -> Operation {
    Operation {
        operation_id: Some("op".to_string()),
        summary: None,
        description: None,
        parameters,
        request_body: body,
    }
}

fn body(media_types: &[&str]) -> Option<RequestBodyOrRef> {
    Some(RequestBodyOrRef::Item(RequestBody {
        media_types: media_types.iter().map(|m| m.to_string()).collect(),
    }))
}

fn binding(ident: &str, scalar: ScalarType, optional: bool) -> Binding {
    Binding { ident: ident.to_string(), ty: ResolvedType { scalar, optional } }
}

fn unsupported<T>(construct: Construct) -> Result<T, GenError> {
    Err(GenError::UnsupportedConstruct(construct))
}

#[test]
fn inline_shared_parameter_resolves_to_itself() {
    let doc = document(None);
    let parameter = inline("id", true, SchemaKind::Integer);
    assert_eq!(
        resolve_shared_parameter(&doc, &parameter),
        Ok(&plain("id", true, SchemaKind::Integer))
    );
}

#[test]
fn reference_resolves_by_its_last_segment() {
    let doc = document(Some(vec![
        ("other", inline("other", true, SchemaKind::String)),
        ("userId", inline("user-id", true, SchemaKind::Integer)),
    ]));
    assert_eq!(
        resolve_shared_parameter(&doc, &reference("#/components/parameters/userId")),
        Ok(&plain("user-id", true, SchemaKind::Integer))
    );
    assert_eq!(
        resolve_shared_parameter(&doc, &reference("other")),
        Ok(&plain("other", true, SchemaKind::String))
    );
}

#[test]
fn unresolved_reference_is_missing() {
    let missing = |to: &str| Err(GenError::MissingReference(to.to_string()));
    let without_table = document(None);
    assert_eq!(
        resolve_shared_parameter(&without_table, &reference("#/components/parameters/id")),
        missing("#/components/parameters/id")
    );
    let doc = document(Some(vec![
        ("id", inline("id", true, SchemaKind::Integer)),
        ("alias", reference("#/components/parameters/id")),
    ]));
    assert_eq!(
        resolve_shared_parameter(&doc, &reference("#/components/parameters/name")),
        missing("#/components/parameters/name")
    );
    assert_eq!(
        resolve_shared_parameter(&doc, &reference("#/components/parameters/alias")),
        missing("#/components/parameters/alias")
    );
    assert_eq!(
        resolve_shared_parameter(&doc, &reference("#/components/parameters/")),
        missing("#/components/parameters/")
    );
}

#[test]
fn path_without_shared_parameters_has_no_binder() {
    assert_eq!(generate_path_args(&document(None), &vec![]), Ok(None));
}

#[test]
fn shared_parameters_make_one_tuple_binder() {
    let doc = document(Some(vec![("orgId", inline("orgId", true, SchemaKind::String))]));
    let parameters = vec![
        inline("userId", true, SchemaKind::Integer),
        reference("#/components/parameters/orgId"),
        inline("verbose", false, SchemaKind::Boolean),
    ];
    assert_eq!(
        generate_path_args(&doc, &parameters),
        Ok(Some(Argument::Path(vec![
            binding("user_id", ScalarType::Integer, false),
            binding("org_id", ScalarType::Text, false),
            binding("verbose", ScalarType::Boolean, true),
        ])))
    );
}

#[test]
fn references_are_resolved_before_types() {
    let doc = document(None);
    let parameters = vec![inline("filter", true, SchemaKind::Object), reference("#/components/parameters/id")];
    assert_eq!(
        generate_path_args(&doc, &parameters),
        Err(GenError::MissingReference("#/components/parameters/id".to_string()))
    );
    let parameters = vec![
        inline("tags", true, SchemaKind::Array),
        inline("filter", true, SchemaKind::Object),
    ];
    assert_eq!(generate_path_args(&doc, &parameters), unsupported(Construct::ArraySchema));
}

#[test]
fn query_argument_of_given_parts() {
    let parameter = plain("pageSize", false, SchemaKind::Integer);
    assert_eq!(
        query_argument("page_size".to_string(), true, &parameter),
        Ok(Argument::Query(binding("page_size", ScalarType::Integer, true)))
    );
    assert_eq!(
        query_argument("page_size".to_string(), false, &parameter),
        unsupported(Construct::BinderIdentifier)
    );
    let object = plain("filter", true, SchemaKind::Object);
    assert_eq!(query_argument("filter".to_string(), true, &object), unsupported(Construct::ObjectSchema));
    assert_eq!(
        query_argument("filter".to_string(), false, &object),
        unsupported(Construct::BinderIdentifier)
    );
}

#[test]
fn query_parameter_is_bound_under_its_normalized_name() {
    assert_eq!(
        bind_query_parameter(&inline("pageSize", true, SchemaKind::Integer)),
        Ok(Argument::Query(binding("page_size", ScalarType::Integer, false)))
    );
    assert_eq!(
        bind_query_parameter(&inline("X-Request-ID", false, SchemaKind::String)),
        Ok(Argument::Query(binding("x_request_id", ScalarType::Text, true)))
    );
}

#[test]
fn query_parameter_needs_an_expression_for_a_name() {
    assert_eq!(
        bind_query_parameter(&inline("", true, SchemaKind::String)),
        unsupported(Construct::BinderIdentifier)
    );
    assert_eq!(
        bind_query_parameter(&inline("--", true, SchemaKind::String)),
        unsupported(Construct::BinderIdentifier)
    );
    assert_eq!(
        bind_query_parameter(&inline("type", true, SchemaKind::String)),
        unsupported(Construct::BinderIdentifier)
    );
    assert_eq!(
        bind_query_parameter(&inline("", true, SchemaKind::Object)),
        unsupported(Construct::BinderIdentifier)
    );
}

#[test]
fn referenced_query_parameter_is_refused() {
    assert_eq!(
        bind_query_parameter(&reference("#/components/parameters/limit")),
        unsupported(Construct::ParameterReference)
    );
}

#[test]
fn media_type_selects_the_body_binder() {
    assert_eq!(body_argument("application/json"), Ok(Argument::Json));
    assert_eq!(body_argument("application/x-www-form-urlencoded"), Ok(Argument::Form));
    assert_eq!(body_argument("application/xml"), unsupported(Construct::MediaType));
    assert_eq!(body_argument("application/json; charset=utf-8"), unsupported(Construct::MediaType));
    assert_eq!(body_argument(""), unsupported(Construct::MediaType));
}

#[test]
fn request_body_is_bound_by_its_first_media_type() {
    assert_eq!(request_body_argument(&None), Ok(None));
    assert_eq!(request_body_argument(&body(&[])), Ok(None));
    assert_eq!(request_body_argument(&body(&["application/json", "text/plain"])), Ok(Some(Argument::Json)));
    assert_eq!(
        request_body_argument(&body(&["application/x-www-form-urlencoded"])),
        Ok(Some(Argument::Form))
    );
    assert_eq!(
        request_body_argument(&body(&["text/plain", "application/json"])),
        unsupported(Construct::MediaType)
    );
    assert_eq!(
        request_body_argument(&Some(RequestBodyOrRef::Reference("#/components/requestBodies/User".to_string()))),
        unsupported(Construct::RequestBodyReference)
    );
}

#[test]
fn argument_list_has_the_fixed_composition() {
    let path = Some(Argument::Path(vec![binding("id", ScalarType::Integer, false)]));
    let op = operation(
        vec![inline("pageSize", false, SchemaKind::Integer), inline("q", true, SchemaKind::String)],
        body(&["application/json"]),
    );
    assert_eq!(
        generate_operation_args(&path, &op),
        Ok(vec![
            Argument::State,
            Argument::Path(vec![binding("id", ScalarType::Integer, false)]),
            Argument::Query(binding("page_size", ScalarType::Integer, true)),
            Argument::Query(binding("q", ScalarType::Text, false)),
            Argument::Json,
        ])
    );
}

#[test]
fn state_is_always_the_first_argument() {
    assert_eq!(generate_operation_args(&None, &operation(vec![], None)), Ok(vec![Argument::State]));
    assert_eq!(
        generate_operation_args(&None, &operation(vec![], body(&["application/x-www-form-urlencoded"]))),
        Ok(vec![Argument::State, Argument::Form])
    );
}

#[test]
fn colliding_identifiers_are_kept() {
    let op = operation(
        vec![inline("userId", true, SchemaKind::Integer), inline("user_id", true, SchemaKind::String)],
        None,
    );
    assert_eq!(
        generate_operation_args(&None, &op),
        Ok(vec![
            Argument::State,
            Argument::Query(binding("user_id", ScalarType::Integer, false)),
            Argument::Query(binding("user_id", ScalarType::Text, false)),
        ])
    );
}

#[test]
fn parameters_fail_before_the_request_body() {
    let op = operation(
        vec![inline("ok", true, SchemaKind::String), inline("filter", true, SchemaKind::Object)],
        body(&["text/plain"]),
    );
    assert_eq!(generate_operation_args(&None, &op), unsupported(Construct::ObjectSchema));
    let op = operation(vec![inline("ok", true, SchemaKind::String)], body(&["text/plain"]));
    assert_eq!(generate_operation_args(&None, &op), unsupported(Construct::MediaType));
    let op = operation(
        vec![reference("#/components/parameters/limit"), inline("filter", true, SchemaKind::Object)],
        None,
    );
    assert_eq!(generate_operation_args(&None, &op), unsupported(Construct::ParameterReference));
}

#[test]
fn copies_are_equal() {
    let arguments = [
        Argument::State,
        Argument::Path(vec![binding("a", ScalarType::Float, true), binding("b", ScalarType::Text, false)]),
        Argument::Query(binding("q", ScalarType::Boolean, false)),
        Argument::Json,
        Argument::Form,
    ];
    for argument in &arguments {
        assert_eq!(&argument.duplicate(), argument);
    }
    let b = binding("x", ScalarType::Integer, true);
    assert_eq!(b.duplicate(), b);
}
