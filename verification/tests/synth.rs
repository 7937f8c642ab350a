use oapi_codegen::binder::{Argument, Binding};
use oapi_codegen::document::{Method, Operation, Parameter, ParameterFormat, ParameterOrRef, SchemaKind};
use oapi_codegen::error::{Construct, GenError};
use oapi_codegen::synth::{
    generate_operation_docs, generate_operation_response, operation_docs, synthesize_operation,
    GeneratedOperation, DOC_WIDTH,
};
use oapi_codegen::types::{ResolvedType, ScalarType};

fn operation(id: Option<&str>, summary: Option<&str>, description: Option<&str>) -> Operation {
    Operation {
        operation_id: id.map(|s| s.to_string()),
        summary: summary.map(|s| s.to_string()),
        description: description.map(|s| s.to_string()),
        parameters: vec![],
        request_body: None,
    }
}

fn lines(texts: &[&str]) -> Vec<String> {
    texts.iter().map(|t| t.to_string()).collect()
}

#[test]
fn header_names_method_and_path() {
    assert_eq!(operation_docs(Method::Get, "/users/{id}", None, None), lines(&["[GET] /users/{id}"]));
    assert_eq!(operation_docs(Method::Delete, "/", None, None), lines(&["[DELETE] /"]));
    assert_eq!(operation_docs(Method::Options, "", None, None), lines(&["[OPTIONS] "]));
}

#[test]
fn summary_and_description_follow_the_header() {
    let summary = "Fetch a user".to_string();
    let wrapped = lines(&["first line", "second line"]);
    assert_eq!(
        operation_docs(Method::Post, "/users", Some(&summary), Some(&wrapped)),
        lines(&["[POST] /users", "Fetch a user", "first line", "second line"])
    );
    assert_eq!(
        operation_docs(Method::Post, "/users", None, Some(&wrapped)),
        lines(&["[POST] /users", "first line", "second line"])
    );
    assert_eq!(
        operation_docs(Method::Post, "/users", Some(&summary), None),
        lines(&["[POST] /users", "Fetch a user"])
    );
    assert_eq!(
        operation_docs(Method::Post, "/users", Some(&summary), Some(&vec![])),
        lines(&["[POST] /users", "Fetch a user"])
    );
}

#[test]
fn width_of_documentation() {
    assert_eq!(DOC_WIDTH, 80);
}

#[test]
fn description_is_wrapped_at_eighty_columns() {
    let description = "Returns the user that has the given identifier. The description is long enough to be wrapped over more than one line of the comment.";
    let docs = generate_operation_docs(Method::Get, "/users/{id}", &operation(Some("getUser"), Some("Fetch a user"), Some(description)));
    assert_eq!(
        docs,
        lines(&[
            "[GET] /users/{id}",
            "Fetch a user",
            "Returns the user that has the given identifier. The description is long enough",
            "to be wrapped over more than one line of the comment.",
        ])
    );
    for line in &docs {
        assert!(line.chars().count() <= 80);
    }
}

#[test]
fn short_description_is_one_line() {
    assert_eq!(
        generate_operation_docs(Method::Head, "/ping", &operation(Some("ping"), None, Some("Answers at once."))),
        lines(&["[HEAD] /ping", "Answers at once."])
    );
    assert_eq!(
        generate_operation_docs(Method::Head, "/ping", &operation(Some("ping"), None, None)),
        lines(&["[HEAD] /ping"])
    );
}

#[test]
fn description_lines_are_kept_apart() {
    assert_eq!(
        generate_operation_docs(Method::Trace, "/t", &operation(Some("t"), None, Some("one\n\ntwo"))),
        lines(&["[TRACE] /t", "one", "", "two"])
    );
}

#[test]
fn return_type_is_a_placeholder() {
    assert_eq!(generate_operation_response(), "-> Result<TODO, TODO>");
}

#[test]
fn operation_is_named_by_its_normalized_identifier() {
    let generated = synthesize_operation(&None, Method::Get, "/users", &operation(Some("listAllUsers"), None, None));
    assert_eq!(
        generated,
        Ok(GeneratedOperation {
            name: "list_all_users".to_string(),
            docs: lines(&["[GET] /users"]),
            args: vec![Argument::State],
        })
    );
    let kebab = synthesize_operation(&None, Method::Get, "/users", &operation(Some("list-all-Users"), None, None));
    assert_eq!(kebab.unwrap().name, "list_all_users");
}

#[test]
fn operation_without_identifier_is_refused() {
    assert_eq!(
        synthesize_operation(&None, Method::Get, "/users", &operation(None, Some("no id"), None)),
        Err(GenError::UnsupportedConstruct(Construct::MissingOperationId))
    );
}

#[test]
fn missing_identifier_is_found_before_bad_parameters() {
    let mut op = operation(None, None, None);
    op.parameters = vec![ParameterOrRef::Item(Parameter {
        name: "filter".to_string(),
        required: true,
        format: ParameterFormat::Schema(SchemaKind::Object),
    })];
    assert_eq!(
        synthesize_operation(&None, Method::Get, "/users", &op),
        Err(GenError::UnsupportedConstruct(Construct::MissingOperationId))
    );
    op.operation_id = Some("find".to_string());
    assert_eq!(
        synthesize_operation(&None, Method::Get, "/users", &op),
        Err(GenError::UnsupportedConstruct(Construct::ObjectSchema))
    );
}

#[test]
fn path_binder_is_the_second_argument() {
    let binder = Some(Argument::Path(vec![Binding {
        ident: "id".to_string(),
        ty: ResolvedType { scalar: ScalarType::Integer, optional: false },
    }]));
    let get = synthesize_operation(&binder, Method::Get, "/users/{id}", &operation(Some("getUser"), None, None)).unwrap();
    let delete = synthesize_operation(&binder, Method::Delete, "/users/{id}", &operation(Some("deleteUser"), None, None)).unwrap();
    assert_eq!(get.args[0], Argument::State);
    assert_eq!(Some(get.args[1].duplicate()), binder);
    assert_eq!(get.args[1], delete.args[1]);
    assert_eq!(get.docs[0], "[GET] /users/{id}");
    assert_eq!(delete.docs[0], "[DELETE] /users/{id}");
}
