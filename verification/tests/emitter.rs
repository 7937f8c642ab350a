use oapi_codegen::binder::{Argument, Binding};
use oapi_codegen::emitter::{
    doc_attribute, emit, finish_unit, render_argument, render_docs, render_operation, render_unit,
    OutputUnit,
};
use oapi_codegen::error::{Construct, GenError};
use oapi_codegen::registry::NameRegistry;
use oapi_codegen::synth::GeneratedOperation;
use oapi_codegen::types::{ResolvedType, ScalarType};

fn binding(ident: &str, scalar: ScalarType, optional: bool) -> Binding {
    Binding { ident: ident.to_string(), ty: ResolvedType { scalar, optional } }
}

fn lines(texts: &[&str]) -> Vec<String> {
    texts.iter().map(|t| t.to_string()).collect()
}

fn get_user() -> GeneratedOperation {
    GeneratedOperation {
        name: "get_user".to_string(),
        docs: lines(&["[GET] /users/{id}", "Fetch a user"]),
        args: vec![
            Argument::State,
            Argument::Path(vec![binding("id", ScalarType::Integer, false)]),
            Argument::Query(binding("verbose", ScalarType::Boolean, true)),
        ],
    }
}

fn ping() -> GeneratedOperation {
    GeneratedOperation {
        name: "ping".to_string(),
        docs: lines(&["[GET] /ping"]),
        args: vec![Argument::State],
    }
}

#[test]
fn attribute_holds_the_literal() {
    assert_eq!(doc_attribute("\" [GET] /ping\""), "#[doc = \" [GET] /ping\"]\n");
    assert_eq!(doc_attribute(""), "#[doc = ]\n");
}

#[test]
fn documentation_lines_become_attributes() {
    assert_eq!(
        render_docs(&lines(&["[GET] /ping", "Answers at once."])),
        "#[doc = \" [GET] /ping\"]\n#[doc = \" Answers at once.\"]\n"
    );
    assert_eq!(render_docs(&vec![]), "");
    assert_eq!(render_docs(&lines(&[""])), "#[doc = \" \"]\n");
}

#[test]
fn documentation_lines_are_escaped() {
    assert_eq!(
        render_docs(&lines(&["say \"hi\" \\ bye"])),
        "#[doc = \" say \\\"hi\\\" \\\\ bye\"]\n"
    );
    assert_eq!(render_docs(&lines(&["a\nb"])), "#[doc = \" a\\nb\"]\n");
}

#[test]
fn arguments_are_written_as_patterns() {
    assert_eq!(render_argument(&Argument::State), "State(state): State<ApiState>");
    assert_eq!(render_argument(&Argument::Json), "Json(request): Json<TODO>");
    assert_eq!(render_argument(&Argument::Form), "Form(request): Form<TODO>");
    assert_eq!(
        render_argument(&Argument::Query(binding("page_size", ScalarType::Integer, true))),
        "Query(page_size): Query<Option<i64>>"
    );
    assert_eq!(
        render_argument(&Argument::Query(binding("q", ScalarType::Text, false))),
        "Query(q): Query<String>"
    );
    assert_eq!(
        render_argument(&Argument::Path(vec![binding("id", ScalarType::Integer, false)])),
        "Path((id, )): Path<(i64, )>"
    );
    assert_eq!(
        render_argument(&Argument::Path(vec![
            binding("org", ScalarType::Text, false),
            binding("ratio", ScalarType::Float, true),
        ])),
        "Path((org, ratio, )): Path<(String, Option<f64>, )>"
    );
    assert_eq!(render_argument(&Argument::Path(vec![])), "Path(()): Path<()>");
}

#[test]
fn operation_source_text() {
    assert_eq!(
        render_operation(&get_user()),
        "#[doc = \" [GET] /users/{id}\"]\n#[doc = \" Fetch a user\"]\npub async fn get_user(State(state): State<ApiState>, Path((id, )): Path<(i64, )>, Query(verbose): Query<Option<bool>>, ) -> Result<TODO, TODO> {\n    todo!();\n}\n"
    );
    assert_eq!(
        render_operation(&ping()),
        "#[doc = \" [GET] /ping\"]\npub async fn ping(State(state): State<ApiState>, ) -> Result<TODO, TODO> {\n    todo!();\n}\n"
    );
}

#[test]
fn unit_source_is_the_operations_in_turn() {
    assert_eq!(render_unit(&vec![]), "");
    assert_eq!(
        render_unit(&vec![get_user(), ping()]),
        format!("{}{}", render_operation(&get_user()), render_operation(&ping()))
    );
}

#[test]
fn finished_unit_has_the_fixed_name() {
    assert_eq!(
        finish_unit(Some("fn a() {}\n".to_string())),
        Ok(OutputUnit { name: "somefile.rs".to_string(), content: "fn a() {}\n".to_string() })
    );
}

#[test]
fn finished_unit_is_freed_of_the_marker() {
    assert_eq!(
        finish_unit(Some("fn a() {}\ntype newline = ();\nfn b() {}\n".to_string())),
        Ok(OutputUnit { name: "somefile.rs".to_string(), content: "fn a() {}\n\nfn b() {}\n".to_string() })
    );
}

#[test]
fn unread_unit_is_refused() {
    assert_eq!(finish_unit(None), Err(GenError::UnsupportedConstruct(Construct::UnitSyntax)));
}

#[test]
fn registry_is_emitted_formatted() {
    let mut registry = NameRegistry::new();
    registry.add_method(ping()).unwrap();
    registry.add_method(get_user()).unwrap();
    let unit = emit(&registry).unwrap();
    assert_eq!(unit.name, "somefile.rs");
    assert_eq!(
        unit.content,
        "/// [GET] /users/{id}\n/// Fetch a user\npub async fn get_user(\n    State(state): State<ApiState>,\n    Path((id,)): Path<(i64,)>,\n    Query(verbose): Query<Option<bool>>,\n) -> Result<TODO, TODO> {\n    todo!();\n}\n/// [GET] /ping\npub async fn ping(State(state): State<ApiState>) -> Result<TODO, TODO> {\n    todo!();\n}\n"
    );
}

#[test]
fn empty_registry_gives_an_empty_unit() {
    assert_eq!(
        emit(&NameRegistry::new()),
        Ok(OutputUnit { name: "somefile.rs".to_string(), content: String::new() })
    );
}

#[test]
fn name_that_is_no_identifier_is_refused() {
    for name in ["type", "", "1st", "fn"] {
        let mut registry = NameRegistry::new();
        registry
            .add_method(GeneratedOperation {
                name: name.to_string(),
                docs: lines(&["[GET] /x"]),
                args: vec![Argument::State],
            })
            .unwrap();
        assert_eq!(emit(&registry), Err(GenError::UnsupportedConstruct(Construct::UnitSyntax)));
    }
}
