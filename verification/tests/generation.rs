use oapi_codegen::binder::Argument;
use oapi_codegen::document::{
    ApiDocument, ComponentParameter, Components, Method, Operation, Parameter, ParameterFormat,
    ParameterOrRef, PathEntry, PathItem, PathItemOrRef, RequestBody, RequestBodyOrRef, SchemaKind,
};
use oapi_codegen::emitter::OutputUnit;
use oapi_codegen::error::{Construct, GenError};
use oapi_codegen::generator::{assemble, generate, generate_operation};
use oapi_codegen::registry::NameRegistry;

fn parameter(name: &str, required: bool, kind: SchemaKind) -> ParameterOrRef {
    ParameterOrRef::Item(Parameter {
        name: name.to_string(),
        required,
        format: ParameterFormat::Schema(kind),
    })
}

fn operation(id: &str) -> Operation {
    Operation {
        operation_id: Some(id.to_string()),
        summary: None,
        description: None,
        parameters: vec![],
        request_body: None,
    }
}

fn empty_item() -> PathItem {
    PathItem {
        parameters: vec![],
        get: None,
        put: None,
        post: None,
        delete: None,
        options: None,
        head: None,
        patch: None,
        trace: None,
    }
}

fn entry(path: &str, item: PathItem) -> PathEntry {
    PathEntry { path: path.to_string(), item: PathItemOrRef::Item(item) }
}

fn getter(path: &str, id: &str) -> PathEntry {
    let mut item = empty_item();
    item.get = Some(operation(id));
    entry(path, item)
}

fn document(paths: Vec<PathEntry>) -> ApiDocument {
    ApiDocument { paths, components: None }
}

fn unit(content: &str) -> Result<Vec<OutputUnit>, GenError> {
    Ok(vec![OutputUnit { name: "somefile.rs".to_string(), content: content.to_string() }])
}

fn unsupported<T>(construct: Construct) -> Result<T, GenError> {
    Err(GenError::UnsupportedConstruct(construct))
}

fn users_document() -> ApiDocument {
    let mut get = operation("getUser");
    get.summary = Some("Fetch a user".to_string());
    get.parameters = vec![parameter("pageSize", false, SchemaKind::Integer)];
    let mut create = operation("createUser");
    create.request_body = Some(RequestBodyOrRef::Item(RequestBody {
        media_types: vec!["application/json".to_string()],
    }));
    let mut one = empty_item();
    one.parameters = vec![parameter("id", true, SchemaKind::Integer)];
    one.get = Some(get);
    one.delete = Some(operation("deleteUser"));
    let mut all = empty_item();
    all.post = Some(create);
    document(vec![entry("/users/{id}", one), entry("/users", all)])
}

const USERS_TEXT: &str = "/// [POST] /users\npub async fn create_user(\n    State(state): State<ApiState>,\n    Json(request): Json<TODO>,\n) -> Result<TODO, TODO> {\n    todo!();\n}\n/// [DELETE] /users/{id}\npub async fn delete_user(\n    State(state): State<ApiState>,\n    Path((id,)): Path<(i64,)>,\n) -> Result<TODO, TODO> {\n    todo!();\n}\n/// [GET] /users/{id}\n/// Fetch a user\npub async fn get_user(\n    State(state): State<ApiState>,\n    Path((id,)): Path<(i64,)>,\n    Query(page_size): Query<Option<i64>>,\n) -> Result<TODO, TODO> {\n    todo!();\n}\n";

#[test]
fn one_function_for_each_operation() {
    let files = generate(&users_document()).unwrap();
    assert_eq!(files.len(), 1);
    assert_eq!(files[0].name, "somefile.rs");
    assert_eq!(files[0].content.matches("pub async fn ").count(), 3);
    assert_eq!(files[0].content, USERS_TEXT);
}

#[test]
fn smallest_document() {
    assert_eq!(
        generate(&document(vec![getter("/ping", "ping")])),
        unit("/// [GET] /ping\npub async fn ping(State(state): State<ApiState>) -> Result<TODO, TODO> {\n    todo!();\n}\n")
    );
}

#[test]
fn empty_document_gives_an_empty_unit() {
    assert_eq!(generate(&document(vec![])), unit(""));
    assert_eq!(generate(&document(vec![entry("/nothing", empty_item())])), unit(""));
}

#[test]
fn put_operations_are_not_generated() {
    let mut item = empty_item();
    item.put = Some(operation("replaceUser"));
    assert_eq!(generate(&document(vec![entry("/users/{id}", item)])), unit(""));
}

#[test]
fn generation_is_repeatable() {
    let doc = users_document();
    assert_eq!(generate(&doc), generate(&doc));
    assert_eq!(generate(&doc), unit(USERS_TEXT));
}

#[test]
fn output_does_not_depend_on_the_order_of_the_table() {
    let mut doc = users_document();
    doc.paths.reverse();
    assert_eq!(generate(&doc), unit(USERS_TEXT));
}

#[test]
fn names_that_normalize_alike_are_duplicates() {
    let doc = document(vec![getter("/a", "getUser"), getter("/b", "get_user")]);
    assert_eq!(generate(&doc), Err(GenError::DuplicateName("get_user".to_string())));
    let mut item = empty_item();
    item.get = Some(operation("GetUser"));
    item.post = Some(operation("get-user"));
    assert_eq!(
        generate(&document(vec![getter("/ok", "other"), entry("/users", item)])),
        Err(GenError::DuplicateName("get_user".to_string()))
    );
}

#[test]
fn shared_binder_is_the_same_for_every_method() {
    let mut item = empty_item();
    item.parameters = vec![parameter("id", true, SchemaKind::Integer)];
    item.get = Some(operation("getThing"));
    item.delete = Some(operation("deleteThing"));
    let doc = document(vec![entry("/things/{id}", item)]);
    let registry = assemble(&doc).unwrap();
    let methods = registry.methods();
    assert_eq!(methods.len(), 2);
    assert_eq!(methods[0].name, "delete_thing");
    assert_eq!(methods[1].name, "get_thing");
    assert_eq!(methods[0].args.len(), 2);
    assert_eq!(methods[0].args[1], methods[1].args[1]);
    assert_eq!(methods[0].args, methods[1].args);
    match &methods[0].args[1] {
        Argument::Path(bindings) => {
            assert_eq!(bindings.len(), 1);
            assert_eq!(bindings[0].ident, "id");
            assert_eq!(bindings[0].ty.name(), "i64");
        }
        other => panic!("no path binder: {:?}", other),
    }
    let text = &generate(&doc).unwrap()[0].content;
    assert_eq!(text.matches("Path((id,)): Path<(i64,)>").count(), 2);
}

#[test]
fn first_lines_name_method_and_path() {
    let registry = assemble(&users_document()).unwrap();
    let first: Vec<&str> = registry.methods().iter().map(|m| m.docs[0].as_str()).collect();
    assert_eq!(first, ["[POST] /users", "[DELETE] /users/{id}", "[GET] /users/{id}"]);
}

#[test]
fn object_parameter_stops_everything() {
    let mut doc = users_document();
    let mut search = operation("searchUsers");
    search.parameters = vec![parameter("filter", true, SchemaKind::Object)];
    let mut item = empty_item();
    item.get = Some(search);
    doc.paths.push(entry("/users/search", item));
    assert_eq!(generate(&doc), unsupported(Construct::ObjectSchema));
    assert_eq!(assemble(&doc).err(), Some(GenError::UnsupportedConstruct(Construct::ObjectSchema)));
}

#[test]
fn array_parameter_stops_everything() {
    let mut search = operation("searchUsers");
    search.parameters = vec![parameter("tags", false, SchemaKind::Array)];
    let mut item = empty_item();
    item.get = Some(search);
    assert_eq!(
        generate(&document(vec![getter("/ping", "ping"), entry("/search", item)])),
        unsupported(Construct::ArraySchema)
    );
}

#[test]
fn path_given_by_reference_is_refused() {
    let doc = document(vec![
        getter("/a", "a"),
        PathEntry { path: "/b".to_string(), item: PathItemOrRef::Reference("#/paths/~1a".to_string()) },
    ]);
    assert_eq!(generate(&doc), unsupported(Construct::PathReference));
}

#[test]
fn shared_reference_is_resolved_in_the_component_table() {
    let mut item = empty_item();
    item.parameters = vec![ParameterOrRef::Reference("#/components/parameters/petId".to_string())];
    item.get = Some(operation("getPet"));
    let mut doc = document(vec![entry("/pets/{petId}", item)]);
    assert_eq!(
        generate(&doc),
        Err(GenError::MissingReference("#/components/parameters/petId".to_string()))
    );
    doc.components = Some(Components {
        parameters: vec![ComponentParameter {
            name: "petId".to_string(),
            parameter: parameter("petId", true, SchemaKind::String),
        }],
    });
    assert_eq!(
        generate(&doc),
        unit("/// [GET] /pets/{petId}\npub async fn get_pet(\n    State(state): State<ApiState>,\n    Path((pet_id,)): Path<(String,)>,\n) -> Result<TODO, TODO> {\n    todo!();\n}\n")
    );
}

#[test]
fn the_first_failure_on_the_walk_is_reported() {
    let mut broken = operation("broken");
    broken.request_body = Some(RequestBodyOrRef::Item(RequestBody { media_types: vec!["text/csv".to_string()] }));
    let mut item = empty_item();
    item.post = Some(broken);
    let media = entry("/b", item);
    let nameless = {
        let mut item = empty_item();
        item.get = Some(Operation {
            operation_id: None,
            summary: None,
            description: None,
            parameters: vec![],
            request_body: None,
        });
        entry("/a", item)
    };
    assert_eq!(
        generate(&document(vec![media.clone(), nameless.clone()])),
        unsupported(Construct::MissingOperationId)
    );
    assert_eq!(
        generate(&document(vec![nameless, media])),
        unsupported(Construct::MissingOperationId)
    );
}

#[test]
fn methods_of_a_path_are_taken_in_the_fixed_order() {
    let mut item = empty_item();
    item.trace = Some(Operation {
        operation_id: None,
        summary: None,
        description: None,
        parameters: vec![],
        request_body: None,
    });
    let mut bad = operation("bad");
    bad.parameters = vec![parameter("filter", true, SchemaKind::Object)];
    item.options = Some(bad);
    assert_eq!(generate(&document(vec![entry("/x", item)])), unsupported(Construct::ObjectSchema));
}

#[test]
fn name_that_is_no_identifier_fails_in_the_formatter() {
    assert_eq!(generate(&document(vec![getter("/t", "type")])), unsupported(Construct::UnitSyntax));
    assert_eq!(generate(&document(vec![getter("/t", "")])), unsupported(Construct::UnitSyntax));
}

#[test]
fn documentation_keeps_special_characters() {
    let mut op = operation("quote");
    op.summary = Some("say \"hi\" \\ bye".to_string());
    let mut item = empty_item();
    item.get = Some(op);
    assert_eq!(
        generate(&document(vec![entry("/q", item)])),
        unit("/// [GET] /q\n/// say \"hi\" \\ bye\npub async fn quote(State(state): State<ApiState>) -> Result<TODO, TODO> {\n    todo!();\n}\n")
    );
}

#[test]
fn marker_is_taken_out_of_the_output() {
    let mut op = operation("marked");
    op.summary = Some("before type newline = (); after".to_string());
    let mut item = empty_item();
    item.get = Some(op);
    assert_eq!(
        generate(&document(vec![entry("/m", item)])),
        unit("/// [GET] /m\n/// before  after\npub async fn marked(State(state): State<ApiState>) -> Result<TODO, TODO> {\n    todo!();\n}\n")
    );
}

#[test]
fn operation_enters_the_registry() {
    let mut registry = NameRegistry::new();
    assert_eq!(generate_operation(&mut registry, &None, Method::Get, "/users", &operation("listUsers")), Ok(()));
    assert_eq!(generate_operation(&mut registry, &None, Method::Post, "/users", &operation("addUser")), Ok(()));
    assert_eq!(
        generate_operation(&mut registry, &None, Method::Get, "/all", &operation("list_users")),
        Err(GenError::DuplicateName("list_users".to_string()))
    );
    let names: Vec<&str> = registry.methods().iter().map(|m| m.name.as_str()).collect();
    assert_eq!(names, ["add_user", "list_users"]);
    assert_eq!(registry.methods()[1].docs, vec!["[GET] /users".to_string()]);
}

#[test]
fn object_shared_parameter_stops_everything() {
    let mut doc = users_document();
    let mut item = empty_item();
    item.parameters = vec![
        parameter("tenant", true, SchemaKind::String),
        parameter("filter", true, SchemaKind::Object),
    ];
    item.get = Some(operation("listTenantUsers"));
    doc.paths.push(entry("/tenants/{tenant}/users", item));
    assert_eq!(generate(&doc), unsupported(Construct::ObjectSchema));
    assert_eq!(assemble(&doc).err(), Some(GenError::UnsupportedConstruct(Construct::ObjectSchema)));
}

#[test]
fn object_shared_parameter_stops_a_path_without_operations() {
    let mut item = empty_item();
    item.parameters = vec![parameter("filter", false, SchemaKind::Object)];
    assert_eq!(
        generate(&document(vec![getter("/ping", "ping"), entry("/silent", item)])),
        unsupported(Construct::ObjectSchema)
    );
}

#[test]
fn every_order_of_the_table_gives_the_same_output() {
    let base = vec![
        getter("/pets", "listPets"),
        getter("/users", "listUsers"),
        getter("/", "root"),
    ];
    let expected = generate(&document(base.clone()));
    assert!(expected.is_ok());
    let orders = [[0, 1, 2], [0, 2, 1], [1, 0, 2], [1, 2, 0], [2, 0, 1], [2, 1, 0]];
    for order in orders {
        let paths = order.iter().map(|i| base[*i].clone()).collect();
        assert_eq!(generate(&document(paths)), expected);
    }
}
