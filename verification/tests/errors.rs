use oapi_codegen::error::{Construct, GenError};

#[test]
fn unsupported_construct_message() {
    assert_eq!(
        GenError::UnsupportedConstruct(Construct::ObjectSchema).message(),
        "unsupported construct: object parameter schema"
    );
    assert_eq!(
        GenError::UnsupportedConstruct(Construct::MediaType).message(),
        "unsupported construct: request body media type"
    );
}

#[test]
fn missing_reference_message() {
    assert_eq!(
        GenError::MissingReference("#/components/parameters/id".to_string()).message(),
        "missing reference: #/components/parameters/id"
    );
}

#[test]
fn duplicate_name_message() {
    assert_eq!(
        GenError::DuplicateName("get_user".to_string()).message(),
        "duplicate operation name: get_user"
    );
}

#[test]
fn every_construct_is_described() {
    let all = [
        (Construct::PathReference, "path entry given by reference"),
        (Construct::ParameterReference, "operation parameter given by reference"),
        (Construct::SchemaReference, "parameter schema given by reference"),
        (Construct::ObjectSchema, "object parameter schema"),
        (Construct::ArraySchema, "array parameter schema"),
        (Construct::CompositeSchema, "composite or untyped parameter schema"),
        (Construct::ContentParameter, "content-based parameter"),
        (Construct::MissingOperationId, "operation without an identifier"),
        (Construct::BinderIdentifier, "parameter name that is not an expression"),
        (Construct::RequestBodyReference, "request body given by reference"),
        (Construct::MediaType, "request body media type"),
        (Construct::UnitSyntax, "generated unit that does not parse"),
    ];
    for (construct, words) in all {
        assert_eq!(construct.describe(), words);
    }
}
