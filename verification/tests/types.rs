use oapi_codegen::document::{Parameter, ParameterFormat, SchemaKind};
use oapi_codegen::error::{Construct, GenError};
use oapi_codegen::types::{get_parameter_type, ResolvedType, ScalarType};

fn parameter(required: bool, format: ParameterFormat) -> Parameter {
    Parameter { name: "limit".to_string(), required, format }
}

#[test]
fn required_string_is_plain_text() {
    let ty = get_parameter_type(&parameter(true, ParameterFormat::Schema(SchemaKind::String))).unwrap();
    assert_eq!(ty, ResolvedType { scalar: ScalarType::Text, optional: false });
    assert_eq!(ty.name(), "String");
}

#[test]
fn optional_string_is_wrapped() {
    let ty = get_parameter_type(&parameter(false, ParameterFormat::Schema(SchemaKind::String))).unwrap();
    assert_eq!(ty, ResolvedType { scalar: ScalarType::Text, optional: true });
    assert_eq!(ty.name(), "Option<String>");
}

#[test]
fn every_scalar_kind_has_its_type() {
    let cases = [
        (SchemaKind::String, "String", "Option<String>"),
        (SchemaKind::Number, "f64", "Option<f64>"),
        (SchemaKind::Integer, "i64", "Option<i64>"),
        (SchemaKind::Boolean, "bool", "Option<bool>"),
    ];
    for (kind, plain, wrapped) in cases {
        let required = get_parameter_type(&parameter(true, ParameterFormat::Schema(kind))).unwrap();
        let relaxed = get_parameter_type(&parameter(false, ParameterFormat::Schema(kind))).unwrap();
        assert_eq!(required.name(), plain);
        assert_eq!(relaxed.name(), wrapped);
        assert_eq!(relaxed.name(), format!("Option<{}>", required.name()));
    }
}

#[test]
fn other_schemas_are_refused() {
    let cases = [
        (ParameterFormat::Schema(SchemaKind::Object), Construct::ObjectSchema),
        (ParameterFormat::Schema(SchemaKind::Array), Construct::ArraySchema),
        (ParameterFormat::Schema(SchemaKind::Composite), Construct::CompositeSchema),
        (ParameterFormat::SchemaReference("#/components/schemas/Id".to_string()), Construct::SchemaReference),
        (ParameterFormat::Content, Construct::ContentParameter),
    ];
    for (format, construct) in cases {
        for required in [true, false] {
            assert_eq!(
                get_parameter_type(&parameter(required, format.clone())),
                Err(GenError::UnsupportedConstruct(construct))
            );
        }
    }
}
