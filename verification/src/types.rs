//! Resolution of a parameter's schema to the type of its binding.

use vstd::prelude::*;
use vstd::string::*;
use crate::document::{Parameter, ParameterFormat, SchemaKind};
use crate::error::{Construct, GenError, GenErrorModel};

verus! {

/// The scalar types that a parameter can resolve to.
#[derive(Clone, Copy, Debug, PartialEq, Eq, Structural)]
pub enum ScalarType {
    /// Text.
    Text,
    /// A 64-bit floating-point number.
    Float,
    /// A 64-bit signed integer.
    Integer,
    /// A boolean.
    Boolean,
}

/// The type of a binding: a scalar, wrapped as optional where the parameter
/// is not required.
#[derive(Clone, Copy, Debug, PartialEq, Eq, Structural)]
pub struct ResolvedType {
    pub scalar: ScalarType,
    pub optional: bool,
}

impl DeepView for ResolvedType {
    type V = ResolvedType;

    open spec fn deep_view(&self) -> ResolvedType {
        *self
    }
}

/// The name of a scalar type in generated code.
pub open spec fn scalar_name(s: ScalarType) -> Seq<char> {
    match s {
        ScalarType::Text => "String"@,
        ScalarType::Float => "f64"@,
        ScalarType::Integer => "i64"@,
        ScalarType::Boolean => "bool"@,
    }
}

/// The optional wrapper of a type name.
pub open spec fn optional_of(name: Seq<char>) -> Seq<char> {
    "Option<"@ + name + ">"@
}

/// The name of a resolved type in generated code.
pub open spec fn type_name_of(t: ResolvedType) -> Seq<char> {
    if t.optional {
        optional_of(scalar_name(t.scalar))
    } else {
        scalar_name(t.scalar)
    }
}

/// The scalar that a schema kind maps to, or the construct that stops
/// generation.
pub open spec fn schema_scalar(kind: SchemaKind) -> Result<ScalarType, Construct> {
    match kind {
        SchemaKind::String => Ok(ScalarType::Text),
        SchemaKind::Number => Ok(ScalarType::Float),
        SchemaKind::Integer => Ok(ScalarType::Integer),
        SchemaKind::Boolean => Ok(ScalarType::Boolean),
        SchemaKind::Object => Err(Construct::ObjectSchema),
        SchemaKind::Array => Err(Construct::ArraySchema),
        SchemaKind::Composite => Err(Construct::CompositeSchema),
    }
}

/// The type that a parameter resolves to: the scalar of its inline schema,
/// optional exactly if the parameter is not required. Anything but an inline
/// scalar schema stops generation.
pub open spec fn parameter_type(parameter: Parameter) -> Result<ResolvedType, Construct> {
    match parameter.format {
        ParameterFormat::Schema(kind) => match schema_scalar(kind) {
            Ok(scalar) => Ok(ResolvedType { scalar, optional: !parameter.required }),
            Err(c) => Err(c),
        },
        ParameterFormat::SchemaReference(_) => Err(Construct::SchemaReference),
        ParameterFormat::Content => Err(Construct::ContentParameter),
    }
}

/// Whether an error is the refusal of the given construct.
pub open spec fn refuses(e: GenError, c: Construct) -> bool {
    e@ == GenErrorModel::UnsupportedConstruct(c)
}

impl ResolvedType {
    /// The name of this type in generated code.
    pub fn name(&self) -> (r: String)
        ensures
            r@ == type_name_of(*self),
    {
        let scalar: &'static str = match self.scalar {
            ScalarType::Text => "String",
            ScalarType::Float => "f64",
            ScalarType::Integer => "i64",
            ScalarType::Boolean => "bool",
        };
        if self.optional {
            let mut out = String::from_str("Option<");
            out.append(scalar);
            out.append(">");
            out
        } else {
            String::from_str(scalar)
        }
    }
}

/// Resolves the type of a parameter's binding.
pub fn get_parameter_type(parameter: &Parameter) -> (r: Result<ResolvedType, GenError>)
    ensures
        match parameter_type(*parameter) {
            Ok(t) => r == Ok::<ResolvedType, GenError>(t),
            Err(c) => r matches Err(e) && refuses(e, c),
        },
{
    let scalar = match &parameter.format {
        ParameterFormat::Schema(kind) => match kind {
            SchemaKind::String => ScalarType::Text,
            SchemaKind::Number => ScalarType::Float,
            SchemaKind::Integer => ScalarType::Integer,
            SchemaKind::Boolean => ScalarType::Boolean,
            SchemaKind::Object => {
                return Err(GenError::UnsupportedConstruct(Construct::ObjectSchema));
            },
            SchemaKind::Array => {
                return Err(GenError::UnsupportedConstruct(Construct::ArraySchema));
            },
            SchemaKind::Composite => {
                return Err(GenError::UnsupportedConstruct(Construct::CompositeSchema));
            },
        },
        ParameterFormat::SchemaReference(_) => {
            return Err(GenError::UnsupportedConstruct(Construct::SchemaReference));
        },
        ParameterFormat::Content => {
            return Err(GenError::UnsupportedConstruct(Construct::ContentParameter));
        },
    };
    Ok(ResolvedType { scalar, optional: !parameter.required })
}

/// A parameter that is not required resolves to the optional wrapper of the
/// type that the same parameter resolves to when it is required; a required
/// string parameter resolves to the plain text type.
pub proof fn lemma_optional_wraps_required(required: Parameter, relaxed: Parameter)
    requires
        required.required,
        !relaxed.required,
        relaxed.name == required.name,
        relaxed.format == required.format,
    ensures
        parameter_type(required) is Ok <==> parameter_type(relaxed) is Ok,
        parameter_type(required) matches Ok(plain) ==> {
            &&& parameter_type(relaxed) matches Ok(wrapped)
            &&& type_name_of(wrapped) == optional_of(type_name_of(plain))
            &&& wrapped.scalar == plain.scalar
        },
        required.format == ParameterFormat::Schema(SchemaKind::String) ==> {
            &&& parameter_type(required) matches Ok(plain)
            &&& type_name_of(plain) == "String"@
        },
{
}

} // verus!
