//! The ways in which generation can fail. Every failure ends the whole run:
//! no partial output is ever produced.

use vstd::prelude::*;
use vstd::string::*;

verus! {

/// A feature of the document that generation does not handle.
#[derive(Clone, Copy, Debug, PartialEq, Eq, Structural)]
pub enum Construct {
    /// A path entry given by reference instead of inline.
    PathReference,
    /// An operation-scoped parameter given by reference.
    ParameterReference,
    /// A parameter whose schema is given by reference.
    SchemaReference,
    /// A parameter with an object schema.
    ObjectSchema,
    /// A parameter with an array schema.
    ArraySchema,
    /// A parameter whose schema is a combination or is untyped.
    CompositeSchema,
    /// A parameter described by content instead of a schema.
    ContentParameter,
    /// An operation without a declared identifier.
    MissingOperationId,
    /// A query parameter whose normalized name is not an expression.
    BinderIdentifier,
    /// A request body given by reference.
    RequestBodyReference,
    /// A request body whose media type is neither JSON nor form-encoded.
    MediaType,
    /// An assembled unit that the formatter cannot read.
    UnitSyntax,
}

/// Why a generation run was abandoned.
#[derive(Clone, Debug, PartialEq, Eq)]
pub enum GenError {
    /// The document uses a construct that generation does not handle.
    UnsupportedConstruct(Construct),
    /// A shared-parameter reference that the component table does not resolve.
    MissingReference(String),
    /// Two operations whose names are equal after normalization.
    DuplicateName(String),
}

/// The mathematical value of a `GenError`.
pub ghost enum GenErrorModel {
    UnsupportedConstruct(Construct),
    MissingReference(Seq<char>),
    DuplicateName(Seq<char>),
}

impl View for GenError {
    type V = GenErrorModel;

    open spec fn view(&self) -> GenErrorModel {
        match self {
            GenError::UnsupportedConstruct(c) => GenErrorModel::UnsupportedConstruct(*c),
            GenError::MissingReference(r) => GenErrorModel::MissingReference(r@),
            GenError::DuplicateName(n) => GenErrorModel::DuplicateName(n@),
        }
    }
}

/// Whether a result carries the value, or the error, that `model` names.
pub open spec fn agrees<T: DeepView>(
    r: Result<T, GenError>,
    model: Result<T::V, GenErrorModel>,
) -> bool {
    match model {
        Ok(value) => r matches Ok(x) && x.deep_view() == value,
        Err(error) => r matches Err(e) && e@ == error,
    }
}

/// The words that describe a construct in an error message.
pub open spec fn construct_text(c: Construct) -> Seq<char> {
    match c {
        Construct::PathReference => "path entry given by reference"@,
        Construct::ParameterReference => "operation parameter given by reference"@,
        Construct::SchemaReference => "parameter schema given by reference"@,
        Construct::ObjectSchema => "object parameter schema"@,
        Construct::ArraySchema => "array parameter schema"@,
        Construct::CompositeSchema => "composite or untyped parameter schema"@,
        Construct::ContentParameter => "content-based parameter"@,
        Construct::MissingOperationId => "operation without an identifier"@,
        Construct::BinderIdentifier => "parameter name that is not an expression"@,
        Construct::RequestBodyReference => "request body given by reference"@,
        Construct::MediaType => "request body media type"@,
        Construct::UnitSyntax => "generated unit that does not parse"@,
    }
}

/// The message of an error: a fixed prefix for its kind, then the detail.
pub open spec fn message_text(e: GenErrorModel) -> Seq<char> {
    match e {
        GenErrorModel::UnsupportedConstruct(c) => "unsupported construct: "@ + construct_text(c),
        GenErrorModel::MissingReference(r) => "missing reference: "@ + r,
        GenErrorModel::DuplicateName(n) => "duplicate operation name: "@ + n,
    }
}

impl Construct {
    /// The words that describe this construct.
    pub fn describe(&self) -> (r: &'static str)
        ensures
            r@ == construct_text(*self),
    {
        match self {
            Construct::PathReference => "path entry given by reference",
            Construct::ParameterReference => "operation parameter given by reference",
            Construct::SchemaReference => "parameter schema given by reference",
            Construct::ObjectSchema => "object parameter schema",
            Construct::ArraySchema => "array parameter schema",
            Construct::CompositeSchema => "composite or untyped parameter schema",
            Construct::ContentParameter => "content-based parameter",
            Construct::MissingOperationId => "operation without an identifier",
            Construct::BinderIdentifier => "parameter name that is not an expression",
            Construct::RequestBodyReference => "request body given by reference",
            Construct::MediaType => "request body media type",
            Construct::UnitSyntax => "generated unit that does not parse",
        }
    }
}

impl GenError {
    /// A description of the error for the caller to show.
    pub fn message(&self) -> (r: String)
        ensures
            r@ == message_text(self@),
    {
        match self {
            GenError::UnsupportedConstruct(c) => {
                let mut out = String::from_str("unsupported construct: ");
                out.append(c.describe());
                out
            },
            GenError::MissingReference(reference) => {
                let mut out = String::from_str("missing reference: ");
                out.append(reference.as_str());
                out
            },
            GenError::DuplicateName(name) => {
                let mut out = String::from_str("duplicate operation name: ");
                out.append(name.as_str());
                out
            },
        }
    }
}

} // verus!
