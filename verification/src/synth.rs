//! Synthesis of one generated operation: its documentation lines, its
//! normalized name, its argument list and its placeholders.

use vstd::prelude::*;
use vstd::string::*;
use crate::binder::{
    argument_normalized,
    generate_operation_args,
    lemma_operation_arguments_normalized,
    lemma_operation_arguments_supported,
    operation_arguments,
    path_arguments_normalized,
    query_parameter_supported,
    request_body_supported,
    Argument,
    ArgumentModel,
};
use crate::document::{method_upper, Method, Operation};
use crate::error::{agrees, Construct, GenError, GenErrorModel};
use crate::outside::{is_normalized, snake_case, snake_case_of, wrap_text, wrapped_lines};

verus! {

/// One generated operation. It is made once and never changed.
#[derive(Debug, PartialEq, Eq)]
pub struct GeneratedOperation {
    /// The operation's identifier after normalization.
    pub name: String,
    /// The lines of the documentation comment.
    pub docs: Vec<String>,
    /// The arguments, in order.
    pub args: Vec<Argument>,
}

/// The mathematical value of a `GeneratedOperation`.
pub ghost struct OperationModel {
    pub name: Seq<char>,
    pub docs: Seq<Seq<char>>,
    pub args: Seq<ArgumentModel>,
}

impl DeepView for GeneratedOperation {
    type V = OperationModel;

    open spec fn deep_view(&self) -> OperationModel {
        OperationModel {
            name: self.name@,
            docs: self.docs.deep_view(),
            args: self.args.deep_view(),
        }
    }
}

/// The column at which a description is wrapped.
pub const DOC_WIDTH: usize = 80;

/// The first documentation line: the method in upper case between square
/// brackets, a space, and the path.
pub open spec fn doc_header(method: Method, path: Seq<char>) -> Seq<char> {
    "["@ + method_upper(method) + "] "@ + path
}

/// The sequence that holds an optional line, if it is there.
pub open spec fn optional_line(line: Option<Seq<char>>) -> Seq<Seq<char>> {
    match line {
        Some(l) => seq![l],
        None => Seq::empty(),
    }
}

/// The sequence of the lines of an optional wrapped text.
pub open spec fn optional_lines(lines: Option<Seq<Seq<char>>>) -> Seq<Seq<char>> {
    match lines {
        Some(ls) => ls,
        None => Seq::empty(),
    }
}

/// The documentation lines of an operation: the header, then the summary if
/// there is one, then the lines of the wrapped description if there is one.
pub open spec fn operation_docs_of(
    method: Method,
    path: Seq<char>,
    summary: Option<Seq<char>>,
    wrapped: Option<Seq<Seq<char>>>,
) -> Seq<Seq<char>> {
    seq![doc_header(method, path)] + optional_line(summary) + optional_lines(wrapped)
}

/// The view of an optional text.
pub open spec fn optional_text(text: Option<String>) -> Option<Seq<char>> {
    match text {
        Some(t) => Some(t@),
        None => None,
    }
}

/// The lines of an optional description, wrapped at `DOC_WIDTH` columns.
pub open spec fn wrapped_description(description: Option<String>) -> Option<Seq<Seq<char>>> {
    match description {
        Some(d) => Some(wrapped_lines(d@, DOC_WIDTH)),
        None => None,
    }
}

/// The documentation lines of a declared operation.
pub open spec fn docs_model(method: Method, path: Seq<char>, operation: Operation) -> Seq<
    Seq<char>,
> {
    operation_docs_of(
        method,
        path,
        optional_text(operation.summary),
        wrapped_description(operation.description),
    )
}

/// The return type that every generated operation is given: a result whose
/// success and error types are left open.
pub open spec fn response_text() -> Seq<char> {
    "-> Result<TODO, TODO>"@
}

/// The generated operation of a declared one. An operation without an
/// identifier stops generation, before its arguments are looked at.
pub open spec fn operation_model(
    path_arguments: Option<ArgumentModel>,
    method: Method,
    path: Seq<char>,
    operation: Operation,
) -> Result<OperationModel, GenErrorModel> {
    match operation.operation_id {
        None => Err(GenErrorModel::UnsupportedConstruct(Construct::MissingOperationId)),
        Some(id) => match operation_arguments(path_arguments, operation) {
            Err(e) => Err(e),
            Ok(args) => Ok(
                OperationModel {
                    name: snake_case_of(id@),
                    docs: docs_model(method, path, operation),
                    args,
                },
            ),
        },
    }
}

/// Whether an operation's name and binder identifiers are snake-case forms.
pub open spec fn operation_normalized(operation: OperationModel) -> bool {
    &&& is_normalized(operation.name)
    &&& forall|i: int|
        0 <= i < operation.args.len() ==> argument_normalized(#[trigger] operation.args[i])
}

/// Whether every one of the operations is normalized.
pub open spec fn all_normalized(operations: Seq<OperationModel>) -> bool {
    forall|i: int| 0 <= i < operations.len() ==> operation_normalized(#[trigger] operations[i])
}

/// A synthesized operation is normalized if the path's binder is.
pub proof fn lemma_operation_model_normalized(
    path_arguments: Option<ArgumentModel>,
    method: Method,
    path: Seq<char>,
    operation: Operation,
)
    requires
        path_arguments_normalized(path_arguments),
    ensures
        operation_model(path_arguments, method, path, operation) matches Ok(generated)
            ==> operation_normalized(generated),
{
    lemma_operation_arguments_normalized(path_arguments, operation);
}

/// Whether an operation is of a supported shape: it has an identifier, and
/// its parameters and its request body are of supported shapes.
pub open spec fn operation_supported(operation: Operation) -> bool {
    &&& operation.operation_id is Some
    &&& request_body_supported(operation.request_body)
    &&& forall|j: int|
        0 <= j < operation.parameters@.len() ==> query_parameter_supported(
            #[trigger] operation.parameters@[j],
        )
}

/// An operation is synthesized exactly if it is of a supported shape, and
/// fails as an unsupported construct otherwise. A synthesized operation
/// bears the normalized identifier as its name; the first line of its
/// documentation is the method in upper case between square brackets, a
/// space, and the path; its first argument is the shared state, and its
/// second is the path's binder, the same for every method of the path, where
/// the path has one.
pub proof fn lemma_operation_model_shape(
    path_arguments: Option<ArgumentModel>,
    method: Method,
    path: Seq<char>,
    operation: Operation,
)
    ensures
        operation_model(path_arguments, method, path, operation) is Ok <==> operation_supported(
            operation,
        ),
        operation_model(path_arguments, method, path, operation) matches Err(e)
            ==> e is UnsupportedConstruct,
        operation_model(path_arguments, method, path, operation) matches Ok(generated) ==> {
            &&& generated.name == snake_case_of(operation.operation_id->0@)
            &&& generated.docs.len() >= 1
            &&& generated.docs[0] == doc_header(method, path)
            &&& generated.args.len() >= 1
            &&& generated.args[0] == ArgumentModel::State
            &&& path_arguments matches Some(binder) ==> generated.args.len() >= 2
                && generated.args[1] == binder
        },
{
    lemma_operation_arguments_supported(path_arguments, operation);
}

/// Puts the documentation lines of an operation together from its summary
/// and from the lines of its description, already wrapped.
pub fn operation_docs(
    method: Method,
    path: &str,
    summary: Option<&String>,
    wrapped: Option<&Vec<String>>,
) -> (docs: Vec<String>)
    ensures
        docs.deep_view() == operation_docs_of(
            method,
            path@,
            match summary {
                Some(s) => Some(s@),
                None => None,
            },
            match wrapped {
                Some(w) => Some(w.deep_view()),
                None => None,
            },
        ),
        docs.len() >= 1,
        docs@[0]@ == doc_header(method, path@),
{
    let mut header = String::from_str("[");
    header.append(method.upper_name());
    header.append("] ");
    header.append(path);
    let mut docs: Vec<String> = Vec::new();
    docs.push(header);
    assert(docs.deep_view() =~= seq![doc_header(method, path@)]);
    if let Some(s) = summary {
        let ghost before = docs.deep_view();
        docs.push(s.clone());
        assert(docs.deep_view() =~= before + seq![s@]);
    } else {
        assert(docs.deep_view() + Seq::<Seq<char>>::empty() =~= docs.deep_view());
    }
    let ghost head = docs.deep_view();
    if let Some(lines) = wrapped {
        let mut i: usize = 0;
        assert(docs.deep_view() =~= head + lines.deep_view().take(0));
        while i < lines.len()
            invariant
                i <= lines.len(),
                docs.len() >= 1,
                docs@[0]@ == doc_header(method, path@),
                docs.deep_view() == head + lines.deep_view().take(i as int),
            decreases lines.len() - i,
        {
            let ghost before = docs.deep_view();
            docs.push(lines[i].clone());
            assert(docs.deep_view() =~= before.push(lines@[i as int]@));
            assert(lines.deep_view().take(i + 1) =~= lines.deep_view().take(i as int).push(
                lines@[i as int]@,
            ));
            i = i + 1;
        }
        assert(lines.deep_view().take(lines.len() as int) =~= lines.deep_view());
    } else {
        assert(docs.deep_view() + Seq::<Seq<char>>::empty() =~= docs.deep_view());
    }
    docs
}

/// Builds the documentation lines of a declared operation.
pub fn generate_operation_docs(method: Method, path: &str, operation: &Operation) -> (docs: Vec<
    String,
>)
    ensures
        docs.deep_view() == docs_model(method, path@, *operation),
        docs.len() >= 1,
        docs@[0]@ == doc_header(method, path@),
{
    match &operation.description {
        Some(description) => {
            let wrapped = wrap_text(description.as_str(), DOC_WIDTH);
            operation_docs(method, path, operation.summary.as_ref(), Some(&wrapped))
        },
        None => operation_docs(method, path, operation.summary.as_ref(), None),
    }
}

/// The return type that every generated operation is given.
pub fn generate_operation_response() -> (r: String)
    ensures
        r@ == response_text(),
{
    String::from_str("-> Result<TODO, TODO>")
}

/// Builds the generated operation of a declared one.
pub fn synthesize_operation(
    path_arguments: &Option<Argument>,
    method: Method,
    path: &str,
    operation: &Operation,
) -> (r: Result<GeneratedOperation, GenError>)
    ensures
        agrees(r, operation_model(path_arguments.deep_view(), method, path@, *operation)),
        r matches Ok(g) ==> g.docs.len() >= 1 && g.docs@[0]@ == doc_header(method, path@),
{
    let docs = generate_operation_docs(method, path, operation);
    let name = match &operation.operation_id {
        Some(id) => snake_case(id.as_str()),
        None => {
            return Err(GenError::UnsupportedConstruct(Construct::MissingOperationId));
        },
    };
    match generate_operation_args(path_arguments, operation) {
        Ok(args) => Ok(GeneratedOperation { name, docs, args }),
        Err(e) => Err(e),
    }
}

} // verus!
