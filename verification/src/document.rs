//! The API description document as generation reads it: a path table whose
//! entries carry shared parameters and per-method operations, and a component
//! table against which shared-parameter references are resolved.

use vstd::prelude::*;

verus! {

/// What a parameter's schema describes.
#[derive(Clone, Copy, Debug, PartialEq, Eq, Structural)]
pub enum SchemaKind {
    String,
    Number,
    Integer,
    Boolean,
    Object,
    Array,
    /// A combination of schemas, a negation, or a schema without a type.
    Composite,
}

/// How a parameter describes its value.
#[derive(Clone, Debug, PartialEq, Eq)]
pub enum ParameterFormat {
    /// By an inline schema.
    Schema(SchemaKind),
    /// By a reference to a schema.
    SchemaReference(String),
    /// By a map of media types.
    Content,
}

/// One declared parameter.
#[derive(Clone, Debug, PartialEq, Eq)]
pub struct Parameter {
    pub name: String,
    pub required: bool,
    pub format: ParameterFormat,
}

/// A parameter, inline or by reference.
#[derive(Clone, Debug, PartialEq, Eq)]
pub enum ParameterOrRef {
    Reference(String),
    Item(Parameter),
}

/// A request body: the media types it declares, in declaration order.
#[derive(Clone, Debug, PartialEq, Eq)]
pub struct RequestBody {
    pub media_types: Vec<String>,
}

/// A request body, inline or by reference.
#[derive(Clone, Debug, PartialEq, Eq)]
pub enum RequestBodyOrRef {
    Reference(String),
    Item(RequestBody),
}

/// One operation of a path.
#[derive(Clone, Debug, PartialEq, Eq)]
pub struct Operation {
    pub operation_id: Option<String>,
    pub summary: Option<String>,
    pub description: Option<String>,
    pub parameters: Vec<ParameterOrRef>,
    pub request_body: Option<RequestBodyOrRef>,
}

/// What a path declares: its shared parameters and one optional operation per
/// method. An operation under `put` is carried but never generated.
#[derive(Clone, Debug, PartialEq, Eq)]
pub struct PathItem {
    pub parameters: Vec<ParameterOrRef>,
    pub get: Option<Operation>,
    pub put: Option<Operation>,
    pub post: Option<Operation>,
    pub delete: Option<Operation>,
    pub options: Option<Operation>,
    pub head: Option<Operation>,
    pub patch: Option<Operation>,
    pub trace: Option<Operation>,
}

/// A path item, inline or by reference.
#[derive(Clone, Debug, PartialEq, Eq)]
pub enum PathItemOrRef {
    Reference(String),
    Item(PathItem),
}

/// One entry of the path table.
#[derive(Clone, Debug, PartialEq, Eq)]
pub struct PathEntry {
    /// The path template, such as `/users/{id}`.
    pub path: String,
    pub item: PathItemOrRef,
}

/// One entry of the component table's parameters.
#[derive(Clone, Debug, PartialEq, Eq)]
pub struct ComponentParameter {
    pub name: String,
    pub parameter: ParameterOrRef,
}

/// The component table.
#[derive(Clone, Debug, PartialEq, Eq)]
pub struct Components {
    pub parameters: Vec<ComponentParameter>,
}

/// The whole document. Generation only reads it.
#[derive(Clone, Debug, PartialEq, Eq)]
pub struct ApiDocument {
    pub paths: Vec<PathEntry>,
    pub components: Option<Components>,
}

/// The methods for which operations are generated.
#[derive(Clone, Copy, Debug, PartialEq, Eq, Structural)]
pub enum Method {
    Options,
    Head,
    Get,
    Post,
    Delete,
    Patch,
    Trace,
}

/// The number of methods that are looked at on each path.
pub const METHOD_COUNT: u8 = 7;

/// The method's name as the document writes it.
pub open spec fn method_name(m: Method) -> Seq<char> {
    match m {
        Method::Options => "options"@,
        Method::Head => "head"@,
        Method::Get => "get"@,
        Method::Post => "post"@,
        Method::Delete => "delete"@,
        Method::Patch => "patch"@,
        Method::Trace => "trace"@,
    }
}

/// The method's name in upper case.
pub open spec fn method_upper(m: Method) -> Seq<char> {
    match m {
        Method::Options => "OPTIONS"@,
        Method::Head => "HEAD"@,
        Method::Get => "GET"@,
        Method::Post => "POST"@,
        Method::Delete => "DELETE"@,
        Method::Patch => "PATCH"@,
        Method::Trace => "TRACE"@,
    }
}

/// The method looked at in the given step of the fixed priority order:
/// options, head, get, post, delete, patch, trace.
pub open spec fn method_at(step: int) -> Method {
    if step == 0 {
        Method::Options
    } else if step == 1 {
        Method::Head
    } else if step == 2 {
        Method::Get
    } else if step == 3 {
        Method::Post
    } else if step == 4 {
        Method::Delete
    } else if step == 5 {
        Method::Patch
    } else {
        Method::Trace
    }
}

/// The operation that a path declares for the method of the given step.
pub open spec fn operation_at(item: PathItem, step: int) -> Option<Operation> {
    if step == 0 {
        item.options
    } else if step == 1 {
        item.head
    } else if step == 2 {
        item.get
    } else if step == 3 {
        item.post
    } else if step == 4 {
        item.delete
    } else if step == 5 {
        item.patch
    } else if step == 6 {
        item.trace
    } else {
        None
    }
}

/// The first step at or after `step` whose method the path declares, or
/// `METHOD_COUNT` if there is none.
pub open spec fn next_present(item: PathItem, step: int) -> int
    decreases METHOD_COUNT - step,
{
    if step >= METHOD_COUNT {
        METHOD_COUNT as int
    } else if operation_at(item, step) is Some {
        step
    } else {
        next_present(item, step + 1)
    }
}

/// How many of the considered methods a path declares from `step` on.
pub open spec fn present_from(item: PathItem, step: int) -> nat
    decreases METHOD_COUNT - step,
{
    if step >= METHOD_COUNT {
        0
    } else if operation_at(item, step) is Some {
        1 + present_from(item, step + 1)
    } else {
        present_from(item, step + 1)
    }
}

impl Method {
    /// The method's name as the document writes it.
    pub fn name(&self) -> (r: &'static str)
        ensures
            r@ == method_name(*self),
    {
        match self {
            Method::Options => "options",
            Method::Head => "head",
            Method::Get => "get",
            Method::Post => "post",
            Method::Delete => "delete",
            Method::Patch => "patch",
            Method::Trace => "trace",
        }
    }

    /// The method's name in upper case.
    pub fn upper_name(&self) -> (r: &'static str)
        ensures
            r@ == method_upper(*self),
    {
        match self {
            Method::Options => "OPTIONS",
            Method::Head => "HEAD",
            Method::Get => "GET",
            Method::Post => "POST",
            Method::Delete => "DELETE",
            Method::Patch => "PATCH",
            Method::Trace => "TRACE",
        }
    }
}

/// Walks the operations of one path in the fixed priority order, yielding
/// only the methods that the path declares.
pub struct MethodsIterator<'a> {
    path_item: &'a PathItem,
    step: u8,
}

impl<'a> MethodsIterator<'a> {
    /// The walk never points past the last method.
    #[verifier::type_invariant]
    spec fn within_methods(self) -> bool {
        self.step <= METHOD_COUNT
    }

    /// The path being walked.
    pub closed spec fn item(&self) -> PathItem {
        *self.path_item
    }

    /// The step that the next call looks at first.
    pub closed spec fn position(&self) -> int {
        self.step as int
    }

    /// A walk that starts at the first method.
    pub fn new(path_item: &'a PathItem) -> (it: Self)
        ensures
            it.item() == *path_item,
            it.position() == 0,
    {
        MethodsIterator { path_item, step: 0 }
    }

    /// The next declared method with its operation, or `None` once all seven
    /// methods have been looked at.
    pub fn next(&mut self) -> (r: Option<(Method, &'a Operation)>)
        ensures
            final(self).item() == old(self).item(),
            ({
                let found = next_present(old(self).item(), old(self).position());
                if found < METHOD_COUNT {
                    &&& r matches Some((method, operation))
                    &&& method == method_at(found)
                    &&& Some(*operation) == operation_at(old(self).item(), found)
                    &&& final(self).position() == found + 1
                } else {
                    &&& r is None
                    &&& final(self).position() == METHOD_COUNT
                }
            }),
    {
        proof {
            use_type_invariant(&*self);
        }
        loop
            invariant
                self.step <= METHOD_COUNT,
                self.item() == old(self).item(),
                next_present(self.item(), self.position()) == next_present(
                    old(self).item(),
                    old(self).position(),
                ),
            decreases METHOD_COUNT - self.step,
        {
            if self.step > 6 {
                return None;
            }
            let found: Option<(Method, &'a Operation)> = match self.step {
                0 => match &self.path_item.options {
                    Some(op) => Some((Method::Options, op)),
                    None => None,
                },
                1 => match &self.path_item.head {
                    Some(op) => Some((Method::Head, op)),
                    None => None,
                },
                2 => match &self.path_item.get {
                    Some(op) => Some((Method::Get, op)),
                    None => None,
                },
                3 => match &self.path_item.post {
                    Some(op) => Some((Method::Post, op)),
                    None => None,
                },
                4 => match &self.path_item.delete {
                    Some(op) => Some((Method::Delete, op)),
                    None => None,
                },
                5 => match &self.path_item.patch {
                    Some(op) => Some((Method::Patch, op)),
                    None => None,
                },
                _ => match &self.path_item.trace {
                    Some(op) => Some((Method::Trace, op)),
                    None => None,
                },
            };
            self.step = self.step + 1;
            if found.is_some() {
                return found;
            }
        }
    }
}

} // verus!
