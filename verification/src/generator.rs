//! The generation run: the path table is walked by path, every declared
//! operation is synthesized and entered in the registry, and the registry
//! is emitted as one formatted unit. The first failure ends the run.

use vstd::prelude::*;
use vstd::string::*;
use crate::binder::{
    generate_path_args,
    lemma_path_argument_normalized,
    path_argument,
    path_arguments_normalized,
    Argument,
    ArgumentModel,
};
use crate::document::{
    method_at,
    next_present,
    operation_at,
    ApiDocument,
    Method,
    MethodsIterator,
    Operation,
    PathEntry,
    PathItem,
    PathItemOrRef,
    METHOD_COUNT,
};
use crate::emitter::{emit, emitted_unit, OutputUnit, OutputUnitModel};
use crate::error::{agrees, Construct, GenError, GenErrorModel};
use crate::registry::{lemma_insert_normalized, registry_insert, NameRegistry};
use crate::synth::{
    all_normalized,
    lemma_operation_model_normalized,
    operation_model,
    synthesize_operation,
    OperationModel,
};
use crate::walker::{indices, walk_order, walk_order_of};

verus! {

/// The registry after one declared operation: the operation is synthesized
/// and then entered under its name.
pub open spec fn operation_step(
    entries: Seq<OperationModel>,
    path_arguments: Option<ArgumentModel>,
    method: Method,
    path: Seq<char>,
    operation: Operation,
) -> Result<Seq<OperationModel>, GenErrorModel> {
    match operation_model(path_arguments, method, path, operation) {
        Err(e) => Err(e),
        Ok(generated) => registry_insert(entries, generated),
    }
}

/// The registry after the operations that a path declares from `step` on,
/// taken in the fixed order of the methods.
pub open spec fn methods_from(
    path_arguments: Option<ArgumentModel>,
    path: Seq<char>,
    item: PathItem,
    step: int,
    entries: Seq<OperationModel>,
) -> Result<Seq<OperationModel>, GenErrorModel>
    decreases METHOD_COUNT - step,
{
    if step >= METHOD_COUNT {
        Ok(entries)
    } else {
        match operation_at(item, step) {
            None => methods_from(path_arguments, path, item, step + 1, entries),
            Some(operation) => match operation_step(
                entries,
                path_arguments,
                method_at(step),
                path,
                operation,
            ) {
                Err(e) => Err(e),
                Ok(next) => methods_from(path_arguments, path, item, step + 1, next),
            },
        }
    }
}

/// The registry after one entry of the path table: the binder of its shared
/// parameters is built once, then its operations are taken in turn. An entry
/// given by reference stops generation.
pub open spec fn path_step(
    definition: ApiDocument,
    entry: PathEntry,
    entries: Seq<OperationModel>,
) -> Result<Seq<OperationModel>, GenErrorModel> {
    match entry.item {
        PathItemOrRef::Reference(_) => Err(
            GenErrorModel::UnsupportedConstruct(Construct::PathReference),
        ),
        PathItemOrRef::Item(item) => match path_argument(definition, item.parameters@) {
            Err(e) => Err(e),
            Ok(path_arguments) => methods_from(path_arguments, entry.path@, item, 0, entries),
        },
    }
}

/// The registry after the entries of the path table from position `k` of
/// the walk on.
pub open spec fn paths_from(
    definition: ApiDocument,
    order: Seq<int>,
    k: int,
    entries: Seq<OperationModel>,
) -> Result<Seq<OperationModel>, GenErrorModel>
    decreases order.len() - k,
{
    if k >= order.len() {
        Ok(entries)
    } else {
        match path_step(definition, definition.paths@[order[k]], entries) {
            Err(e) => Err(e),
            Ok(next) => paths_from(definition, order, k + 1, next),
        }
    }
}

/// The registry that a document gives rise to: its operations in the order
/// of their names, or the first failure of the walk.
pub open spec fn assembled(definition: ApiDocument) -> Result<Seq<OperationModel>, GenErrorModel> {
    paths_from(definition, walk_order_of(definition.paths@), 0, Seq::empty())
}

/// What generation returns for a document: the one emitted unit, or the
/// first failure.
pub open spec fn generated(definition: ApiDocument) -> Result<Seq<OutputUnitModel>, GenErrorModel> {
    match assembled(definition) {
        Err(e) => Err(e),
        Ok(entries) => match emitted_unit(entries) {
            Err(e) => Err(e),
            Ok(unit) => Ok(seq![unit]),
        },
    }
}

/// Synthesizes one declared operation and enters it in the registry. On
/// failure the registry stays as it was.
pub fn generate_operation(
    state: &mut NameRegistry,
    path_arguments: &Option<Argument>,
    method: Method,
    path: &str,
    operation: &Operation,
) -> (r: Result<(), GenError>)
    ensures
        match operation_step(old(state)@, path_arguments.deep_view(), method, path@, *operation) {
            Ok(entries) => r is Ok && final(state)@ == entries,
            Err(e) => r matches Err(x) && x@ == e && final(state)@ == old(state)@,
        },
{
    match synthesize_operation(path_arguments, method, path, operation) {
        Ok(generated) => state.add_method(generated),
        Err(e) => Err(e),
    }
}

/// Methods that a path does not declare leave the registry as it is.
proof fn lemma_methods_skip(
    path_arguments: Option<ArgumentModel>,
    path: Seq<char>,
    item: PathItem,
    step: int,
    entries: Seq<OperationModel>,
)
    requires
        0 <= step <= METHOD_COUNT,
    ensures
        step <= next_present(item, step) <= METHOD_COUNT,
        methods_from(path_arguments, path, item, step, entries) == methods_from(
            path_arguments,
            path,
            item,
            next_present(item, step),
            entries,
        ),
    decreases METHOD_COUNT - step,
{
    if step < METHOD_COUNT && operation_at(item, step) is None {
        lemma_methods_skip(path_arguments, path, item, step + 1, entries);
    }
}

/// Takes one entry of the path table: builds the binder of its shared
/// parameters and generates each operation that it declares.
fn generate_path(state: &mut NameRegistry, definition: &ApiDocument, entry: &PathEntry) -> (r:
    Result<(), GenError>)
    ensures
        match path_step(*definition, *entry, old(state)@) {
            Ok(entries) => r is Ok && final(state)@ == entries,
            Err(e) => r matches Err(x) && x@ == e,
        },
{
    match &entry.item {
        PathItemOrRef::Reference(_) => Err(
            GenError::UnsupportedConstruct(Construct::PathReference),
        ),
        PathItemOrRef::Item(item) => {
            let path_arguments = match generate_path_args(definition, &item.parameters) {
                Ok(arguments) => arguments,
                Err(e) => {
                    return Err(e);
                },
            };
            let ghost binder = path_arguments.deep_view();
            let ghost whole = path_step(*definition, *entry, state@);
            let mut methods = MethodsIterator::new(item);
            loop
                invariant
                    methods.item() == *item,
                    0 <= methods.position() <= METHOD_COUNT,
                    binder == path_arguments.deep_view(),
                    whole == path_step(*definition, *entry, old(state)@),
                    whole == methods_from(binder, entry.path@, *item, methods.position(), state@),
                decreases METHOD_COUNT - methods.position(),
            {
                proof {
                    lemma_methods_skip(binder, entry.path@, *item, methods.position(), state@);
                }
                match methods.next() {
                    Some((method, operation)) => {
                        match generate_operation(
                            state,
                            &path_arguments,
                            method,
                            entry.path.as_str(),
                            operation,
                        ) {
                            Ok(()) => {},
                            Err(e) => {
                                return Err(e);
                            },
                        }
                    },
                    None => {
                        return Ok(());
                    },
                }
            }
        },
    }
}

/// Walks the path table and fills a registry with the operations that the
/// document declares.
pub fn assemble(definition: &ApiDocument) -> (r: Result<NameRegistry, GenError>)
    ensures
        agrees(r, assembled(*definition)),
{
    let order = walk_order(&definition.paths);
    let ghost walk = walk_order_of(definition.paths@);
    let mut state = NameRegistry::new();
    let mut k: usize = 0;
    while k < order.len()
        invariant
            k <= order.len(),
            order.len() == definition.paths.len(),
            walk == indices(order@),
            forall|a: int| 0 <= a < order.len() ==> #[trigger] order@[a] < definition.paths.len(),
            assembled(*definition) == paths_from(*definition, walk, k as int, state@),
        decreases order.len() - k,
    {
        let at = order[k];
        assert(walk[k as int] == at);
        match generate_path(&mut state, definition, &definition.paths[at]) {
            Ok(()) => {},
            Err(e) => {
                return Err(e);
            },
        }
        k = k + 1;
    }
    Ok(state)
}

/// The operations of one path keep the registry normalized.
pub proof fn lemma_methods_normalized(
    path_arguments: Option<ArgumentModel>,
    path: Seq<char>,
    item: PathItem,
    step: int,
    entries: Seq<OperationModel>,
)
    requires
        all_normalized(entries),
        path_arguments_normalized(path_arguments),
    ensures
        methods_from(path_arguments, path, item, step, entries) matches Ok(after)
            ==> all_normalized(after),
    decreases METHOD_COUNT - step,
{
    if step < METHOD_COUNT {
        match operation_at(item, step) {
            None => {
                lemma_methods_normalized(path_arguments, path, item, step + 1, entries);
            },
            Some(operation) => {
                lemma_operation_model_normalized(path_arguments, method_at(step), path, operation);
                match operation_model(path_arguments, method_at(step), path, operation) {
                    Ok(generated) => {
                        lemma_insert_normalized(entries, generated);
                        match registry_insert(entries, generated) {
                            Ok(next) => {
                                lemma_methods_normalized(
                                    path_arguments,
                                    path,
                                    item,
                                    step + 1,
                                    next,
                                );
                            },
                            Err(_) => {},
                        }
                    },
                    Err(_) => {},
                }
            },
        }
    }
}

/// The walk keeps the registry normalized.
pub proof fn lemma_paths_normalized(
    definition: ApiDocument,
    order: Seq<int>,
    k: int,
    entries: Seq<OperationModel>,
)
    requires
        0 <= k,
        all_normalized(entries),
    ensures
        paths_from(definition, order, k, entries) matches Ok(after) ==> all_normalized(after),
    decreases order.len() - k,
{
    if k < order.len() {
        let entry = definition.paths@[order[k]];
        match entry.item {
            PathItemOrRef::Reference(_) => {},
            PathItemOrRef::Item(item) => {
                lemma_path_argument_normalized(definition, item.parameters@);
                match path_argument(definition, item.parameters@) {
                    Err(_) => {},
                    Ok(path_arguments) => {
                        lemma_methods_normalized(path_arguments, entry.path@, item, 0, entries);
                        match methods_from(path_arguments, entry.path@, item, 0, entries) {
                            Ok(next) => {
                                lemma_paths_normalized(definition, order, k + 1, next);
                            },
                            Err(_) => {},
                        }
                    },
                }
            },
        }
    }
}

/// Every name and binder identifier of an assembled registry is a
/// snake-case form.
pub proof fn lemma_assembled_normalized(definition: ApiDocument)
    ensures
        assembled(definition) matches Ok(entries) ==> all_normalized(entries),
{
    lemma_paths_normalized(
        definition,
        walk_order_of(definition.paths@),
        0,
        Seq::<OperationModel>::empty(),
    );
}

/// Generates the output for a document: one unit that holds a function for
/// every declared operation, in the order of their names. The first failure
/// ends the run, and nothing is returned but the failure.
pub fn generate(oapi_definition: &ApiDocument) -> (r: Result<Vec<OutputUnit>, GenError>)
    ensures
        agrees(r, generated(*oapi_definition)),
{
    let state = match assemble(oapi_definition) {
        Ok(state) => state,
        Err(e) => {
            return Err(e);
        },
    };
    proof {
        lemma_assembled_normalized(*oapi_definition);
    }
    match emit(&state) {
        Ok(unit) => {
            let mut files: Vec<OutputUnit> = Vec::new();
            let ghost model = unit.deep_view();
            files.push(unit);
            assert(files.deep_view() =~= seq![model]);
            Ok(files)
        },
        Err(e) => Err(e),
    }
}

} // verus!
