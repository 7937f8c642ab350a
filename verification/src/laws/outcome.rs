//! When assembly succeeds and how it can fail, by the shape of the
//! document.

use vstd::prelude::*;
use crate::binder::{
    ArgumentModel,
    lemma_path_argument_failure,
    lemma_path_argument_supported,
    path_argument,
    query_parameter_supported,
    scalar_parameter,
    shared_parameter,
    shared_parameters_resolve,
    shared_parameters_supported,
};
use crate::document::{
    ApiDocument,
    method_at,
    METHOD_COUNT,
    operation_at,
    Parameter,
    ParameterFormat,
    ParameterOrRef,
    PathItem,
    PathItemOrRef,
    SchemaKind,
};
use crate::error::{Construct, GenErrorModel};
use crate::emitter::{marker_text, unit_name, unit_source, OutputUnitModel};
use crate::generator::{assembled, generated, methods_from, paths_from};
use crate::outside::formatted_source;
use crate::text::without_marker;
use crate::laws::counting::{declared_operations, lemma_one_operation_each};
use crate::laws::declared::{
    declared_at,
    lemma_declared_names_differ,
    lemma_methods_made,
    lemma_registry_is_the_declared_operations,
    made_at,
    model_of,
};
use crate::outside::snake_case_of;
use crate::registry::{holds_name, lemma_insert_members, registry_insert};
use crate::synth::{
    lemma_operation_model_shape,
    operation_model,
    operation_supported,
    OperationModel,
};
use crate::walker::{lemma_walk_order, lemma_walked_before_orders, walk_order_of, walked_before};

verus! {

/// Whether every entry of the path table is given inline and has shared
/// parameters of a supported shape.
pub open spec fn entries_supported(definition: ApiDocument) -> bool {
    forall|i: int|
        0 <= i < definition.paths@.len() ==> ((
        #[trigger] definition.paths@[i]).item matches PathItemOrRef::Item(item)
            && shared_parameters_supported(definition, item.parameters@))
}

/// Whether every shared parameter of every inline entry of the path table
/// resolves.
pub open spec fn shared_references_resolve(definition: ApiDocument) -> bool {
    forall|i: int|
        0 <= i < definition.paths@.len() ==> ((
        #[trigger] definition.paths@[i]).item matches PathItemOrRef::Item(item)
            ==> shared_parameters_resolve(definition, item.parameters@))
}

/// Whether every operation that a document declares for a method that is
/// looked at is of a supported shape.
pub open spec fn operations_supported(definition: ApiDocument) -> bool {
    forall|i: int, s: int|
        0 <= i < definition.paths@.len() && 0 <= s < METHOD_COUNT ==> ((#[trigger] declared_at(
            definition,
            i,
            s,
        )) matches Some(operation) ==> operation_supported(operation))
}

/// Whether a document is of a supported shape: its path entries and its
/// operations are.
pub open spec fn document_supported(definition: ApiDocument) -> bool {
    entries_supported(definition) && operations_supported(definition)
}

/// Whether entry `i` declares, for the method of step `s`, an operation
/// that has an identifier.
pub open spec fn named_at(definition: ApiDocument, i: int, s: int) -> bool {
    declared_at(definition, i, s) matches Some(operation) && operation.operation_id is Some
}

/// The normalized identifier of the operation that entry `i` declares for
/// the method of step `s`; meaningful where it declares one with an
/// identifier.
pub open spec fn normalized_name_at(definition: ApiDocument, i: int, s: int) -> Seq<char> {
    snake_case_of(declared_at(definition, i, s)->0.operation_id->0@)
}

/// Whether no two operations that a document declares have the same
/// normalized identifier.
pub open spec fn names_distinct(definition: ApiDocument) -> bool {
    forall|i: int, s: int, j: int, t: int|
        0 <= i < definition.paths@.len() && 0 <= j < definition.paths@.len() && 0 <= s
            < METHOD_COUNT && 0 <= t < METHOD_COUNT && (i != j || s != t) && #[trigger] named_at(
            definition,
            i,
            s,
        ) && #[trigger] named_at(definition, j, t) ==> normalized_name_at(definition, i, s)
            != normalized_name_at(definition, j, t)
}

/// A declared operation that can be synthesized has an identifier, and its
/// generated operation bears the normalized identifier as its name.
pub proof fn lemma_model_name(definition: ApiDocument, i: int, s: int)
    requires
        declared_at(definition, i, s) is Some,
        model_of(definition, i, s) is Ok,
    ensures
        named_at(definition, i, s),
        model_of(definition, i, s)->Ok_0.name == normalized_name_at(definition, i, s),
{
    let item = definition.paths@[i].item->Item_0;
    lemma_operation_model_shape(
        path_argument(definition, item.parameters@)->Ok_0,
        method_at(s),
        definition.paths@[i].path@,
        operation_at(item, s)->0,
    );
}

/// An entry of a supported shape has a binder, and a declared operation of
/// a supported shape on it can be synthesized.
pub proof fn lemma_supported_models(definition: ApiDocument, i: int, s: int)
    requires
        entries_supported(definition),
        0 <= i < definition.paths@.len(),
        0 <= s < METHOD_COUNT,
    ensures
        definition.paths@[i].item matches PathItemOrRef::Item(item) && path_argument(
            definition,
            item.parameters@,
        ) is Ok,
        declared_at(definition, i, s) matches Some(operation) ==> (model_of(definition, i, s) is Ok
            <==> operation_supported(operation)),
        model_of(definition, i, s) matches Err(e) ==> e is UnsupportedConstruct,
{
    let item = definition.paths@[i].item->Item_0;
    lemma_path_argument_supported(definition, item.parameters@);
    if declared_at(definition, i, s) is Some {
        lemma_operation_model_shape(
            path_argument(definition, item.parameters@)->Ok_0,
            method_at(s),
            definition.paths@[i].path@,
            operation_at(item, s)->0,
        );
    }
}

/// Whether every operation that a path declares from `step` on can be
/// synthesized.
pub open spec fn path_synthesizable(
    path_arguments: Option<ArgumentModel>,
    path: Seq<char>,
    item: PathItem,
    step: int,
) -> bool {
    forall|s: int|
        step <= s < METHOD_COUNT && (#[trigger] operation_at(item, s)) is Some ==> made_at(
            path_arguments,
            path,
            item,
            s,
        ) is Ok
}

/// Whether none of the names of the operations that can be synthesized on a
/// path from `step` on is in the registry.
pub open spec fn path_fresh(
    path_arguments: Option<ArgumentModel>,
    path: Seq<char>,
    item: PathItem,
    step: int,
    entries: Seq<OperationModel>,
) -> bool {
    forall|s: int|
        step <= s < METHOD_COUNT && (#[trigger] operation_at(item, s)) is Some && made_at(
            path_arguments,
            path,
            item,
            s,
        ) is Ok ==> !holds_name(entries, made_at(path_arguments, path, item, s)->Ok_0.name)
}

/// Whether no two of the operations that can be synthesized on a path from
/// `step` on have the same name.
pub open spec fn path_distinct(
    path_arguments: Option<ArgumentModel>,
    path: Seq<char>,
    item: PathItem,
    step: int,
) -> bool {
    forall|s: int, t: int|
        step <= s < t < METHOD_COUNT && (#[trigger] operation_at(item, s)) is Some && (
        #[trigger] operation_at(item, t)) is Some && made_at(path_arguments, path, item, s) is Ok
            && made_at(path_arguments, path, item, t) is Ok ==> made_at(
            path_arguments,
            path,
            item,
            s,
        )->Ok_0.name != made_at(path_arguments, path, item, t)->Ok_0.name
}

/// How the operations of a path from `step` on can fail: by an unsupported
/// construct or by a name that is taken; by a taken name only, where all of
/// them can be synthesized; by an unsupported construct only, where no name
/// is taken and no two are the same.
pub proof fn lemma_methods_outcome(
    path_arguments: Option<ArgumentModel>,
    path: Seq<char>,
    item: PathItem,
    step: int,
    entries: Seq<OperationModel>,
)
    requires
        0 <= step,
    ensures
        methods_from(path_arguments, path, item, step, entries) matches Err(e)
            ==> e is DuplicateName || e is UnsupportedConstruct,
        path_synthesizable(path_arguments, path, item, step) ==> (methods_from(
            path_arguments,
            path,
            item,
            step,
            entries,
        ) matches Err(e) ==> e is DuplicateName),
        path_fresh(path_arguments, path, item, step, entries) && path_distinct(
            path_arguments,
            path,
            item,
            step,
        ) ==> (methods_from(path_arguments, path, item, step, entries) matches Err(e)
            ==> e is UnsupportedConstruct),
    decreases METHOD_COUNT - step,
{
    if step < METHOD_COUNT {
        match operation_at(item, step) {
            None => {
                lemma_methods_outcome(path_arguments, path, item, step + 1, entries);
            },
            Some(operation) => {
                assert(operation_at(item, step) is Some);
                lemma_operation_model_shape(path_arguments, method_at(step), path, operation);
                match operation_model(path_arguments, method_at(step), path, operation) {
                    Err(_) => {},
                    Ok(generated) => {
                        assert(made_at(path_arguments, path, item, step) == Ok::<
                            OperationModel,
                            GenErrorModel,
                        >(generated));
                        lemma_insert_members(entries, generated);
                        match registry_insert(entries, generated) {
                            Ok(next) => {
                                lemma_methods_outcome(path_arguments, path, item, step + 1, next);
                                if path_fresh(path_arguments, path, item, step, entries)
                                    && path_distinct(path_arguments, path, item, step) {
                                    assert(path_fresh(
                                        path_arguments,
                                        path,
                                        item,
                                        step + 1,
                                        next,
                                    ));
                                }
                            },
                            Err(_) => {},
                        }
                    },
                }
            },
        }
    }
}

/// Whether every entry that the walk reaches from position `k` on is given
/// inline and has a binder.
pub open spec fn bindable_from(definition: ApiDocument, order: Seq<int>, k: int) -> bool {
    forall|a: int|
        k <= a < order.len() ==> (definition.paths@[#[trigger] order[a]].item matches PathItemOrRef::Item(
            item,
        ) && path_argument(definition, item.parameters@) is Ok)
}

/// Whether every shared parameter of every inline entry that the walk
/// reaches from position `k` on resolves.
pub open spec fn resolvable_from(definition: ApiDocument, order: Seq<int>, k: int) -> bool {
    forall|a: int|
        k <= a < order.len() ==> (definition.paths@[#[trigger] order[a]].item matches PathItemOrRef::Item(
            item,
        ) ==> shared_parameters_resolve(definition, item.parameters@))
}

/// Whether every operation that the walk reaches from position `k` on can
/// be synthesized.
pub open spec fn synthesizable_from(definition: ApiDocument, order: Seq<int>, k: int) -> bool {
    forall|a: int, s: int|
        k <= a < order.len() && 0 <= s < METHOD_COUNT && (#[trigger] declared_at(
            definition,
            order[a],
            s,
        )) is Some ==> model_of(definition, order[a], s) is Ok
}

/// Whether none of the names of the operations that the walk reaches from
/// position `k` on, and that can be synthesized, is in the registry.
pub open spec fn fresh_from(
    definition: ApiDocument,
    order: Seq<int>,
    k: int,
    entries: Seq<OperationModel>,
) -> bool {
    forall|a: int, s: int|
        k <= a < order.len() && 0 <= s < METHOD_COUNT && (#[trigger] declared_at(
            definition,
            order[a],
            s,
        )) is Some && model_of(definition, order[a], s) is Ok ==> !holds_name(
            entries,
            model_of(definition, order[a], s)->Ok_0.name,
        )
}

/// Whether no two of the operations that the walk reaches from position `k`
/// on, and that can be synthesized, have the same name.
pub open spec fn distinct_from(definition: ApiDocument, order: Seq<int>, k: int) -> bool {
    forall|a: int, s: int, b: int, t: int|
        k <= a < order.len() && k <= b < order.len() && 0 <= s < METHOD_COUNT && 0 <= t
            < METHOD_COUNT && (a != b || s != t) && (#[trigger] declared_at(
            definition,
            order[a],
            s,
        )) is Some && (#[trigger] declared_at(definition, order[b], t)) is Some && model_of(
            definition,
            order[a],
            s,
        ) is Ok && model_of(definition, order[b], t) is Ok ==> model_of(
            definition,
            order[a],
            s,
        )->Ok_0.name != model_of(definition, order[b], t)->Ok_0.name
}

/// How the walk from position `k` on can fail where every shared parameter
/// resolves: by an unsupported construct or by a name that is taken; by a
/// taken name only, where every entry has a binder and every operation can
/// be synthesized; by an unsupported construct only, where no name is taken
/// and no two are the same.
pub proof fn lemma_paths_outcome(
    definition: ApiDocument,
    order: Seq<int>,
    k: int,
    entries: Seq<OperationModel>,
)
    requires
        0 <= k <= order.len(),
        resolvable_from(definition, order, k),
    ensures
        paths_from(definition, order, k, entries) matches Err(e) ==> e is DuplicateName
            || e is UnsupportedConstruct,
        bindable_from(definition, order, k) && synthesizable_from(definition, order, k) ==> (
        paths_from(definition, order, k, entries) matches Err(e) ==> e is DuplicateName),
        fresh_from(definition, order, k, entries) && distinct_from(definition, order, k) ==> (
        paths_from(definition, order, k, entries) matches Err(e) ==> e is UnsupportedConstruct),
    decreases order.len() - k,
{
    if k < order.len() && definition.paths@[order[k]].item is Item {
        lemma_path_argument_failure(
            definition,
            definition.paths@[order[k]].item->Item_0.parameters@,
        );
    }
    if k < order.len() && definition.paths@[order[k]].item is Item && path_argument(
        definition,
        definition.paths@[order[k]].item->Item_0.parameters@,
    ) is Ok {
        let entry = definition.paths@[order[k]];
        let item = entry.item->Item_0;
        let path_arguments = path_argument(definition, item.parameters@)->Ok_0;
        assert forall|s: int| 0 <= s < METHOD_COUNT implies model_of(definition, order[k], s)
            == made_at(path_arguments, entry.path@, item, s) && declared_at(
            definition,
            order[k],
            s,
        ) == operation_at(item, s) by {}
        lemma_methods_outcome(path_arguments, entry.path@, item, 0, entries);
        if synthesizable_from(definition, order, k) {
            assert forall|s: int|
                0 <= s < METHOD_COUNT && (#[trigger] operation_at(
                    item,
                    s,
                )) is Some implies made_at(path_arguments, entry.path@, item, s) is Ok by {
                assert(declared_at(definition, order[k], s) is Some);
            }
        }
        let clear = fresh_from(definition, order, k, entries) && distinct_from(
            definition,
            order,
            k,
        );
        if clear {
            assert forall|s: int|
                0 <= s < METHOD_COUNT && (#[trigger] operation_at(item, s)) is Some && made_at(
                    path_arguments,
                    entry.path@,
                    item,
                    s,
                ) is Ok implies !holds_name(
                entries,
                made_at(path_arguments, entry.path@, item, s)->Ok_0.name,
            ) by {
                assert(declared_at(definition, order[k], s) is Some);
            }
            assert forall|s: int, t: int|
                0 <= s < t < METHOD_COUNT && (#[trigger] operation_at(item, s)) is Some && (
                #[trigger] operation_at(item, t)) is Some && made_at(
                    path_arguments,
                    entry.path@,
                    item,
                    s,
                ) is Ok && made_at(path_arguments, entry.path@, item, t) is Ok implies made_at(
                path_arguments,
                entry.path@,
                item,
                s,
            )->Ok_0.name != made_at(path_arguments, entry.path@, item, t)->Ok_0.name by {
                assert(declared_at(definition, order[k], s) is Some);
                assert(declared_at(definition, order[k], t) is Some);
            }
        }
        match methods_from(path_arguments, entry.path@, item, 0, entries) {
            Ok(next) => {
                lemma_paths_outcome(definition, order, k + 1, next);
                if clear {
                    lemma_methods_made(path_arguments, entry.path@, item, 0, entries);
                    assert forall|a: int, s: int|
                        k + 1 <= a < order.len() && 0 <= s < METHOD_COUNT && (
                        #[trigger] declared_at(definition, order[a], s)) is Some && model_of(
                            definition,
                            order[a],
                            s,
                        ) is Ok implies !holds_name(
                        next,
                        model_of(definition, order[a], s)->Ok_0.name,
                    ) by {
                        let name = model_of(definition, order[a], s)->Ok_0.name;
                        if holds_name(next, name) {
                            let m = choose|m: int|
                                0 <= m < next.len() && (#[trigger] next[m]).name == name;
                            if entries.contains(next[m]) {
                                let j = choose|j: int|
                                    0 <= j < entries.len() && entries[j] == next[m];
                                assert(entries[j].name == name);
                            } else {
                                let t = choose|t: int|
                                    0 <= t < METHOD_COUNT && (#[trigger] operation_at(
                                        item,
                                        t,
                                    )) is Some && made_at(path_arguments, entry.path@, item, t)
                                        == Ok::<OperationModel, GenErrorModel>(next[m]);
                                assert(declared_at(definition, order[k], t) is Some);
                            }
                        }
                    }
                    assert(fresh_from(definition, order, k + 1, next));
                    assert(distinct_from(definition, order, k + 1));
                }
            },
            Err(_) => {},
        }
    }
}

/// The walk reaches entries of the path table only, and none of them twice.
pub proof fn lemma_walk_in_range(definition: ApiDocument)
    ensures
        walk_order_of(definition.paths@).len() == definition.paths@.len(),
        forall|a: int|
            0 <= a < definition.paths@.len() ==> 0 <= #[trigger] walk_order_of(
                definition.paths@,
            )[a] < definition.paths@.len(),
        forall|a: int, b: int|
            0 <= a < definition.paths@.len() && 0 <= b < definition.paths@.len() && a != b
                ==> #[trigger] walk_order_of(definition.paths@)[a] != #[trigger] walk_order_of(
                definition.paths@,
            )[b],
{
    let paths = definition.paths@;
    let order = walk_order_of(paths);
    lemma_walk_order(paths, paths.len() as int);
    assert forall|a: int, b: int|
        0 <= a < paths.len() && 0 <= b < paths.len() && a != b implies #[trigger] order[a]
        != #[trigger] order[b] by {
        lemma_walked_before_orders(paths, order[a], order[b], order[a]);
        if a < b {
            assert(walked_before(paths, order[a], order[b]));
        } else {
            assert(walked_before(paths, order[b], order[a]));
        }
    }
}

/// What the shape of a document says of its walk: every entry has a binder;
/// every operation can be synthesized where the operations are of a
/// supported shape; no two have the same name where the normalized
/// identifiers differ.
pub proof fn lemma_walk_of_supported(definition: ApiDocument)
    requires
        entries_supported(definition),
    ensures
        bindable_from(definition, walk_order_of(definition.paths@), 0),
        resolvable_from(definition, walk_order_of(definition.paths@), 0),
        operations_supported(definition) ==> synthesizable_from(
            definition,
            walk_order_of(definition.paths@),
            0,
        ),
        names_distinct(definition) ==> distinct_from(
            definition,
            walk_order_of(definition.paths@),
            0,
        ),
        fresh_from(
            definition,
            walk_order_of(definition.paths@),
            0,
            Seq::<OperationModel>::empty(),
        ),
{
    let order = walk_order_of(definition.paths@);
    lemma_walk_in_range(definition);
    assert forall|i: int| 0 <= i < definition.paths@.len() implies ((
    #[trigger] definition.paths@[i]).item matches PathItemOrRef::Item(item)
        ==> shared_parameters_resolve(definition, item.parameters@)) by {
        lemma_path_argument_failure(definition, definition.paths@[i].item->Item_0.parameters@);
    }
    lemma_walk_of_resolved(definition);
    assert forall|a: int| 0 <= a < order.len() implies (definition.paths@[
    #[trigger] order[a]].item matches PathItemOrRef::Item(item) && path_argument(
        definition,
        item.parameters@,
    ) is Ok) by {
        lemma_supported_models(definition, order[a], 0);
    }
    if operations_supported(definition) {
        assert forall|a: int, s: int|
            0 <= a < order.len() && 0 <= s < METHOD_COUNT && (#[trigger] declared_at(
                definition,
                order[a],
                s,
            )) is Some implies model_of(definition, order[a], s) is Ok by {
            lemma_supported_models(definition, order[a], s);
        }
    }
}

/// What resolving shared parameters says of the walk: it reaches no
/// unresolved reference; no two operations that can be synthesized have the
/// same name where the normalized identifiers differ; and no name is taken
/// at the start.
pub proof fn lemma_walk_of_resolved(definition: ApiDocument)
    requires
        shared_references_resolve(definition),
    ensures
        resolvable_from(definition, walk_order_of(definition.paths@), 0),
        names_distinct(definition) ==> distinct_from(
            definition,
            walk_order_of(definition.paths@),
            0,
        ),
        fresh_from(
            definition,
            walk_order_of(definition.paths@),
            0,
            Seq::<OperationModel>::empty(),
        ),
{
    let order = walk_order_of(definition.paths@);
    lemma_walk_in_range(definition);
    assert forall|a: int| 0 <= a < order.len() implies (definition.paths@[
    #[trigger] order[a]].item matches PathItemOrRef::Item(item) ==> shared_parameters_resolve(
        definition,
        item.parameters@,
    )) by {
        assert(definition.paths@[order[a]].item is Item ==> shared_parameters_resolve(
            definition,
            definition.paths@[order[a]].item->Item_0.parameters@,
        ));
    }
    if names_distinct(definition) {
        assert forall|a: int, s: int, b: int, t: int|
            0 <= a < order.len() && 0 <= b < order.len() && 0 <= s < METHOD_COUNT && 0 <= t
                < METHOD_COUNT && (a != b || s != t) && (#[trigger] declared_at(
                definition,
                order[a],
                s,
            )) is Some && (#[trigger] declared_at(definition, order[b], t)) is Some && model_of(
                definition,
                order[a],
                s,
            ) is Ok && model_of(definition, order[b], t) is Ok implies model_of(
            definition,
            order[a],
            s,
        )->Ok_0.name != model_of(definition, order[b], t)->Ok_0.name by {
            lemma_model_name(definition, order[a], s);
            lemma_model_name(definition, order[b], t);
            assert(a != b ==> order[a] != order[b]);
            assert(named_at(definition, order[a], s));
            assert(named_at(definition, order[b], t));
        }
    }
}

/// For a document of a supported shape in which no two operations have the
/// same normalized identifier, generation assembles a registry, and the
/// registry holds exactly one operation for each declared operation.
pub proof fn lemma_supported_document_assembles(definition: ApiDocument)
    requires
        document_supported(definition),
        names_distinct(definition),
    ensures
        assembled(definition) matches Ok(entries) && entries.len() == declared_operations(
            definition,
        ),
{
    lemma_walk_of_supported(definition);
    lemma_paths_outcome(
        definition,
        walk_order_of(definition.paths@),
        0,
        Seq::<OperationModel>::empty(),
    );
    lemma_one_operation_each(definition);
}

/// For a document of a supported shape in which no two operations have the
/// same normalized identifier, generation succeeds exactly if the formatter
/// reads the assembled unit. It then returns one unit, under the fixed name,
/// that holds the formatted text without the marker; otherwise it fails
/// because the unit does not parse.
pub proof fn lemma_supported_document_generates(definition: ApiDocument)
    requires
        document_supported(definition),
        names_distinct(definition),
    ensures
        assembled(definition) matches Ok(entries) && match formatted_source(
            unit_source(entries, entries.len() as int),
        ) {
            Some(text) => generated(definition) == Ok::<
                Seq<OutputUnitModel>,
                GenErrorModel,
            >(
                seq![
                    OutputUnitModel {
                        name: unit_name(),
                        content: without_marker(text, marker_text()),
                    },
                ],
            ),
            None => generated(definition) == Err::<Seq<OutputUnitModel>, GenErrorModel>(
                GenErrorModel::UnsupportedConstruct(Construct::UnitSyntax),
            ),
        },
{
    lemma_supported_document_assembles(definition);
}

/// For a document of a supported shape the only failure of assembly is a
/// duplicate name.
pub proof fn lemma_only_duplicates_fail(definition: ApiDocument)
    requires
        document_supported(definition),
    ensures
        assembled(definition) matches Err(e) ==> e is DuplicateName,
{
    lemma_walk_of_supported(definition);
    lemma_paths_outcome(
        definition,
        walk_order_of(definition.paths@),
        0,
        Seq::<OperationModel>::empty(),
    );
}

/// For a document whose shared parameters all resolve and in which no two
/// operations have the same normalized identifier, the only failure of
/// assembly, and of generation, is an unsupported construct: that of the
/// first entry or operation on the walk that is not of a supported shape.
pub proof fn lemma_only_unsupported_fails(definition: ApiDocument)
    requires
        shared_references_resolve(definition),
        names_distinct(definition),
    ensures
        assembled(definition) matches Err(e) ==> e is UnsupportedConstruct,
        generated(definition) matches Err(e) ==> e is UnsupportedConstruct,
{
    lemma_walk_of_resolved(definition);
    lemma_paths_outcome(
        definition,
        walk_order_of(definition.paths@),
        0,
        Seq::<OperationModel>::empty(),
    );
}

/// A document in which two declared operations have the same normalized
/// identifier yields no registry and no output; where the document is of a
/// supported shape besides, the failure is a duplicate name.
pub proof fn lemma_same_name_fails(definition: ApiDocument, i: int, s: int, j: int, t: int)
    requires
        0 <= i < definition.paths@.len(),
        0 <= j < definition.paths@.len(),
        0 <= s < METHOD_COUNT,
        0 <= t < METHOD_COUNT,
        i != j || s != t,
        named_at(definition, i, s),
        named_at(definition, j, t),
        normalized_name_at(definition, i, s) == normalized_name_at(definition, j, t),
    ensures
        assembled(definition) is Err,
        generated(definition) is Err,
        document_supported(definition) ==> assembled(definition)->Err_0 is DuplicateName
            && generated(definition)->Err_0 is DuplicateName,
{
    if assembled(definition) is Ok {
        lemma_declared_names_differ(definition, i, s, j, t);
        lemma_model_name(definition, i, s);
        lemma_model_name(definition, j, t);
    }
    if document_supported(definition) {
        lemma_only_duplicates_fail(definition);
    }
}

/// A parameter with an object schema, or with an array schema, is not of a
/// supported shape.
pub proof fn lemma_object_parameter_unsupported(parameter: Parameter)
    requires
        parameter.format == ParameterFormat::Schema(SchemaKind::Object) || parameter.format
            == ParameterFormat::Schema(SchemaKind::Array),
    ensures
        !scalar_parameter(parameter),
        !query_parameter_supported(ParameterOrRef::Item(parameter)),
{
}

/// A document in which some declared operation has a parameter that is not
/// of a supported shape, such as one with an object schema, yields no
/// registry and no output, whatever else it declares. Where its shared
/// parameters all resolve and no two operations have the same normalized
/// identifier, the failure is an unsupported construct.
pub proof fn lemma_unsupported_parameter_stops(definition: ApiDocument, i: int, s: int, j: int)
    requires
        0 <= i < definition.paths@.len(),
        0 <= s < METHOD_COUNT,
        declared_at(definition, i, s) matches Some(operation) && 0 <= j
            < operation.parameters@.len() && !query_parameter_supported(
            operation.parameters@[j],
        ),
    ensures
        assembled(definition) is Err,
        generated(definition) is Err,
        shared_references_resolve(definition) && names_distinct(definition) ==> assembled(
            definition,
        )->Err_0 is UnsupportedConstruct && generated(definition)->Err_0 is UnsupportedConstruct,
{
    if shared_references_resolve(definition) && names_distinct(definition) {
        lemma_only_unsupported_fails(definition);
    }
    lemma_registry_is_the_declared_operations(definition);
    if assembled(definition) is Ok {
        assert(declared_at(definition, i, s) is Some);
        let item = definition.paths@[i].item->Item_0;
        lemma_operation_model_shape(
            path_argument(definition, item.parameters@)->Ok_0,
            method_at(s),
            definition.paths@[i].path@,
            operation_at(item, s)->0,
        );
    }
}

/// Where the walk from position `k` on succeeds, every entry that it
/// reaches is given inline and has a binder.
pub proof fn lemma_paths_entries(
    definition: ApiDocument,
    order: Seq<int>,
    k: int,
    entries: Seq<OperationModel>,
)
    requires
        0 <= k <= order.len(),
    ensures
        paths_from(definition, order, k, entries) is Ok ==> forall|a: int|
            k <= a < order.len() ==> (definition.paths@[#[trigger] order[a]].item matches PathItemOrRef::Item(
                item,
            ) && path_argument(definition, item.parameters@) is Ok),
    decreases order.len() - k,
{
    if k < order.len() && paths_from(definition, order, k, entries) is Ok {
        let entry = definition.paths@[order[k]];
        let item = entry.item->Item_0;
        let path_arguments = path_argument(definition, item.parameters@)->Ok_0;
        let next = methods_from(path_arguments, entry.path@, item, 0, entries)->Ok_0;
        lemma_paths_entries(definition, order, k + 1, next);
    }
}

/// A document with a path entry that is given by reference, or whose shared
/// parameters are not of a supported shape, yields no registry and no
/// output, whatever else it declares. Where its shared parameters all
/// resolve and no two operations have the same normalized identifier, the
/// failure is an unsupported construct.
pub proof fn lemma_unsupported_entry_stops(definition: ApiDocument, i: int)
    requires
        0 <= i < definition.paths@.len(),
        definition.paths@[i].item matches PathItemOrRef::Item(item)
            ==> !shared_parameters_supported(definition, item.parameters@),
    ensures
        assembled(definition) is Err,
        generated(definition) is Err,
        shared_references_resolve(definition) && names_distinct(definition) ==> assembled(
            definition,
        )->Err_0 is UnsupportedConstruct && generated(definition)->Err_0 is UnsupportedConstruct,
{
    if shared_references_resolve(definition) && names_distinct(definition) {
        lemma_only_unsupported_fails(definition);
    }
    let order = walk_order_of(definition.paths@);
    lemma_walk_order(definition.paths@, definition.paths@.len() as int);
    lemma_paths_entries(definition, order, 0, Seq::<OperationModel>::empty());
    assert(order.contains(i));
    let a = choose|a: int| 0 <= a < order.len() && order[a] == i;
    if definition.paths@[i].item is Item {
        lemma_path_argument_supported(definition, definition.paths@[i].item->Item_0.parameters@);
    }
    if assembled(definition) is Ok {
        assert(definition.paths@[order[a]].item is Item);
    }
}

/// A document with a path whose shared parameters hold one that resolves
/// to a parameter without a scalar schema, such as one with an object
/// schema, yields no registry and no output, whatever else it declares.
/// Where its shared parameters all resolve and no two operations have the
/// same normalized identifier, the failure is an unsupported construct.
pub proof fn lemma_unsupported_shared_parameter_stops(definition: ApiDocument, i: int, j: int)
    requires
        0 <= i < definition.paths@.len(),
        definition.paths@[i].item matches PathItemOrRef::Item(item) && 0 <= j
            < item.parameters@.len() && (shared_parameter(
            definition,
            item.parameters@[j],
        ) matches Ok(parameter) ==> !scalar_parameter(parameter)),
    ensures
        assembled(definition) is Err,
        generated(definition) is Err,
        shared_references_resolve(definition) && names_distinct(definition) ==> assembled(
            definition,
        )->Err_0 is UnsupportedConstruct && generated(definition)->Err_0 is UnsupportedConstruct,
{
    let item = definition.paths@[i].item->Item_0;
    assert(!(shared_parameter(definition, item.parameters@[j]) matches Ok(parameter)
        && scalar_parameter(parameter)));
    assert(!shared_parameters_supported(definition, item.parameters@));
    lemma_unsupported_entry_stops(definition, i);
}

/// Generation assembles a registry only for a document of a supported
/// shape in which no two operations have the same normalized identifier.
pub proof fn lemma_assembled_is_supported(definition: ApiDocument)
    requires
        assembled(definition) is Ok,
    ensures
        document_supported(definition),
        names_distinct(definition),
{
    let order = walk_order_of(definition.paths@);
    lemma_walk_order(definition.paths@, definition.paths@.len() as int);
    lemma_paths_entries(definition, order, 0, Seq::<OperationModel>::empty());
    lemma_registry_is_the_declared_operations(definition);
    assert forall|i: int| 0 <= i < definition.paths@.len() implies ((
    #[trigger] definition.paths@[i]).item matches PathItemOrRef::Item(item)
        && shared_parameters_supported(definition, item.parameters@)) by {
        assert(order.contains(i));
        let a = choose|a: int| 0 <= a < order.len() && order[a] == i;
        assert(definition.paths@[order[a]].item is Item);
        lemma_path_argument_supported(definition, definition.paths@[i].item->Item_0.parameters@);
    }
    assert forall|i: int, s: int|
        0 <= i < definition.paths@.len() && 0 <= s < METHOD_COUNT implies ((
    #[trigger] declared_at(definition, i, s)) matches Some(operation) ==> operation_supported(
        operation,
    )) by {
        if declared_at(definition, i, s) is Some {
            lemma_supported_models(definition, i, s);
        }
    }
    assert forall|i: int, s: int, j: int, t: int|
        0 <= i < definition.paths@.len() && 0 <= j < definition.paths@.len() && 0 <= s
            < METHOD_COUNT && 0 <= t < METHOD_COUNT && (i != j || s != t) && #[trigger] named_at(
            definition,
            i,
            s,
        ) && #[trigger] named_at(definition, j, t) implies normalized_name_at(definition, i, s)
        != normalized_name_at(definition, j, t) by {
        lemma_declared_names_differ(definition, i, s, j, t);
        lemma_model_name(definition, i, s);
        lemma_model_name(definition, j, t);
    }
}

} // verus!
