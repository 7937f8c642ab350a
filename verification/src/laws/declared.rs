//! Where the operations of a registry come from: each is the generated
//! operation of a declared operation, and each declared operation has one.

use vstd::prelude::*;
use crate::binder::{ArgumentModel, path_argument};
use crate::document::{
    ApiDocument,
    method_at,
    METHOD_COUNT,
    Operation,
    operation_at,
    PathItem,
    PathItemOrRef,
};
use crate::error::{Construct, GenErrorModel};
use crate::generator::{assembled, methods_from, paths_from};
use crate::laws::counting::{lemma_methods_count, lemma_paths_count};
use crate::registry::{holds_name, lemma_insert_members, registry_insert};
use crate::synth::{operation_model, OperationModel};
use crate::walker::{lemma_walk_order, walk_order_of};

verus! {

/// The generated operation of the operation that a path declares for the
/// method of step `s`; meaningful where the path declares one.
pub open spec fn made_at(
    path_arguments: Option<ArgumentModel>,
    path: Seq<char>,
    item: PathItem,
    s: int,
) -> Result<OperationModel, GenErrorModel> {
    match operation_at(item, s) {
        Some(operation) => operation_model(path_arguments, method_at(s), path, operation),
        None => Err(GenErrorModel::UnsupportedConstruct(Construct::MissingOperationId)),
    }
}

/// The operation that entry `i` of the path table declares for the method
/// of step `s`, if it declares one.
pub open spec fn declared_at(definition: ApiDocument, i: int, s: int) -> Option<Operation> {
    match definition.paths@[i].item {
        PathItemOrRef::Item(item) => operation_at(item, s),
        PathItemOrRef::Reference(_) => None,
    }
}

/// The generated operation of the operation that entry `i` of the path
/// table declares for the method of step `s`, built with the binder of that
/// entry's shared parameters; meaningful where the entry declares one.
pub open spec fn model_of(definition: ApiDocument, i: int, s: int) -> Result<
    OperationModel,
    GenErrorModel,
> {
    match definition.paths@[i].item {
        PathItemOrRef::Reference(_) => Err(
            GenErrorModel::UnsupportedConstruct(Construct::PathReference),
        ),
        PathItemOrRef::Item(item) => match path_argument(definition, item.parameters@) {
            Err(e) => Err(e),
            Ok(path_arguments) => made_at(path_arguments, definition.paths@[i].path@, item, s),
        },
    }
}

/// Whether `g` is the generated operation of an operation that the path
/// declares at step `step` or later.
pub open spec fn made_on_path(
    path_arguments: Option<ArgumentModel>,
    path: Seq<char>,
    item: PathItem,
    step: int,
    g: OperationModel,
) -> bool {
    exists|s: int|
        step <= s < METHOD_COUNT && (#[trigger] operation_at(item, s)) is Some && made_at(
            path_arguments,
            path,
            item,
            s,
        ) == Ok::<OperationModel, GenErrorModel>(g)
}

/// Whether `g` is the generated operation of an operation that the document
/// declares at an entry that the walk reaches at position `k` or later.
pub open spec fn made_on_walk(
    definition: ApiDocument,
    order: Seq<int>,
    k: int,
    g: OperationModel,
) -> bool {
    exists|a: int, s: int|
        k <= a < order.len() && 0 <= s < METHOD_COUNT && (#[trigger] declared_at(
            definition,
            order[a],
            s,
        )) is Some && model_of(definition, order[a], s) == Ok::<OperationModel, GenErrorModel>(g)
}

/// Whether `g` is the generated operation of some operation that the
/// document declares.
pub open spec fn made_by(definition: ApiDocument, g: OperationModel) -> bool {
    exists|i: int, s: int|
        0 <= i < definition.paths@.len() && 0 <= s < METHOD_COUNT && (#[trigger] declared_at(
            definition,
            i,
            s,
        )) is Some && model_of(definition, i, s) == Ok::<OperationModel, GenErrorModel>(g)
}

/// What the operations of one path leave in the registry: each of them, as
/// synthesized, under a name that was not there before, no two under the
/// same name, and nothing else that was not there before.
pub proof fn lemma_methods_made(
    path_arguments: Option<ArgumentModel>,
    path: Seq<char>,
    item: PathItem,
    step: int,
    entries: Seq<OperationModel>,
)
    requires
        0 <= step,
    ensures
        methods_from(path_arguments, path, item, step, entries) matches Ok(after) ==> {
            &&& forall|m: int|
                0 <= m < after.len() ==> entries.contains(#[trigger] after[m]) || made_on_path(
                    path_arguments,
                    path,
                    item,
                    step,
                    after[m],
                )
            &&& forall|s: int|
                step <= s < METHOD_COUNT && (#[trigger] operation_at(item, s)) is Some ==> {
                    &&& made_at(path_arguments, path, item, s) matches Ok(g)
                    &&& after.contains(g)
                    &&& holds_name(after, g.name)
                    &&& !holds_name(entries, g.name)
                }
            &&& forall|s: int, t: int|
                step <= s < t < METHOD_COUNT && (#[trigger] operation_at(item, s)) is Some && (
                #[trigger] operation_at(item, t)) is Some ==> made_at(
                    path_arguments,
                    path,
                    item,
                    s,
                )->Ok_0.name != made_at(path_arguments, path, item, t)->Ok_0.name
        },
    decreases METHOD_COUNT - step,
{
    if step < METHOD_COUNT {
        match operation_at(item, step) {
            None => {
                lemma_methods_made(path_arguments, path, item, step + 1, entries);
                if methods_from(path_arguments, path, item, step, entries) is Ok {
                    let after = methods_from(path_arguments, path, item, step, entries)->Ok_0;
                    assert forall|m: int| 0 <= m < after.len() implies entries.contains(
                        #[trigger] after[m],
                    ) || made_on_path(path_arguments, path, item, step, after[m]) by {
                        if made_on_path(path_arguments, path, item, step + 1, after[m]) {
                            let s = choose|s: int|
                                step + 1 <= s < METHOD_COUNT && (#[trigger] operation_at(
                                    item,
                                    s,
                                )) is Some && made_at(path_arguments, path, item, s) == Ok::<
                                    OperationModel,
                                    GenErrorModel,
                                >(after[m]);
                            assert(operation_at(item, s) is Some);
                        }
                    }
                }
            },
            Some(operation) => {
                match operation_model(path_arguments, method_at(step), path, operation) {
                    Ok(generated) => {
                        lemma_insert_members(entries, generated);
                        match registry_insert(entries, generated) {
                            Ok(next) => {
                                lemma_methods_made(path_arguments, path, item, step + 1, next);
                                lemma_methods_count(path_arguments, path, item, step + 1, next);
                                if methods_from(path_arguments, path, item, step, entries) is Ok {
                                    let after = methods_from(
                                        path_arguments,
                                        path,
                                        item,
                                        step,
                                        entries,
                                    )->Ok_0;
                                    assert(next.contains(generated));
                                    assert(holds_name(next, generated.name));
                                    assert(operation_at(item, step) is Some);
                                    assert forall|m: int|
                                        0 <= m < after.len() implies entries.contains(
                                        #[trigger] after[m],
                                    ) || made_on_path(
                                        path_arguments,
                                        path,
                                        item,
                                        step,
                                        after[m],
                                    ) by {
                                        if next.contains(after[m]) {
                                            let j = choose|j: int|
                                                0 <= j < next.len() && next[j] == after[m];
                                            assert(next[j] == generated || entries.contains(
                                                next[j],
                                            ));
                                        } else {
                                            let s = choose|s: int|
                                                step + 1 <= s < METHOD_COUNT && (
                                                #[trigger] operation_at(item, s)) is Some
                                                    && made_at(path_arguments, path, item, s)
                                                    == Ok::<OperationModel, GenErrorModel>(
                                                    after[m],
                                                );
                                            assert(operation_at(item, s) is Some);
                                        }
                                    }
                                }
                            },
                            Err(_) => {},
                        }
                    },
                    Err(_) => {},
                }
            },
        }
    }
}

/// Whether position `a` and step `s` of the walk come before position `b`
/// and step `t`.
pub open spec fn walk_earlier(a: int, s: int, b: int, t: int) -> bool {
    a < b || (a == b && s < t)
}

/// What the walk from position `k` on leaves in the registry: each declared
/// operation, as synthesized, under a name that was not there before, no two
/// under the same name, and nothing else that was not there before.
pub proof fn lemma_paths_made(
    definition: ApiDocument,
    order: Seq<int>,
    k: int,
    entries: Seq<OperationModel>,
)
    requires
        0 <= k <= order.len(),
    ensures
        paths_from(definition, order, k, entries) matches Ok(after) ==> {
            &&& forall|m: int|
                0 <= m < after.len() ==> entries.contains(#[trigger] after[m]) || made_on_walk(
                    definition,
                    order,
                    k,
                    after[m],
                )
            &&& forall|a: int, s: int|
                k <= a < order.len() && 0 <= s < METHOD_COUNT && (#[trigger] declared_at(
                    definition,
                    order[a],
                    s,
                )) is Some ==> {
                    &&& model_of(definition, order[a], s) matches Ok(g)
                    &&& after.contains(g)
                    &&& holds_name(after, g.name)
                    &&& !holds_name(entries, g.name)
                }
            &&& forall|a: int, s: int, b: int, t: int|
                k <= a < order.len() && k <= b < order.len() && 0 <= s < METHOD_COUNT && 0 <= t
                    < METHOD_COUNT && walk_earlier(a, s, b, t) && (#[trigger] declared_at(
                    definition,
                    order[a],
                    s,
                )) is Some && (#[trigger] declared_at(definition, order[b], t)) is Some
                    ==> model_of(definition, order[a], s)->Ok_0.name != model_of(
                    definition,
                    order[b],
                    t,
                )->Ok_0.name
        },
    decreases order.len() - k,
{
    if k < order.len() && paths_from(definition, order, k, entries) is Ok {
        let after = paths_from(definition, order, k, entries)->Ok_0;
        let entry = definition.paths@[order[k]];
        let item = entry.item->Item_0;
        let path_arguments = path_argument(definition, item.parameters@)->Ok_0;
        let next = methods_from(path_arguments, entry.path@, item, 0, entries)->Ok_0;
        assert(entry.item is Item);
        assert(path_argument(definition, item.parameters@) is Ok);
        assert(methods_from(path_arguments, entry.path@, item, 0, entries) is Ok);
        assert(paths_from(definition, order, k + 1, next) == Ok::<
            Seq<OperationModel>,
            GenErrorModel,
        >(after));
        lemma_methods_made(path_arguments, entry.path@, item, 0, entries);
        lemma_methods_count(path_arguments, entry.path@, item, 0, entries);
        lemma_paths_made(definition, order, k + 1, next);
        lemma_paths_count(definition, order, k + 1, next);
        assert forall|s: int| 0 <= s < METHOD_COUNT implies model_of(definition, order[k], s)
            == made_at(path_arguments, entry.path@, item, s) && declared_at(
            definition,
            order[k],
            s,
        ) == operation_at(item, s) by {}
        assert forall|m: int| 0 <= m < after.len() implies entries.contains(
            #[trigger] after[m],
        ) || made_on_walk(definition, order, k, after[m]) by {
            if next.contains(after[m]) {
                let j = choose|j: int| 0 <= j < next.len() && next[j] == after[m];
                if !entries.contains(next[j]) {
                    let s = choose|s: int|
                        0 <= s < METHOD_COUNT && (#[trigger] operation_at(item, s)) is Some
                            && made_at(path_arguments, entry.path@, item, s) == Ok::<
                            OperationModel,
                            GenErrorModel,
                        >(next[j]);
                    assert(declared_at(definition, order[k], s) is Some);
                }
            } else {
                let (a, s) = choose|a: int, s: int|
                    k + 1 <= a < order.len() && 0 <= s < METHOD_COUNT && (#[trigger] declared_at(
                        definition,
                        order[a],
                        s,
                    )) is Some && model_of(definition, order[a], s) == Ok::<
                        OperationModel,
                        GenErrorModel,
                    >(after[m]);
                assert(declared_at(definition, order[a], s) is Some);
            }
        }
        assert forall|a: int, s: int|
            k <= a < order.len() && 0 <= s < METHOD_COUNT && (#[trigger] declared_at(
                definition,
                order[a],
                s,
            )) is Some implies {
            &&& model_of(definition, order[a], s) matches Ok(g)
            &&& after.contains(g)
            &&& holds_name(after, g.name)
            &&& !holds_name(entries, g.name)
        } by {
            if a == k {
                assert(operation_at(item, s) is Some);
                let g = made_at(path_arguments, entry.path@, item, s)->Ok_0;
                assert(next.contains(g));
                assert(holds_name(next, g.name));
            } else {
                let g = model_of(definition, order[a], s)->Ok_0;
                assert(!holds_name(next, g.name));
            }
        }
        assert forall|a: int, s: int, b: int, t: int|
            k <= a < order.len() && k <= b < order.len() && 0 <= s < METHOD_COUNT && 0 <= t
                < METHOD_COUNT && walk_earlier(a, s, b, t) && (#[trigger] declared_at(
                definition,
                order[a],
                s,
            )) is Some && (#[trigger] declared_at(
                definition,
                order[b],
                t,
            )) is Some implies model_of(definition, order[a], s)->Ok_0.name != model_of(
            definition,
            order[b],
            t,
        )->Ok_0.name by {
            if a == k && b == k {
                assert(operation_at(item, s) is Some);
                assert(operation_at(item, t) is Some);
            } else if a == k {
                assert(operation_at(item, s) is Some);
                let g = made_at(path_arguments, entry.path@, item, s)->Ok_0;
                assert(holds_name(next, g.name));
                let h = model_of(definition, order[b], t)->Ok_0;
                assert(!holds_name(next, h.name));
            }
        }
    }
}

/// Every operation of an assembled registry is the generated operation of
/// an operation that the document declares, and every declared operation
/// has its generated operation in the registry. Generation therefore
/// succeeds only where every path entry is given inline, the binder of its
/// shared parameters can be built, and every declared operation can be
/// synthesized.
pub proof fn lemma_registry_is_the_declared_operations(definition: ApiDocument)
    ensures
        assembled(definition) matches Ok(entries) ==> {
            &&& forall|m: int|
                0 <= m < entries.len() ==> made_by(definition, #[trigger] entries[m])
            &&& forall|i: int, s: int|
                0 <= i < definition.paths@.len() && 0 <= s < METHOD_COUNT && (
                #[trigger] declared_at(definition, i, s)) is Some ==> {
                    &&& model_of(definition, i, s) matches Ok(g)
                    &&& entries.contains(g)
                }
        },
{
    if assembled(definition) is Ok {
        let entries = assembled(definition)->Ok_0;
        let order = walk_order_of(definition.paths@);
        let n = definition.paths@.len() as int;
        lemma_walk_order(definition.paths@, n);
        lemma_paths_made(definition, order, 0, Seq::<OperationModel>::empty());
        assert forall|m: int| 0 <= m < entries.len() implies made_by(
            definition,
            #[trigger] entries[m],
        ) by {
            assert(!Seq::<OperationModel>::empty().contains(entries[m]));
            let (a, s) = choose|a: int, s: int|
                0 <= a < order.len() && 0 <= s < METHOD_COUNT && (#[trigger] declared_at(
                    definition,
                    order[a],
                    s,
                )) is Some && model_of(definition, order[a], s) == Ok::<
                    OperationModel,
                    GenErrorModel,
                >(entries[m]);
            assert(declared_at(definition, order[a], s) is Some);
        }
        assert forall|i: int, s: int|
            0 <= i < n && 0 <= s < METHOD_COUNT && (#[trigger] declared_at(
                definition,
                i,
                s,
            )) is Some implies {
            &&& model_of(definition, i, s) matches Ok(g)
            &&& entries.contains(g)
        } by {
            assert(order.contains(i));
            let a = choose|a: int| 0 <= a < order.len() && order[a] == i;
            assert(declared_at(definition, order[a], s) is Some);
        }
    }
}

/// Where generation assembles a registry, no two operations that the
/// document declares have the same normalized name: a document in which two
/// do never yields a registry.
pub proof fn lemma_declared_names_differ(definition: ApiDocument, i: int, s: int, j: int, t: int)
    requires
        0 <= i < definition.paths@.len(),
        0 <= j < definition.paths@.len(),
        0 <= s < METHOD_COUNT,
        0 <= t < METHOD_COUNT,
        i != j || s != t,
        declared_at(definition, i, s) is Some,
        declared_at(definition, j, t) is Some,
        assembled(definition) is Ok,
    ensures
        model_of(definition, i, s) is Ok,
        model_of(definition, j, t) is Ok,
        model_of(definition, i, s)->Ok_0.name != model_of(definition, j, t)->Ok_0.name,
{
    let order = walk_order_of(definition.paths@);
    let n = definition.paths@.len() as int;
    lemma_walk_order(definition.paths@, n);
    lemma_paths_made(definition, order, 0, Seq::<OperationModel>::empty());
    assert(order.contains(i));
    assert(order.contains(j));
    let a = choose|a: int| 0 <= a < order.len() && order[a] == i;
    let b = if i == j {
        a
    } else {
        choose|b: int| 0 <= b < order.len() && order[b] == j
    };
    assert(declared_at(definition, order[a], s) is Some);
    assert(declared_at(definition, order[b], t) is Some);
    if walk_earlier(a, s, b, t) {
    } else {
        assert(walk_earlier(b, t, a, s));
    }
}

} // verus!
