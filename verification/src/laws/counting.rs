//! How many operations a registry holds: one for each operation that the
//! document declares.

use vstd::prelude::*;
use crate::binder::{ArgumentModel, path_argument};
use crate::document::{
    ApiDocument,
    method_at,
    METHOD_COUNT,
    operation_at,
    PathItem,
    PathItemOrRef,
    present_from,
};
use crate::generator::{assembled, methods_from, paths_from};
use crate::registry::{
    holds_name,
    lemma_insert_keeps_order,
    lemma_insert_members,
    registry_insert,
    strictly_ordered,
};
use crate::synth::{operation_model, OperationModel};
use crate::walker::{
    lemma_place_splits,
    lemma_walk_order,
    place_from,
    walk_order_of,
    walk_order_upto,
};

verus! {

/// The number of operations that entry `i` of the path table declares for
/// the methods that are looked at.
pub open spec fn operations_of_entry(definition: ApiDocument, i: int) -> nat {
    match definition.paths@[i].item {
        PathItemOrRef::Item(item) => present_from(item, 0),
        PathItemOrRef::Reference(_) => 0,
    }
}

/// The number of operations that the first `n` entries of the path table
/// declare.
pub open spec fn operations_upto(definition: ApiDocument, n: int) -> nat
    decreases n,
{
    if n <= 0 {
        0
    } else {
        operations_upto(definition, n - 1) + operations_of_entry(definition, n - 1)
    }
}

/// The number of operations that a document declares.
pub open spec fn declared_operations(definition: ApiDocument) -> nat {
    operations_upto(definition, definition.paths@.len() as int)
}

/// The number of operations that the entries at the given positions declare.
pub open spec fn operations_in(definition: ApiDocument, order: Seq<int>) -> nat
    decreases order.len(),
{
    if order.len() == 0 {
        0
    } else {
        operations_of_entry(definition, order[0]) + operations_in(definition, order.skip(1))
    }
}

/// An entry that joins a sequence of positions adds its operations to the
/// count, wherever it joins.
pub proof fn lemma_operations_in_insert(definition: ApiDocument, order: Seq<int>, p: int, i: int)
    requires
        0 <= p <= order.len(),
    ensures
        operations_in(definition, order.insert(p, i)) == operations_in(definition, order)
            + operations_of_entry(definition, i),
    decreases p,
{
    let joined = order.insert(p, i);
    order.insert_ensures(p, i);
    if p == 0 {
        assert(joined.skip(1) =~= order);
    } else {
        assert(joined.skip(1) =~= order.skip(1).insert(p - 1, i));
        lemma_operations_in_insert(definition, order.skip(1), p - 1, i);
    }
}

/// The walk passes as many operations as the path table declares.
pub proof fn lemma_operations_in_walk(definition: ApiDocument, n: int)
    requires
        0 <= n <= definition.paths@.len(),
    ensures
        operations_in(definition, walk_order_upto(definition.paths@, n)) == operations_upto(
            definition,
            n,
        ),
    decreases n,
{
    if n > 0 {
        lemma_operations_in_walk(definition, n - 1);
        lemma_walk_order(definition.paths@, n - 1);
        let earlier = walk_order_upto(definition.paths@, n - 1);
        let p = place_from(definition.paths@, earlier, n - 1, 0);
        lemma_place_splits(definition.paths@, earlier, n - 1, 0);
        lemma_operations_in_insert(definition, earlier, p, n - 1);
    }
}

/// The operations of one path add one entry each, and keep the registry in
/// the order of its names.
pub proof fn lemma_methods_count(
    path_arguments: Option<ArgumentModel>,
    path: Seq<char>,
    item: PathItem,
    step: int,
    entries: Seq<OperationModel>,
)
    requires
        0 <= step,
    ensures
        methods_from(path_arguments, path, item, step, entries) matches Ok(after) ==> {
            &&& after.len() == entries.len() + present_from(item, step)
            &&& strictly_ordered(entries) ==> strictly_ordered(after)
            &&& forall|name: Seq<char>| holds_name(entries, name) ==> holds_name(after, name)
            &&& forall|g: OperationModel| entries.contains(g) ==> after.contains(g)
        },
    decreases METHOD_COUNT - step,
{
    if step < METHOD_COUNT {
        match operation_at(item, step) {
            None => {
                lemma_methods_count(path_arguments, path, item, step + 1, entries);
            },
            Some(operation) => {
                match operation_model(path_arguments, method_at(step), path, operation) {
                    Ok(generated) => {
                        lemma_insert_members(entries, generated);
                        match registry_insert(entries, generated) {
                            Ok(next) => {
                                if strictly_ordered(entries) {
                                    lemma_insert_keeps_order(entries, generated);
                                }
                                lemma_methods_count(path_arguments, path, item, step + 1, next);
                                if methods_from(path_arguments, path, item, step, entries) is Ok {
                                    let after = methods_from(
                                        path_arguments,
                                        path,
                                        item,
                                        step,
                                        entries,
                                    )->Ok_0;
                                    assert forall|g: OperationModel|
                                        entries.contains(g) implies after.contains(g) by {
                                        assert(next.contains(g));
                                    }
                                }
                            },
                            Err(_) => {},
                        }
                    },
                    Err(_) => {},
                }
            },
        }
    }
}

/// The walk adds one entry for each operation that it passes, and keeps the
/// registry in the order of its names.
pub proof fn lemma_paths_count(
    definition: ApiDocument,
    order: Seq<int>,
    k: int,
    entries: Seq<OperationModel>,
)
    requires
        0 <= k <= order.len(),
    ensures
        paths_from(definition, order, k, entries) matches Ok(after) ==> {
            &&& after.len() == entries.len() + operations_in(definition, order.skip(k))
            &&& strictly_ordered(entries) ==> strictly_ordered(after)
            &&& forall|name: Seq<char>| holds_name(entries, name) ==> holds_name(after, name)
            &&& forall|g: OperationModel| entries.contains(g) ==> after.contains(g)
        },
    decreases order.len() - k,
{
    if k < order.len() {
        let entry = definition.paths@[order[k]];
        assert(order.skip(k)[0] == order[k]);
        assert(order.skip(k).skip(1) =~= order.skip(k + 1));
        match entry.item {
            PathItemOrRef::Reference(_) => {},
            PathItemOrRef::Item(item) => {
                match path_argument(definition, item.parameters@) {
                    Err(_) => {},
                    Ok(path_arguments) => {
                        lemma_methods_count(path_arguments, entry.path@, item, 0, entries);
                        match methods_from(path_arguments, entry.path@, item, 0, entries) {
                            Ok(next) => {
                                lemma_paths_count(definition, order, k + 1, next);
                                if paths_from(definition, order, k, entries) is Ok {
                                    let after = paths_from(definition, order, k, entries)->Ok_0;
                                    assert forall|g: OperationModel|
                                        entries.contains(g) implies after.contains(g) by {
                                        assert(next.contains(g));
                                    }
                                }
                            },
                            Err(_) => {},
                        }
                    },
                }
            },
        }
    } else {
        assert(order.skip(k) =~= Seq::<int>::empty());
    }
}

/// Where generation assembles a registry, it holds exactly one operation
/// for each operation that the document declares, no more and no fewer, and
/// holds them in the order of their names.
pub proof fn lemma_one_operation_each(definition: ApiDocument)
    ensures
        assembled(definition) matches Ok(entries) ==> {
            &&& entries.len() == declared_operations(definition)
            &&& strictly_ordered(entries)
        },
{
    let order = walk_order_of(definition.paths@);
    lemma_paths_count(definition, order, 0, Seq::<OperationModel>::empty());
    assert(order.skip(0) =~= order);
    lemma_operations_in_walk(definition, definition.paths@.len() as int);
}

} // verus!
