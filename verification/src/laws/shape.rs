//! What every generated operation looks like, and that generation is a
//! function of the document.

use vstd::prelude::*;
use crate::binder::{
    lemma_path_argument_reads_components,
    path_argument,
    shared_parameter,
    shared_parameters_supported,
};
use crate::document::{method_at, operation_at, ApiDocument, PathItemOrRef, METHOD_COUNT};
use crate::emitter::OutputUnit;
use crate::error::{agrees, GenError, GenErrorModel};
use crate::generator::{assembled, generated};
use crate::laws::declared::{
    declared_at,
    lemma_registry_is_the_declared_operations,
    made_by,
    model_of,
};
use crate::laws::counting::lemma_one_operation_each;
use crate::laws::outcome::{
    document_supported,
    lemma_assembled_is_supported,
    lemma_supported_document_assembles,
    named_at,
    names_distinct,
    normalized_name_at,
};
use crate::registry::{lemma_names_unique, lemma_ordered_registries_agree};
use crate::synth::{doc_header, lemma_operation_model_shape, operation_supported, OperationModel};

verus! {

/// Whether the first documentation line of `g` is the header of some
/// operation that the document declares: its method in upper case between
/// square brackets, a space, and its path.
pub open spec fn headed_by_declared(definition: ApiDocument, g: OperationModel) -> bool {
    exists|i: int, s: int|
        0 <= i < definition.paths@.len() && 0 <= s < METHOD_COUNT && (#[trigger] declared_at(
            definition,
            i,
            s,
        )) is Some && g.docs.len() >= 1 && g.docs[0] == doc_header(
            method_at(s),
            definition.paths@[i].path@,
        )
}

/// The first documentation line of every operation of an assembled registry
/// is the method in upper case between square brackets, a space, and the
/// path, of an operation that the document declares.
pub proof fn lemma_first_lines(definition: ApiDocument)
    ensures
        assembled(definition) matches Ok(entries) ==> forall|m: int|
            0 <= m < entries.len() ==> headed_by_declared(definition, #[trigger] entries[m]),
{
    if assembled(definition) is Ok {
        let entries = assembled(definition)->Ok_0;
        lemma_registry_is_the_declared_operations(definition);
        assert forall|m: int| 0 <= m < entries.len() implies headed_by_declared(
            definition,
            #[trigger] entries[m],
        ) by {
            assert(made_by(definition, entries[m]));
            let (i, s) = choose|i: int, s: int|
                0 <= i < definition.paths@.len() && 0 <= s < METHOD_COUNT && (
                #[trigger] declared_at(definition, i, s)) is Some && model_of(definition, i, s)
                    == Ok::<OperationModel, GenErrorModel>(entries[m]);
            let item = definition.paths@[i].item->Item_0;
            lemma_operation_model_shape(
                path_argument(definition, item.parameters@)->Ok_0,
                method_at(s),
                definition.paths@[i].path@,
                operation_at(item, s)->0,
            );
            assert(declared_at(definition, i, s) is Some);
        }
    }
}

/// The operations that are generated for two methods of one path have the
/// same path binder: the one that is built of the path's shared parameters,
/// which is there exactly if the path has shared parameters.
pub proof fn lemma_path_binder_shared(definition: ApiDocument, i: int, s: int, t: int)
    requires
        0 <= i < definition.paths@.len(),
        0 <= s < METHOD_COUNT,
        0 <= t < METHOD_COUNT,
        declared_at(definition, i, s) is Some,
        declared_at(definition, i, t) is Some,
        model_of(definition, i, s) is Ok,
        model_of(definition, i, t) is Ok,
    ensures
        ({
            let item = definition.paths@[i].item->Item_0;
            let first = model_of(definition, i, s)->Ok_0;
            let second = model_of(definition, i, t)->Ok_0;
            &&& path_argument(definition, item.parameters@) matches Ok(path_arguments)
            &&& path_arguments is Some <==> item.parameters@.len() > 0
            &&& path_arguments matches Some(binder) ==> first.args.len() >= 2 && second.args.len()
                >= 2 && first.args[1] == binder && second.args[1] == binder
        }),
{
    let item = definition.paths@[i].item->Item_0;
    let path_arguments = path_argument(definition, item.parameters@)->Ok_0;
    lemma_operation_model_shape(
        path_arguments,
        method_at(s),
        definition.paths@[i].path@,
        operation_at(item, s)->0,
    );
    lemma_operation_model_shape(
        path_arguments,
        method_at(t),
        definition.paths@[i].path@,
        operation_at(item, t)->0,
    );
}

/// The names of the operations of an assembled registry are pairwise
/// different.
pub proof fn lemma_names_pairwise_unique(definition: ApiDocument)
    ensures
        assembled(definition) matches Ok(entries) ==> forall|m: int, n: int|
            0 <= m < entries.len() && 0 <= n < entries.len() && m != n ==> (
            #[trigger] entries[m]).name != (#[trigger] entries[n]).name,
{
    lemma_one_operation_each(definition);
    if assembled(definition) is Ok {
        lemma_names_unique(assembled(definition)->Ok_0);
    }
}

/// Whether every entry of the path table of `first` is an entry of the path
/// table of `second`.
pub open spec fn entries_among(first: ApiDocument, second: ApiDocument) -> bool {
    forall|i: int|
        0 <= i < first.paths@.len() ==> second.paths@.contains(#[trigger] first.paths@[i])
}

/// Every operation that `first` generates is generated by `second` too,
/// where the two have the same component table and every path entry of
/// `first` is one of `second`.
proof fn lemma_made_by_both(first: ApiDocument, second: ApiDocument, g: OperationModel)
    requires
        first.components == second.components,
        entries_among(first, second),
        made_by(first, g),
    ensures
        made_by(second, g),
{
    let (i, s) = choose|i: int, s: int|
        0 <= i < first.paths@.len() && 0 <= s < METHOD_COUNT && (#[trigger] declared_at(
            first,
            i,
            s,
        )) is Some && model_of(first, i, s) == Ok::<OperationModel, GenErrorModel>(g);
    assert(second.paths@.contains(first.paths@[i]));
    let j = choose|j: int| 0 <= j < second.paths@.len() && second.paths@[j] == first.paths@[i];
    let item = first.paths@[i].item->Item_0;
    lemma_path_argument_reads_components(first, second, item.parameters@);
    assert(declared_at(second, j, s) is Some);
    assert(model_of(second, j, s) == model_of(first, i, s));
}

/// The order of the path table is immaterial to the registry: two documents
/// with the same component table and the same path entries, in whatever
/// order, give the same registry where both give one, and then the same
/// output.
pub proof fn lemma_table_order_is_immaterial(first: ApiDocument, second: ApiDocument)
    requires
        first.components == second.components,
        entries_among(first, second),
        entries_among(second, first),
        assembled(first) is Ok,
        assembled(second) is Ok,
    ensures
        assembled(first) == assembled(second),
        generated(first) == generated(second),
{
    let one = assembled(first)->Ok_0;
    let other = assembled(second)->Ok_0;
    lemma_one_operation_each(first);
    lemma_one_operation_each(second);
    lemma_registry_is_the_declared_operations(first);
    lemma_registry_is_the_declared_operations(second);
    assert forall|g: OperationModel| one.contains(g) <==> other.contains(g) by {
        if one.contains(g) {
            let m = choose|m: int| 0 <= m < one.len() && one[m] == g;
            assert(made_by(first, one[m]));
            lemma_made_by_both(first, second, g);
            lemma_member_of_registry(second, g);
        }
        if other.contains(g) {
            let m = choose|m: int| 0 <= m < other.len() && other[m] == g;
            assert(made_by(second, other[m]));
            lemma_made_by_both(second, first, g);
            lemma_member_of_registry(first, g);
        }
    }
    lemma_ordered_registries_agree(one, other);
}

/// Whether the path table of `second` holds the entries of the path table
/// of `first` in another order: entry `k` of `second` is entry `places[k]`
/// of `first`, and `places` holds every position of `first` exactly once.
pub open spec fn is_reordering(first: ApiDocument, second: ApiDocument, places: Seq<int>) -> bool {
    &&& second.paths@.len() == first.paths@.len()
    &&& places.len() == first.paths@.len()
    &&& forall|k: int|
        0 <= k < places.len() ==> 0 <= #[trigger] places[k] < first.paths@.len()
            && second.paths@[k] == first.paths@[places[k]]
    &&& forall|k: int, l: int|
        0 <= k < places.len() && 0 <= l < places.len() && k != l ==> #[trigger] places[k]
            != #[trigger] places[l]
    &&& forall|i: int| 0 <= i < first.paths@.len() ==> #[trigger] places.contains(i)
}

/// A document whose path table is reordered keeps its shape, and its
/// operations keep their normalized identifiers apart.
proof fn lemma_reordering_keeps_shape(
    first: ApiDocument,
    second: ApiDocument,
    places: Seq<int>,
)
    requires
        first.components == second.components,
        is_reordering(first, second, places),
        document_supported(first),
        names_distinct(first),
    ensures
        document_supported(second),
        names_distinct(second),
{
    assert forall|k: int| 0 <= k < second.paths@.len() implies ((
    #[trigger] second.paths@[k]).item matches PathItemOrRef::Item(item)
        && shared_parameters_supported(second, item.parameters@)) by {
        assert(second.paths@[k] == first.paths@[places[k]]);
        let item = first.paths@[places[k]].item->Item_0;
        assert(shared_parameters_supported(first, item.parameters@));
        assert forall|j: int| 0 <= j < item.parameters@.len() implies shared_parameter(
            second,
            #[trigger] item.parameters@[j],
        ) == shared_parameter(first, item.parameters@[j]) by {}
    }
    assert forall|k: int, s: int|
        0 <= k < second.paths@.len() && 0 <= s < METHOD_COUNT implies ((#[trigger] declared_at(
        second,
        k,
        s,
    )) matches Some(operation) ==> operation_supported(operation)) by {
        assert(second.paths@[k] == first.paths@[places[k]]);
        assert(declared_at(second, k, s) == declared_at(first, places[k], s));
    }
    assert forall|k: int, s: int, l: int, t: int|
        0 <= k < second.paths@.len() && 0 <= l < second.paths@.len() && 0 <= s < METHOD_COUNT
            && 0 <= t < METHOD_COUNT && (k != l || s != t) && #[trigger] named_at(second, k, s)
            && #[trigger] named_at(second, l, t) implies normalized_name_at(second, k, s)
        != normalized_name_at(second, l, t) by {
        assert(second.paths@[k] == first.paths@[places[k]]);
        assert(second.paths@[l] == first.paths@[places[l]]);
        assert(declared_at(second, k, s) == declared_at(first, places[k], s));
        assert(declared_at(second, l, t) == declared_at(first, places[l], t));
        assert(named_at(first, places[k], s));
        assert(named_at(first, places[l], t));
        assert(k != l ==> places[k] != places[l]);
    }
}

/// The output does not depend on the order in which the path table holds
/// its entries: where a document generates a registry, every document with
/// the same component table and the same path entries in another order
/// generates the same registry, and then the same output.
pub proof fn lemma_reordered_table_generates_the_same(
    first: ApiDocument,
    second: ApiDocument,
    places: Seq<int>,
)
    requires
        first.components == second.components,
        is_reordering(first, second, places),
        assembled(first) is Ok,
    ensures
        assembled(second) == assembled(first),
        generated(second) == generated(first),
{
    lemma_assembled_is_supported(first);
    lemma_reordering_keeps_shape(first, second, places);
    lemma_supported_document_assembles(second);
    assert forall|i: int| 0 <= i < first.paths@.len() implies second.paths@.contains(
        #[trigger] first.paths@[i],
    ) by {
        assert(places.contains(i));
        let k = choose|k: int| 0 <= k < places.len() && places[k] == i;
        assert(second.paths@[k] == first.paths@[places[k]]);
    }
    assert forall|k: int| 0 <= k < second.paths@.len() implies first.paths@.contains(
        #[trigger] second.paths@[k],
    ) by {
        assert(second.paths@[k] == first.paths@[places[k]]);
    }
    lemma_table_order_is_immaterial(first, second);
}

/// An operation that a document generates is in its registry.
proof fn lemma_member_of_registry(definition: ApiDocument, g: OperationModel)
    requires
        assembled(definition) is Ok,
        made_by(definition, g),
    ensures
        assembled(definition)->Ok_0.contains(g),
{
    lemma_registry_is_the_declared_operations(definition);
    let (i, s) = choose|i: int, s: int|
        0 <= i < definition.paths@.len() && 0 <= s < METHOD_COUNT && (#[trigger] declared_at(
            definition,
            i,
            s,
        )) is Some && model_of(definition, i, s) == Ok::<OperationModel, GenErrorModel>(g);
    assert(declared_at(definition, i, s) is Some);
}

/// Generation is a function of the document: two runs on one document
/// return the same units with the same text, or the same failure.
pub proof fn lemma_generation_is_deterministic(
    definition: ApiDocument,
    first: Result<Vec<OutputUnit>, GenError>,
    second: Result<Vec<OutputUnit>, GenError>,
)
    requires
        agrees(first, generated(definition)),
        agrees(second, generated(definition)),
    ensures
        first is Ok <==> second is Ok,
        first matches Ok(a) ==> second matches Ok(b) && a.deep_view() == b.deep_view(),
        first matches Err(a) ==> second matches Err(b) && a@ == b@,
{
}

} // verus!
