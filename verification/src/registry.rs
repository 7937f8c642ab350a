//! The registry of generated operations: one ordered mapping from normalized
//! name to operation. A name enters it at most once, and the operations leave
//! it in the order of their names, whatever the order in which they came.

use vstd::prelude::*;
use vstd::string::*;
use crate::error::{GenError, GenErrorModel};
use crate::synth::{all_normalized, operation_normalized, GeneratedOperation, OperationModel};
use crate::text::{
    compare_names,
    lemma_name_lt_transitive,
    lemma_name_order,
    name_lt,
    NameOrder,
};

verus! {

/// Whether each entry's name comes before the names of all later entries.
pub open spec fn strictly_ordered(entries: Seq<OperationModel>) -> bool {
    forall|i: int, j: int|
        0 <= i < j < entries.len() ==> name_lt(
            (#[trigger] entries[i]).name,
            (#[trigger] entries[j]).name,
        )
}

/// Whether some entry has the given name.
pub open spec fn holds_name(entries: Seq<OperationModel>, name: Seq<char>) -> bool {
    exists|i: int| 0 <= i < entries.len() && (#[trigger] entries[i]).name == name
}

/// The position, from `from` on, of the first entry whose name does not come
/// before `name`; the number of entries if there is none.
pub open spec fn rank_from(entries: Seq<OperationModel>, name: Seq<char>, from: int) -> int
    decreases entries.len() - from,
{
    if from >= entries.len() {
        entries.len() as int
    } else if name_lt(entries[from].name, name) {
        rank_from(entries, name, from + 1)
    } else {
        from
    }
}

/// The position at which an operation of the given name enters.
pub open spec fn rank(entries: Seq<OperationModel>, name: Seq<char>) -> int {
    rank_from(entries, name, 0)
}

/// The registry after an operation is offered to it: refused if its name is
/// already there, entered at the position of its name otherwise.
pub open spec fn registry_insert(entries: Seq<OperationModel>, operation: OperationModel) -> Result<
    Seq<OperationModel>,
    GenErrorModel,
> {
    if holds_name(entries, operation.name) {
        Err(GenErrorModel::DuplicateName(operation.name))
    } else {
        Ok(entries.insert(rank(entries, operation.name), operation))
    }
}

/// The registry of generated operations.
pub struct NameRegistry {
    methods: Vec<GeneratedOperation>,
}

impl View for NameRegistry {
    type V = Seq<OperationModel>;

    closed spec fn view(&self) -> Seq<OperationModel> {
        self.methods.deep_view()
    }
}

impl DeepView for NameRegistry {
    type V = Seq<OperationModel>;

    open spec fn deep_view(&self) -> Seq<OperationModel> {
        self@
    }
}

impl NameRegistry {
    /// The entries are kept in the order of their names.
    #[verifier::type_invariant]
    spec fn ordered(self) -> bool {
        strictly_ordered(self.methods.deep_view())
    }

    /// An empty registry.
    pub fn new() -> (r: Self)
        ensures
            r@ == Seq::<OperationModel>::empty(),
    {
        let methods: Vec<GeneratedOperation> = Vec::new();
        assert(methods.deep_view() =~= Seq::<OperationModel>::empty());
        NameRegistry { methods }
    }

    /// Enters an operation under its name. A name that is already there is
    /// refused, and the registry stays as it was.
    pub fn add_method(&mut self, method: GeneratedOperation) -> (r: Result<(), GenError>)
        ensures
            match registry_insert(old(self)@, method.deep_view()) {
                Ok(entries) => r is Ok && final(self)@ == entries,
                Err(e) => r matches Err(x) && x@ == e && final(self)@ == old(self)@,
            },
            strictly_ordered(final(self)@),
    {
        proof {
            use_type_invariant(&*self);
        }
        let ghost entries = self.methods.deep_view();
        let ghost model = method.deep_view();
        let mut i: usize = 0;
        let mut placed = false;
        while !placed && i < self.methods.len()
            invariant
                i <= self.methods.len(),
                self.methods.deep_view() == entries,
                method.deep_view() == model,
                strictly_ordered(entries),
                forall|j: int| 0 <= j < i ==> name_lt((#[trigger] entries[j]).name, model.name),
                placed ==> i < entries.len() && name_lt(model.name, entries[i as int].name),
            decreases self.methods.len() - i + if placed { 0int } else { 1int },
        {
            match compare_names(self.methods[i].name.as_str(), method.name.as_str()) {
                NameOrder::Before => {
                    i = i + 1;
                },
                NameOrder::Same => {
                    assert(entries[i as int].name == model.name);
                    return Err(GenError::DuplicateName(method.name.clone()));
                },
                NameOrder::After => {
                    placed = true;
                },
            }
        }
        proof {
            if i < entries.len() {
                lemma_name_order(model.name, entries[i as int].name);
            }
            lemma_rank_is(entries, model.name, i as int, 0);
            lemma_absent_at_rank(entries, model.name);
            lemma_insert_keeps_order(entries, model);
        }
        let mut methods: Vec<GeneratedOperation> = Vec::new();
        assert(methods.deep_view() =~= Seq::<OperationModel>::empty());
        std::mem::swap(&mut self.methods, &mut methods);
        methods.insert(i, method);
        assert(methods.deep_view() =~= entries.insert(i as int, model));
        self.methods = methods;
        Ok(())
    }

    /// The operations in the order in which they are emitted: by name.
    pub fn methods(&self) -> (r: &Vec<GeneratedOperation>)
        ensures
            r.deep_view() == self@,
            strictly_ordered(self@),
    {
        proof {
            use_type_invariant(self);
        }
        &self.methods
    }
}

/// What the rank of a name says: every entry from `from` up to the rank
/// comes before the name, and the entry at the rank, if there is one, does
/// not.
pub proof fn lemma_rank_splits(entries: Seq<OperationModel>, name: Seq<char>, from: int)
    requires
        0 <= from <= entries.len(),
    ensures
        from <= rank_from(entries, name, from) <= entries.len(),
        forall|j: int|
            from <= j < rank_from(entries, name, from) ==> name_lt(
                (#[trigger] entries[j]).name,
                name,
            ),
        rank_from(entries, name, from) < entries.len() ==> !name_lt(
            entries[rank_from(entries, name, from)].name,
            name,
        ),
    decreases entries.len() - from,
{
    if from < entries.len() && name_lt(entries[from].name, name) {
        lemma_rank_splits(entries, name, from + 1);
    }
}

/// A position that splits the entries as the rank does is the rank.
pub proof fn lemma_rank_is(entries: Seq<OperationModel>, name: Seq<char>, r: int, from: int)
    requires
        0 <= from <= r <= entries.len(),
        forall|j: int| from <= j < r ==> name_lt((#[trigger] entries[j]).name, name),
        r < entries.len() ==> !name_lt(entries[r].name, name),
    ensures
        rank_from(entries, name, from) == r,
    decreases r - from,
{
    if from < r {
        lemma_rank_is(entries, name, r, from + 1);
    }
}

/// In an ordered registry a name is present exactly if it stands at its
/// rank.
pub proof fn lemma_absent_at_rank(entries: Seq<OperationModel>, name: Seq<char>)
    requires
        strictly_ordered(entries),
    ensures
        holds_name(entries, name) <==> rank(entries, name) < entries.len() && entries[rank(
            entries,
            name,
        )].name == name,
{
    lemma_rank_splits(entries, name, 0);
    let r = rank(entries, name);
    if holds_name(entries, name) {
        let k = choose|k: int| 0 <= k < entries.len() && (#[trigger] entries[k]).name == name;
        lemma_name_order(name, name);
        if k < r {
            assert(name_lt(entries[k].name, name));
        } else if k > r {
            lemma_name_order(entries[r].name, name);
            assert(name_lt(entries[r].name, entries[k].name));
        }
    }
}

/// Entering a new name at its rank keeps the registry ordered.
pub proof fn lemma_insert_keeps_order(entries: Seq<OperationModel>, operation: OperationModel)
    requires
        strictly_ordered(entries),
        !holds_name(entries, operation.name),
    ensures
        strictly_ordered(entries.insert(rank(entries, operation.name), operation)),
{
    let name = operation.name;
    let r = rank(entries, name);
    lemma_rank_splits(entries, name, 0);
    lemma_absent_at_rank(entries, name);
    let after = entries.insert(r, operation);
    assert forall|i: int, j: int| 0 <= i < j < after.len() implies name_lt(
        (#[trigger] after[i]).name,
        (#[trigger] after[j]).name,
    ) by {
        if j == r {
            assert(after[i] == entries[i]);
        } else if i == r {
            assert(after[j] == entries[j - 1]);
            lemma_name_order(entries[r].name, name);
            if j - 1 > r {
                assert(name_lt(entries[r].name, entries[j - 1].name));
                lemma_name_lt_transitive(name, entries[r].name, entries[j - 1].name, 0);
            }
        } else {
            let oi = if i < r {
                i
            } else {
                i - 1
            };
            let oj = if j < r {
                j
            } else {
                j - 1
            };
            assert(after[i] == entries[oi]);
            assert(after[j] == entries[oj]);
        }
    }
}

/// The registry holds what it held and what was entered, and nothing else.
pub proof fn lemma_insert_members(entries: Seq<OperationModel>, operation: OperationModel)
    ensures
        registry_insert(entries, operation) matches Ok(after) ==> {
            &&& after.len() == entries.len() + 1
            &&& after.contains(operation)
            &&& forall|i: int| 0 <= i < entries.len() ==> after.contains(#[trigger] entries[i])
            &&& forall|i: int|
                0 <= i < after.len() ==> #[trigger] after[i] == operation || entries.contains(
                    after[i],
                )
            &&& forall|name: Seq<char>|
                holds_name(after, name) <==> name == operation.name || holds_name(entries, name)
        },
{
    if registry_insert(entries, operation) is Ok {
        let r = rank(entries, operation.name);
        lemma_rank_splits(entries, operation.name, 0);
        entries.insert_ensures(r, operation);
        let after = entries.insert(r, operation);
        assert(after[r] == operation);
        assert forall|i: int| 0 <= i < entries.len() implies after.contains(
            #[trigger] entries[i],
        ) by {
            if i < r {
                assert(after[i] == entries[i]);
            } else {
                assert(after[i + 1] == entries[i]);
            }
        }
        assert forall|i: int| 0 <= i < after.len() implies #[trigger] after[i] == operation
            || entries.contains(after[i]) by {
            if i < r {
                assert(after[i] == entries[i]);
            } else if i > r {
                assert(after[i] == entries[i - 1]);
            }
        }
        assert forall|name: Seq<char>| holds_name(after, name) <==> name == operation.name
            || holds_name(entries, name) by {
            if holds_name(after, name) {
                let k = choose|k: int| 0 <= k < after.len() && (#[trigger] after[k]).name == name;
                if k < r {
                    assert(after[k] == entries[k]);
                } else if k > r {
                    assert(after[k] == entries[k - 1]);
                }
            }
            if name == operation.name {
                assert(after[r].name == name);
            }
            if holds_name(entries, name) {
                let k = choose|k: int|
                    0 <= k < entries.len() && (#[trigger] entries[k]).name == name;
                if k < r {
                    assert(after[k] == entries[k]);
                } else {
                    assert(after[k + 1] == entries[k]);
                }
            }
        }
    }
}

/// Entering a normalized operation keeps the registry normalized.
pub proof fn lemma_insert_normalized(entries: Seq<OperationModel>, operation: OperationModel)
    requires
        all_normalized(entries),
        operation_normalized(operation),
    ensures
        registry_insert(entries, operation) matches Ok(after) ==> all_normalized(after),
{
    lemma_insert_members(entries, operation);
    if registry_insert(entries, operation) is Ok {
        let after = registry_insert(entries, operation)->Ok_0;
        assert forall|i: int| 0 <= i < after.len() implies operation_normalized(
            #[trigger] after[i],
        ) by {
            if after[i] != operation {
                assert(entries.contains(after[i]));
            }
        }
    }
}

/// The order in which two operations of different names are entered is
/// immaterial: either way the registry ends up the same.
pub proof fn lemma_insertion_order_is_immaterial(
    entries: Seq<OperationModel>,
    first: OperationModel,
    second: OperationModel,
)
    requires
        first.name != second.name,
    ensures
        registry_insert(entries, first) is Ok && registry_insert(entries, second) is Ok ==> {
            &&& registry_insert(registry_insert(entries, first)->Ok_0, second) is Ok
            &&& registry_insert(registry_insert(entries, first)->Ok_0, second) == registry_insert(
                registry_insert(entries, second)->Ok_0,
                first,
            )
        },
{
    if registry_insert(entries, first) is Ok && registry_insert(entries, second) is Ok {
        lemma_name_order(first.name, second.name);
        lemma_name_order(second.name, first.name);
        if name_lt(first.name, second.name) {
            lemma_insertion_commutes(entries, first, second);
        } else {
            lemma_insertion_commutes(entries, second, first);
        }
    }
}

/// Entering two items at places that keep their order gives the same
/// sequence whichever goes first.
proof fn lemma_insert_twice(
    entries: Seq<OperationModel>,
    rl: int,
    low: OperationModel,
    rh: int,
    high: OperationModel,
)
    requires
        0 <= rl <= rh <= entries.len(),
    ensures
        entries.insert(rl, low).insert(rh + 1, high) == entries.insert(rh, high).insert(rl, low),
{
    assert(entries.insert(rl, low).insert(rh + 1, high) =~= entries.insert(rh, high).insert(
        rl,
        low,
    ));
}

/// The entries of a sequence after one item has joined it.
proof fn lemma_insert_index(entries: Seq<OperationModel>, r: int, operation: OperationModel)
    requires
        0 <= r <= entries.len(),
    ensures
        entries.insert(r, operation).len() == entries.len() + 1,
        entries.insert(r, operation)[r] == operation,
        forall|j: int| 0 <= j < r ==> #[trigger] entries.insert(r, operation)[j] == entries[j],
        forall|j: int|
            r < j <= entries.len() ==> #[trigger] entries.insert(r, operation)[j] == entries[j
                - 1],
{
}

/// After `low` has entered, the rank of a later name is one more than it
/// was.
proof fn lemma_rank_after_lower(
    entries: Seq<OperationModel>,
    low: OperationModel,
    high: Seq<char>,
)
    requires
        name_lt(low.name, high),
    ensures
        rank(entries, low.name) <= rank(entries, high),
        rank(entries.insert(rank(entries, low.name), low), high) == rank(entries, high) + 1,
{
    let rl = rank(entries, low.name);
    let rh = rank(entries, high);
    lemma_rank_splits(entries, low.name, 0);
    lemma_rank_splits(entries, high, 0);
    assert forall|j: int| 0 <= j < rl implies name_lt((#[trigger] entries[j]).name, high) by {
        lemma_name_lt_transitive(entries[j].name, low.name, high, 0);
    }
    if rh < rl {
        assert(name_lt(entries[rh].name, high));
    }
    let with_low = entries.insert(rl, low);
    lemma_insert_index(entries, rl, low);
    assert forall|j: int| 0 <= j < rh + 1 implies name_lt((#[trigger] with_low[j]).name, high) by {
        if j < rl {
            assert(with_low[j] == entries[j]);
        } else if j > rl {
            assert(with_low[j] == entries[j - 1]);
            assert(name_lt(entries[j - 1].name, high));
        }
    }
    if rh + 1 < with_low.len() {
        assert(with_low[rh + 1] == entries[rh]);
    }
    lemma_rank_is(with_low, high, rh + 1, 0);
}

/// After `high` has entered, the rank of an earlier name is what it was.
proof fn lemma_rank_after_higher(
    entries: Seq<OperationModel>,
    low: Seq<char>,
    high: OperationModel,
)
    requires
        name_lt(low, high.name),
        rank(entries, low) <= rank(entries, high.name),
    ensures
        rank(entries.insert(rank(entries, high.name), high), low) == rank(entries, low),
{
    let rl = rank(entries, low);
    let rh = rank(entries, high.name);
    lemma_name_order(low, high.name);
    lemma_rank_splits(entries, low, 0);
    lemma_rank_splits(entries, high.name, 0);
    let with_high = entries.insert(rh, high);
    lemma_insert_index(entries, rh, high);
    assert forall|j: int| 0 <= j < rl implies name_lt((#[trigger] with_high[j]).name, low) by {
        assert(with_high[j] == entries[j]);
    }
    if rl < rh {
        assert(with_high[rl] == entries[rl]);
    } else {
        assert(with_high[rl] == high);
    }
    lemma_rank_is(with_high, low, rl, 0);
}

/// Entering `low` and then `high`, whose name comes later, gives the same
/// registry as entering `high` and then `low`.
proof fn lemma_insertion_commutes(
    entries: Seq<OperationModel>,
    low: OperationModel,
    high: OperationModel,
)
    requires
        name_lt(low.name, high.name),
        !holds_name(entries, low.name),
        !holds_name(entries, high.name),
    ensures
        registry_insert(registry_insert(entries, low)->Ok_0, high) is Ok,
        registry_insert(registry_insert(entries, high)->Ok_0, low) is Ok,
        registry_insert(registry_insert(entries, low)->Ok_0, high) == registry_insert(
            registry_insert(entries, high)->Ok_0,
            low,
        ),
{
    lemma_name_order(low.name, high.name);
    lemma_rank_splits(entries, low.name, 0);
    lemma_rank_splits(entries, high.name, 0);
    lemma_insert_members(entries, low);
    lemma_insert_members(entries, high);
    lemma_rank_after_lower(entries, low, high.name);
    lemma_rank_after_higher(entries, low.name, high);
    lemma_insert_twice(
        entries,
        rank(entries, low.name),
        low,
        rank(entries, high.name),
        high,
    );
}

/// Two ordered registries that hold the same operations are equal: the
/// order of the names leaves no choice.
pub proof fn lemma_ordered_registries_agree(
    first: Seq<OperationModel>,
    second: Seq<OperationModel>,
)
    requires
        strictly_ordered(first),
        strictly_ordered(second),
        forall|g: OperationModel| first.contains(g) <==> second.contains(g),
    ensures
        first == second,
    decreases first.len(),
{
    if first.len() == 0 {
        if second.len() > 0 {
            assert(second.contains(second[0]));
        }
        assert(first =~= second);
    } else {
        assert(first.contains(first[0]));
        let j = choose|j: int| 0 <= j < second.len() && second[j] == first[0];
        assert(second.contains(second[0]));
        let i = choose|i: int| 0 <= i < first.len() && first[i] == second[0];
        lemma_name_order(first[0].name, second[0].name);
        lemma_name_order(second[0].name, first[0].name);
        if j > 0 {
            assert(name_lt(second[0].name, second[j].name));
            if i > 0 {
                assert(name_lt(first[0].name, first[i].name));
            }
        }
        assert(first[0] == second[0]);
        let rest_first = first.skip(1);
        let rest_second = second.skip(1);
        assert forall|a: int, b: int| 0 <= a < b < rest_first.len() implies name_lt(
            (#[trigger] rest_first[a]).name,
            (#[trigger] rest_first[b]).name,
        ) by {
            assert(rest_first[a] == first[a + 1] && rest_first[b] == first[b + 1]);
        }
        assert forall|a: int, b: int| 0 <= a < b < rest_second.len() implies name_lt(
            (#[trigger] rest_second[a]).name,
            (#[trigger] rest_second[b]).name,
        ) by {
            assert(rest_second[a] == second[a + 1] && rest_second[b] == second[b + 1]);
        }
        assert forall|g: OperationModel| rest_first.contains(g) <==> rest_second.contains(
            g,
        ) by {
            if rest_first.contains(g) {
                let a = choose|a: int| 0 <= a < rest_first.len() && rest_first[a] == g;
                assert(first[a + 1] == g);
                assert(first.contains(g));
                assert(name_lt(first[0].name, first[a + 1].name));
                lemma_name_order(first[0].name, g.name);
                let b = choose|b: int| 0 <= b < second.len() && second[b] == g;
                assert(b > 0);
                assert(rest_second[b - 1] == g);
            }
            if rest_second.contains(g) {
                let b = choose|b: int| 0 <= b < rest_second.len() && rest_second[b] == g;
                assert(second[b + 1] == g);
                assert(second.contains(g));
                assert(name_lt(second[0].name, second[b + 1].name));
                lemma_name_order(second[0].name, g.name);
                let a = choose|a: int| 0 <= a < first.len() && first[a] == g;
                assert(a > 0);
                assert(rest_first[a - 1] == g);
            }
        }
        lemma_ordered_registries_agree(rest_first, rest_second);
        assert(first =~= seq![first[0]] + rest_first);
        assert(second =~= seq![second[0]] + rest_second);
    }
}

/// In an ordered registry no two entries have the same name.
pub proof fn lemma_names_unique(entries: Seq<OperationModel>)
    requires
        strictly_ordered(entries),
    ensures
        forall|i: int, j: int|
            0 <= i < entries.len() && 0 <= j < entries.len() && i != j ==> (
            #[trigger] entries[i]).name != (#[trigger] entries[j]).name,
{
    assert forall|i: int, j: int|
        0 <= i < entries.len() && 0 <= j < entries.len() && i != j implies (
    #[trigger] entries[i]).name != (#[trigger] entries[j]).name by {
        lemma_name_order(entries[i].name, entries[j].name);
        lemma_name_order(entries[j].name, entries[i].name);
        if i < j {
            assert(name_lt(entries[i].name, entries[j].name));
        } else {
            assert(name_lt(entries[j].name, entries[i].name));
        }
    }
}

} // verus!
