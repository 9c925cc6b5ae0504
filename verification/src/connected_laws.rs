//! Laws of connected systems.
use crate::connected;
use crate::connected::{ConnectedSystemOperator, ConstraintSet};
use crate::error::ErrorModel;
use crate::initialization::RowKind;
use crate::realization::{Constraint, ConstraintDependency};
use crate::operator::TransactionalOperator;
use crate::system_model;
use crate::system_model::LeafModel;
use crate::text;
use vstd::prelude::*;

verus! {

/// The order of texts with equality.
spec fn not_after() -> spec_fn(Seq<char>, Seq<char>) -> bool {
    |left: Seq<char>, right: Seq<char>| !text::precedes(right, left)
}

proof fn lemma_not_after_through(a: Seq<char>, b: Seq<char>, c: Seq<char>)
    requires
        !text::precedes(b, a),
        !text::precedes(c, b),
    ensures
        !text::precedes(c, a),
{
    if text::precedes(c, a) {
        text::lemma_precedes_total(a, b);
        text::lemma_precedes_total(b, c);
        if a != b && b != c {
            text::lemma_precedes_transitive(a, b, c);
            text::lemma_precedes_transitive(a, c, a);
            text::lemma_precedes_irreflexive(a);
        }
    }
}

proof fn lemma_not_after_orders()
    ensures
        vstd::relations::total_ordering(not_after()),
{
    let leq = not_after();
    assert forall|a: Seq<char>| #[trigger] leq(a, a) by {
        text::lemma_precedes_irreflexive(a);
    }
    assert forall|a: Seq<char>, b: Seq<char>| #[trigger] leq(a, b) && #[trigger] leq(b, a) implies a
        == b by {
        text::lemma_precedes_total(a, b);
    }
    assert forall|a: Seq<char>, b: Seq<char>, c: Seq<char>| #[trigger]
        leq(a, b) && #[trigger] leq(b, c) implies leq(a, c) by {
        lemma_not_after_through(a, b, c);
    }
    assert forall|a: Seq<char>, b: Seq<char>| #[trigger] leq(a, b) || #[trigger] leq(b, a) by {
        if text::precedes(b, a) && text::precedes(a, b) {
            text::lemma_precedes_transitive(a, b, a);
            text::lemma_precedes_irreflexive(a);
        }
    }
}

proof fn lemma_placed_text(sorted: Seq<Seq<char>>, entry: Seq<char>)
    requires
        vstd::relations::sorted_by(sorted, not_after()),
    ensures
        vstd::relations::sorted_by(connected::place_text(sorted, entry), not_after()),
        connected::place_text(sorted, entry).to_multiset() == sorted.to_multiset().insert(entry),
        connected::place_text(sorted, entry).len() == sorted.len() + 1,
        forall|bound: Seq<char>|
            (forall|i: int| 0 <= i < sorted.len() ==> !text::precedes(bound, #[trigger] sorted[i]))
                && !text::precedes(bound, entry) ==> forall|i: int|
                0 <= i < sorted.len() + 1 ==> !#[trigger] text::precedes(
                    bound,
                    connected::place_text(sorted, entry)[i],
                ),
    decreases sorted.len(),
{
    broadcast use vstd::seq_lib::group_to_multiset_ensures;

    let leq = not_after();
    let placed = connected::place_text(sorted, entry);
    if sorted.len() == 0 || !text::precedes(entry, sorted.last()) {
        assert forall|i: int, j: int| 0 <= i < j < placed.len() implies #[trigger] leq(
            placed[i],
            placed[j],
        ) by {
            if j < sorted.len() {
                assert(leq(sorted[i], sorted[j]));
            } else if i < sorted.len() - 1 {
                assert(leq(sorted[i], sorted[sorted.len() - 1]));
                lemma_not_after_through(sorted[i], sorted.last(), entry);
            }
        }
    } else {
        let rest = sorted.drop_last();
        assert forall|i: int, j: int| 0 <= i < j < rest.len() implies #[trigger] leq(
            rest[i],
            rest[j],
        ) by {
            assert(leq(sorted[i], sorted[j]));
        }
        lemma_placed_text(rest, entry);
        let inner = connected::place_text(rest, entry);
        let last = sorted.last();
        assert(rest.push(last) =~= sorted);
        assert(placed == inner.push(last));
        assert(placed.to_multiset() =~= sorted.to_multiset().insert(entry));
        if text::precedes(last, entry) {
            text::lemma_precedes_transitive(last, entry, last);
            text::lemma_precedes_irreflexive(last);
        }
        assert forall|i: int| 0 <= i < rest.len() implies !text::precedes(
            last,
            #[trigger] rest[i],
        ) by {
            assert(leq(sorted[i], sorted[sorted.len() - 1]));
        }
        assert forall|i: int, j: int| 0 <= i < j < placed.len() implies #[trigger] leq(
            placed[i],
            placed[j],
        ) by {
            if j < inner.len() {
                assert(leq(inner[i], inner[j]));
            } else {
                assert(!text::precedes(last, inner[i]));
            }
        }
        assert forall|bound: Seq<char>|
            (forall|i: int| 0 <= i < sorted.len() ==> !text::precedes(bound, #[trigger] sorted[i]))
                && !text::precedes(bound, entry) implies forall|i: int|
            0 <= i < sorted.len() + 1 ==> !#[trigger] text::precedes(bound, placed[i]) by {
            assert forall|i: int| 0 <= i < rest.len() implies !text::precedes(
                bound,
                #[trigger] rest[i],
            ) by {
                assert(rest[i] == sorted[i]);
            }
            assert forall|i: int| 0 <= i < sorted.len() + 1 implies !#[trigger] text::precedes(
                bound,
                placed[i],
            ) by {
                if i < inner.len() {
                    assert(!text::precedes(bound, inner[i]));
                } else {
                    assert(placed[i] == sorted[sorted.len() - 1]);
                }
            }
        }
    }
}

proof fn lemma_sorted_texts(texts: Seq<Seq<char>>, count: int)
    requires
        0 <= count <= texts.len(),
    ensures
        vstd::relations::sorted_by(connected::sorted_texts(texts, count), not_after()),
        connected::sorted_texts(texts, count).to_multiset() == texts.take(count).to_multiset(),
    decreases count,
{
    broadcast use vstd::seq_lib::group_to_multiset_ensures;

    if count > 0 {
        lemma_sorted_texts(texts, count - 1);
        lemma_placed_text(connected::sorted_texts(texts, count - 1), texts[count - 1]);
        assert(texts.take(count) =~= texts.take(count - 1).push(texts[count - 1]));
    } else {
        assert(texts.take(0) =~= Seq::<Seq<char>>::empty());
    }
}

/// The identity of a connected system does not depend on the order in which its connections
/// are given.
pub proof fn law_connection_order_is_immaterial(first: Seq<Seq<char>>, second: Seq<Seq<char>>)
    requires
        first.to_multiset() == second.to_multiset(),
    ensures
        connected::sorted_texts(first, first.len() as int) == connected::sorted_texts(
            second,
            second.len() as int,
        ),
{
    lemma_sorted_texts(first, first.len() as int);
    lemma_sorted_texts(second, second.len() as int);
    assert(first.take(first.len() as int) =~= first);
    assert(second.take(second.len() as int) =~= second);
    lemma_not_after_orders();
    vstd::seq_lib::lemma_sorted_unique(
        connected::sorted_texts(first, first.len() as int),
        connected::sorted_texts(second, second.len() as int),
        not_after(),
    );
}

/// Whether a constraint depends on an unknown.
pub open spec fn depends_on(constraint: Constraint, row: int) -> bool {
    exists|k: int|
        0 <= k < constraint.dependencies@.len() && (#[trigger] constraint.dependencies@[k]).dof
            == row
}

/// Whether eliminating constraint `c` makes a row differential: it depends on the row and
/// its own target is differential by then.
pub open spec fn carries(
    mask: Seq<RowKind>,
    constraints: Seq<Constraint>,
    c: int,
    row: int,
) -> bool {
    &&& depends_on(constraints[c], row)
    &&& connected::merged_mask(mask, constraints, c)[constraints[c].target as int]
        == RowKind::Differential
}

proof fn lemma_spread(
    mask: Seq<RowKind>,
    dependencies: Seq<ConstraintDependency>,
    count: int,
    row: int,
)
    requires
        0 <= count <= dependencies.len(),
        0 <= row < mask.len(),
        forall|k: int| 0 <= k < dependencies.len() ==> (#[trigger] dependencies[k]).dof < mask.len(),
    ensures
        connected::spread(mask, dependencies, count).len() == mask.len(),
        connected::spread(mask, dependencies, count)[row] == if exists|k: int|
            0 <= k < count && (#[trigger] dependencies[k]).dof == row {
            RowKind::Differential
        } else {
            mask[row]
        },
    decreases count,
{
    if count > 0 {
        lemma_spread(mask, dependencies, count - 1, row);
        if dependencies[count - 1].dof != row {
            if exists|k: int| 0 <= k < count && (#[trigger] dependencies[k]).dof == row {
                let k = choose|k: int| 0 <= k < count && (#[trigger] dependencies[k]).dof == row;
                assert(k < count - 1);
            }
        }
    }
}

proof fn lemma_merged_length(mask: Seq<RowKind>, set: ConstraintSet, count: int)
    requires
        set.valid(),
        mask.len() == set.dof_count,
        0 <= count <= set.constraints@.len(),
    ensures
        connected::merged_mask(mask, set.constraints@, count).len() == mask.len(),
    decreases count,
{
    if count > 0 {
        lemma_merged_length(mask, set, count - 1);
        let constraint = set.constraints@[count - 1];
        assert(connected::constraint_valid(constraint, set.dof_count as int));
        lemma_spread(
            connected::merged_mask(mask, set.constraints@, count - 1),
            constraint.dependencies@,
            constraint.dependencies@.len() as int,
            constraint.target as int,
        );
    }
}

proof fn lemma_eliminated(mask: Seq<RowKind>, set: ConstraintSet, count: int, row: int)
    requires
        set.valid(),
        mask.len() == set.dof_count,
        0 <= count < set.constraints@.len(),
        0 <= row < mask.len(),
    ensures
        connected::merged_mask(mask, set.constraints@, count + 1)[row]
            == if set.constraints@[count].target == row {
            RowKind::Algebraic
        } else if carries(mask, set.constraints@, count, row) {
            RowKind::Differential
        } else {
            connected::merged_mask(mask, set.constraints@, count)[row]
        },
{
    lemma_merged_length(mask, set, count);
    let constraint = set.constraints@[count];
    let before = connected::merged_mask(mask, set.constraints@, count);
    assert(connected::constraint_valid(constraint, set.dof_count as int));
    lemma_spread(
        before,
        constraint.dependencies@,
        constraint.dependencies@.len() as int,
        row,
    );
    lemma_spread(
        before,
        constraint.dependencies@,
        constraint.dependencies@.len() as int,
        constraint.target as int,
    );
    assert(connected::merged_mask(mask, set.constraints@, count + 1) == connected::eliminated(
        before,
        constraint,
    ));
}

/// A row that no constraint eliminates is differential exactly when it was, or when a
/// differential row was merged into it.
pub proof fn law_merged_row_stores_state(
    mask: Seq<RowKind>,
    set: ConstraintSet,
    count: int,
    row: int,
)
    requires
        set.valid(),
        mask.len() == set.dof_count,
        0 <= count <= set.constraints@.len(),
        0 <= row < mask.len(),
        forall|c: int| 0 <= c < count ==> (#[trigger] set.constraints@[c]).target != row,
    ensures
        connected::merged_mask(mask, set.constraints@, count)[row] == RowKind::Differential <==> (
        mask[row] == RowKind::Differential || exists|c: int|
            0 <= c < count && #[trigger] carries(mask, set.constraints@, c, row)),
    decreases count,
{
    if count > 0 {
        law_merged_row_stores_state(mask, set, count - 1, row);
        lemma_eliminated(mask, set, count - 1, row);
        assert(set.constraints@[count - 1].target != row);
        if carries(mask, set.constraints@, count - 1, row) {
        } else if exists|c: int| 0 <= c < count && #[trigger] carries(
            mask,
            set.constraints@,
            c,
            row,
        ) {
            let c = choose|c: int|
                0 <= c < count && #[trigger] carries(mask, set.constraints@, c, row);
            assert(c < count - 1);
        }
    }
}

/// An eliminated row carries an algebraic equation, as long as no later elimination merges a
/// differential row into it.
pub proof fn law_eliminated_row_is_algebraic(
    mask: Seq<RowKind>,
    set: ConstraintSet,
    c: int,
    count: int,
)
    requires
        set.valid(),
        mask.len() == set.dof_count,
        0 <= c < count <= set.constraints@.len(),
        forall|d: int|
            c < d < count ==> !#[trigger] carries(
                mask,
                set.constraints@,
                d,
                set.constraints@[c].target as int,
            ),
    ensures
        connected::merged_mask(mask, set.constraints@, count)[set.constraints@[c].target as int]
            == RowKind::Algebraic,
    decreases count,
{
    let row = set.constraints@[c].target as int;
    assert(connected::constraint_valid(set.constraints@[c], set.dof_count as int));
    lemma_eliminated(mask, set, count - 1, row);
    if c < count - 1 {
        law_eliminated_row_is_algebraic(mask, set, c, count - 1);
        assert(!carries(mask, set.constraints@, count - 1, row));
    }
}

/// The row kinds of a connected system, over the composed kinds of its leaves: a row that no
/// constraint eliminates stores state exactly where its own kind does or where an
/// elimination merges a row that does into it; a row that is eliminated last by some
/// constraint, with nothing merged into it after that, is algebraic.
pub proof fn law_connected_row_kinds(
    operator: ConnectedSystemOperator,
    kinds: Seq<RowKind>,
    row: int,
)
    requires
        operator.wf(),
        connected::connected_kinds(operator) == Ok::<Seq<RowKind>, ErrorModel>(kinds),
        0 <= row < operator.system().size(),
    ensures
        ({
            let leaves = operator.system()@.leaves;
            let composed = system_model::composed_kinds(leaves, leaves.len() as int);
            let constraints = operator.traces().constraints@;
            let count = constraints.len() as int;
            &&& forall|k: int| 0 <= k < leaves.len() ==> (#[trigger] leaves[k]).kinds is Some
            &&& kinds.len() == operator.system().size()
            &&& (forall|c: int| 0 <= c < count ==> (#[trigger] constraints[c]).target != row) ==> (
            kinds[row] == RowKind::Differential <==> (composed[row] == RowKind::Differential
                || exists|c: int| 0 <= c < count && #[trigger] carries(composed, constraints, c, row)))
            &&& forall|c: int|
                0 <= c < count && (#[trigger] constraints[c]).target == row && (forall|d: int|
                    c < d < count ==> !#[trigger] carries(composed, constraints, d, row))
                    ==> kinds[row] == RowKind::Algebraic
        }),
{
    let leaves = operator.system()@.leaves;
    let composed = system_model::composed_kinds(leaves, leaves.len() as int);
    let set = operator.traces();
    let count = set.constraints@.len() as int;
    operator.lemma_wf();
    operator.system().lemma_wf();
    lemma_composed_length(leaves, leaves.len() as int);
    lemma_merged_length(composed, set, count);
    if forall|c: int| 0 <= c < count ==> (#[trigger] set.constraints@[c]).target != row {
        law_merged_row_stores_state(composed, set, count, row);
    }
    assert forall|c: int|
        0 <= c < count && (#[trigger] set.constraints@[c]).target == row && (forall|d: int|
            c < d < count ==> !#[trigger] carries(
                composed,
                set.constraints@,
                d,
                row,
            )) implies kinds[row] == RowKind::Algebraic by {
        law_eliminated_row_is_algebraic(composed, set, c, count);
    }
}

proof fn lemma_composed_length(leaves: Seq<LeafModel>, count: int)
    requires
        0 <= count <= leaves.len(),
        system_model::leaves_valid(leaves),
        system_model::classified(leaves),
    ensures
        system_model::composed_kinds(leaves, count).len() == system_model::offset_of(
            leaves,
            count,
        ),
    decreases count,
{
    if count > 0 {
        lemma_composed_length(leaves, count - 1);
        assert(system_model::leaf_valid(leaves[count - 1]));
        assert(leaves[count - 1].kinds is Some);
    }
}

} // verus!
