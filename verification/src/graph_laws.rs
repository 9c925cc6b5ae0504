//! What the stages of a coupling graph do not depend on.
use crate::graph;
use crate::graph::{CouplingDependency, Walk};
use vstd::prelude::*;

verus! {

/// Whether some dependency joins the same nodes as the given one, whatever its argument.
pub open spec fn joined_already(
    dependencies: Seq<CouplingDependency>,
    extra: CouplingDependency,
) -> bool {
    exists|j: int|
        {
            &&& 0 <= j < dependencies.len()
            &&& (#[trigger] dependencies[j]).row == extra.row
            &&& dependencies[j].column == extra.column
        }
}

/// Whether a dependency adds nothing: it is of a node on itself, or its nodes are joined
/// already.
pub open spec fn adds_nothing(
    dependencies: Seq<CouplingDependency>,
    extra: CouplingDependency,
) -> bool {
    extra.row == extra.column || joined_already(dependencies, extra)
}

proof fn lemma_reaches_more(
    dependencies: Seq<CouplingDependency>,
    extra: CouplingDependency,
    from: int,
    to: int,
)
    requires
        adds_nothing(dependencies, extra),
    ensures
        graph::reaches(dependencies.push(extra), from, to) == graph::reaches(
            dependencies,
            from,
            to,
        ),
{
    let more = dependencies.push(extra);
    if graph::reaches(more, from, to) {
        let near = Set::new(|x: int| graph::reaches(dependencies, from, x));
        graph::lemma_reaches_self(dependencies, from);
        assert forall|k: int| 0 <= k < more.len() && near.contains(
            (#[trigger] more[k]).row as int,
        ) implies near.contains(more[k].column as int) by {
            let row = more[k].row as int;
            let column = more[k].column as int;
            if row != column {
                if k < dependencies.len() {
                    assert(dependencies[k] == more[k]);
                }
                assert(graph::arc(dependencies, row, column));
                graph::lemma_reaches_arc(dependencies, row, column);
                graph::lemma_reaches_through(dependencies, from, row, column);
            }
        }
        graph::lemma_closed_contains(more, near, from, to);
    }
    if graph::reaches(dependencies, from, to) {
        let near = Set::new(|x: int| graph::reaches(more, from, x));
        graph::lemma_reaches_self(more, from);
        assert forall|k: int| 0 <= k < dependencies.len() && near.contains(
            (#[trigger] dependencies[k]).row as int,
        ) implies near.contains(dependencies[k].column as int) by {
            let row = dependencies[k].row as int;
            let column = dependencies[k].column as int;
            assert(more[k] == dependencies[k]);
            assert(graph::arc(more, row, column));
            graph::lemma_reaches_arc(more, row, column);
            graph::lemma_reaches_through(more, from, row, column);
        }
        graph::lemma_closed_contains(dependencies, near, from, to);
    }
}

proof fn lemma_same_component(
    count: nat,
    dependencies: Seq<CouplingDependency>,
    extra: CouplingDependency,
    trail: Seq<int>,
    node: int,
)
    requires
        adds_nothing(dependencies, extra),
    ensures
        graph::component(count, dependencies.push(extra), node) == graph::component(
            count,
            dependencies,
            node,
        ),
        graph::leads(dependencies.push(extra), trail, node) == graph::leads(
            dependencies,
            trail,
            node,
        ),
{
    let more = dependencies.push(extra);
    assert forall|a: int, b: int| #[trigger] graph::mutual(more, a, b) == graph::mutual(
        dependencies,
        a,
        b,
    ) by {
        lemma_reaches_more(dependencies, extra, a, b);
        lemma_reaches_more(dependencies, extra, b, a);
    }
    let of_more = |i: int| graph::mutual(more, i, node);
    let of_fewer = |i: int| graph::mutual(dependencies, i, node);
    assert(of_more =~= of_fewer);
    if graph::leads(dependencies, trail, node) {
        assert forall|i: int| 0 <= i < trail.len() implies !graph::mutual(
            more,
            #[trigger] trail[i],
            node,
        ) by {
            assert(graph::mutual(more, trail[i], node) == graph::mutual(
                dependencies,
                trail[i],
                node,
            ));
        }
    }
    if graph::leads(more, trail, node) {
        assert forall|i: int| 0 <= i < trail.len() implies !graph::mutual(
            dependencies,
            #[trigger] trail[i],
            node,
        ) by {
            assert(graph::mutual(more, trail[i], node) == graph::mutual(
                dependencies,
                trail[i],
                node,
            ));
        }
    }
}

proof fn lemma_seen_after(
    count: nat,
    dependencies: Seq<CouplingDependency>,
    node: int,
    trail: Seq<int>,
    walk: Walk,
)
    ensures
        walk.seen.subset_of(graph::visited(count, dependencies, node, trail, walk).seen),
        trail.len() < count ==> graph::visited(
            count,
            dependencies,
            node,
            trail,
            walk,
        ).seen.contains(node),
    decreases count - trail.len(), 0int,
{
    if !walk.seen.contains(node) && trail.len() < count {
        let entered = Walk { seen: walk.seen.insert(node), out: walk.out };
        lemma_seen_from(count, dependencies, node, 0, trail.push(node), entered);
        assert(entered.seen.contains(node));
    }
}

proof fn lemma_seen_from(
    count: nat,
    dependencies: Seq<CouplingDependency>,
    node: int,
    k: int,
    trail: Seq<int>,
    walk: Walk,
)
    ensures
        walk.seen.subset_of(graph::visited_from(count, dependencies, node, k, trail, walk).seen),
    decreases count - trail.len(), dependencies.len() - k + 1,
{
    if 0 <= k < dependencies.len() {
        if dependencies[k].row == node {
            let column = dependencies[k].column as int;
            lemma_seen_after(count, dependencies, column, trail, walk);
            let after = graph::visited(count, dependencies, column, trail, walk);
            lemma_seen_from(count, dependencies, node, k + 1, trail, after);
        } else {
            lemma_seen_from(count, dependencies, node, k + 1, trail, walk);
        }
    }
}

proof fn lemma_same_visit(
    count: nat,
    dependencies: Seq<CouplingDependency>,
    extra: CouplingDependency,
    node: int,
    trail: Seq<int>,
    walk: Walk,
)
    requires
        adds_nothing(dependencies, extra),
    ensures
        graph::visited(count, dependencies.push(extra), node, trail, walk) == graph::visited(
            count,
            dependencies,
            node,
            trail,
            walk,
        ),
    decreases count - trail.len(), 0int,
{
    if !walk.seen.contains(node) && trail.len() < count {
        let entered = Walk { seen: walk.seen.insert(node), out: walk.out };
        if extra.row == node && extra.row != extra.column {
            let j = choose|j: int|
                {
                    &&& 0 <= j < dependencies.len()
                    &&& (#[trigger] dependencies[j]).row == extra.row
                    &&& dependencies[j].column == extra.column
                };
            assert(due(dependencies, extra, 0));
        }
        lemma_same_visits(count, dependencies, extra, node, 0, trail.push(node), entered);
        lemma_same_component(count, dependencies, extra, trail, node);
    }
}

/// Whether a dependency at or behind position `k` joins the nodes of the given one.
spec fn due(dependencies: Seq<CouplingDependency>, extra: CouplingDependency, k: int) -> bool {
    exists|j: int|
        {
            &&& k <= j < dependencies.len()
            &&& (#[trigger] dependencies[j]).row == extra.row
            &&& dependencies[j].column == extra.column
        }
}

proof fn lemma_same_visits(
    count: nat,
    dependencies: Seq<CouplingDependency>,
    extra: CouplingDependency,
    node: int,
    k: int,
    trail: Seq<int>,
    walk: Walk,
)
    requires
        adds_nothing(dependencies, extra),
        0 <= k <= dependencies.len(),
        extra.row == node ==> trail.len() >= count || walk.seen.contains(extra.column as int)
            || due(dependencies, extra, k),
    ensures
        graph::visited_from(count, dependencies.push(extra), node, k, trail, walk)
            == graph::visited_from(count, dependencies, node, k, trail, walk),
    decreases count - trail.len(), dependencies.len() - k + 1,
{
    let more = dependencies.push(extra);
    if k == dependencies.len() {
        assert(more[k] == extra);
        let seen = graph::visited(count, more, extra.column as int, trail, walk);
        if extra.row == node {
            assert(seen == walk);
        }
        assert(graph::visited_from(count, more, node, k + 1, trail, walk) == walk);
    } else {
        assert(more[k] == dependencies[k]);
        if dependencies[k].row == node {
            let column = dependencies[k].column as int;
            lemma_same_visit(count, dependencies, extra, column, trail, walk);
            lemma_seen_after(count, dependencies, column, trail, walk);
            let after = graph::visited(count, dependencies, column, trail, walk);
            if extra.row == node && trail.len() < count && !after.seen.contains(
                extra.column as int,
            ) {
                let j = choose|j: int|
                    {
                        &&& k <= j < dependencies.len()
                        &&& (#[trigger] dependencies[j]).row == extra.row
                        &&& dependencies[j].column == extra.column
                    };
                assert(j != k);
                assert(dependencies[j].row == extra.row);
            }
            lemma_same_visits(count, dependencies, extra, node, k + 1, trail, after);
        } else {
            if extra.row == node && trail.len() < count && !walk.seen.contains(
                extra.column as int,
            ) {
                let j = choose|j: int|
                    {
                        &&& k <= j < dependencies.len()
                        &&& (#[trigger] dependencies[j]).row == extra.row
                        &&& dependencies[j].column == extra.column
                    };
                assert(j != k);
                assert(dependencies[j].row == extra.row);
            }
            lemma_same_visits(count, dependencies, extra, node, k + 1, trail, walk);
        }
    }
}

proof fn lemma_same_walk(
    count: nat,
    dependencies: Seq<CouplingDependency>,
    extra: CouplingDependency,
    node: int,
    walk: Walk,
)
    requires
        adds_nothing(dependencies, extra),
    ensures
        graph::walked(count, dependencies.push(extra), node, walk) == graph::walked(
            count,
            dependencies,
            node,
            walk,
        ),
    decreases count - node,
{
    if node < count {
        lemma_same_visit(count, dependencies, extra, node, Seq::empty(), walk);
        lemma_same_walk(
            count,
            dependencies,
            extra,
            node + 1,
            graph::visited(count, dependencies, node, Seq::empty(), walk),
        );
    }
}

/// A dependency of a node on itself, a repeated dependency, and one that differs from
/// another in its argument alone leave the listed components and their order as they are.
pub proof fn law_redundant_dependency_changes_no_stage(
    count: nat,
    dependencies: Seq<CouplingDependency>,
    extra: CouplingDependency,
)
    requires
        adds_nothing(dependencies, extra),
    ensures
        graph::listed(count, dependencies.push(extra)) == graph::listed(count, dependencies),
{
    lemma_same_walk(
        count,
        dependencies,
        extra,
        0,
        Walk { seen: Set::empty(), out: Seq::empty() },
    );
}

/// Dependencies in strictly increasing order are determined by which they are.
pub proof fn lemma_canonical_unique(
    left: Seq<CouplingDependency>,
    right: Seq<CouplingDependency>,
)
    requires
        graph::canonical(left),
        graph::canonical(right),
        forall|x: CouplingDependency| #[trigger] left.contains(x) <==> right.contains(x),
    ensures
        left == right,
    decreases left.len(),
{
    if left.len() == 0 {
        if right.len() > 0 {
            assert(right.contains(right[0]));
            assert(left.contains(right[0]));
        }
        assert(left =~= right);
    } else {
        assert(left.contains(left.last()));
        assert(right.contains(left.last()));
        assert(right.contains(right.last()));
        assert(left.contains(right.last()));
        let i = choose|i: int| 0 <= i < right.len() && right[i] == left.last();
        let j = choose|j: int| 0 <= j < left.len() && left[j] == right.last();
        assert(left.last() == right.last()) by {
            if i < right.len() - 1 && j < left.len() - 1 {
                assert(graph::dependency_before(right[i], right[right.len() - 1]));
                assert(graph::dependency_before(left[j], left[left.len() - 1]));
            }
        }
        let shorter = left.drop_last();
        let other = right.drop_last();
        assert forall|x: CouplingDependency| #[trigger] shorter.contains(x)
            <==> other.contains(x) by {
            if shorter.contains(x) {
                let a = choose|a: int| 0 <= a < shorter.len() && shorter[a] == x;
                assert(graph::dependency_before(left[a], left[left.len() - 1]));
                assert(left.contains(left[a]));
                let b = choose|b: int| 0 <= b < right.len() && right[b] == x;
                assert(other[b] == x);
            }
            if other.contains(x) {
                let b = choose|b: int| 0 <= b < other.len() && other[b] == x;
                assert(graph::dependency_before(right[b], right[right.len() - 1]));
                assert(right.contains(right[b]));
                assert(left.contains(right[b]));
                let a = choose|a: int| 0 <= a < left.len() && left[a] == x;
                assert(shorter[a] == x);
            }
        }
        lemma_canonical_unique(shorter, other);
        assert(left =~= shorter.push(left.last()));
        assert(right =~= other.push(right.last()));
    }
}

} // verus!
