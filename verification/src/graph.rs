//! The coupling graph: typed dependencies between leaves and the stages in which
//! they can be scheduled.
use vstd::prelude::*;

verus! {

/// Which argument of the source leaf a dependency reads.
#[derive(Clone, Copy, Debug, PartialEq, Eq, PartialOrd, Ord, Hash, Structural)]
pub enum CouplingArgument {
    State,
    Rate,
}

/// The residual of leaf `row` depends on the `argument` of leaf `column`.
#[derive(Clone, Copy, Debug, PartialEq, Eq, Structural)]
pub struct CouplingDependency {
    pub row: usize,
    pub column: usize,
    pub argument: CouplingArgument,
}

impl CouplingArgument {
    /// State dependencies sort before rate dependencies.
    pub open spec fn rank(self) -> int {
        match self {
            CouplingArgument::State => 0,
            CouplingArgument::Rate => 1,
        }
    }

    pub(crate) fn sort_key(&self) -> (result: u8)
        ensures
            result == self.rank(),
    {
        match self {
            CouplingArgument::State => 0,
            CouplingArgument::Rate => 1,
        }
    }
}

/// The order of dependencies: by row, then column, then argument.
pub open spec fn dependency_before(left: CouplingDependency, right: CouplingDependency) -> bool {
    ||| left.row < right.row
    ||| left.row == right.row && left.column < right.column
    ||| left.row == right.row && left.column == right.column && left.argument.rank()
        < right.argument.rank()
}

/// Dependencies in strictly increasing order.
pub open spec fn canonical(dependencies: Seq<CouplingDependency>) -> bool {
    forall|i: int, j: int|
        0 <= i < j < dependencies.len() ==> dependency_before(
            #[trigger] dependencies[i],
            #[trigger] dependencies[j],
        )
}

/// Dependencies between the first `count` nodes.
pub open spec fn within(dependencies: Seq<CouplingDependency>, count: nat) -> bool {
    forall|k: int|
        0 <= k < dependencies.len() ==> (#[trigger] dependencies[k]).row < count
            && dependencies[k].column < count
}

/// Whether `from` depends directly on `to`.
pub open spec fn arc(dependencies: Seq<CouplingDependency>, from: int, to: int) -> bool {
    exists|k: int|
        0 <= k < dependencies.len() && (#[trigger] dependencies[k]).row == from
            && dependencies[k].column == to
}

pub open spec fn path(dependencies: Seq<CouplingDependency>, nodes: Seq<int>) -> bool {
    &&& nodes.len() > 0
    &&& forall|i: int|
        0 <= i < nodes.len() - 1 ==> #[trigger] arc(dependencies, nodes[i], nodes[i + 1])
}

/// Whether `from` is `to` or depends on it, directly or through others.
#[verifier::opaque]
pub open spec fn reaches(dependencies: Seq<CouplingDependency>, from: int, to: int) -> bool {
    exists|nodes: Seq<int>|
        #[trigger] path(dependencies, nodes) && nodes[0] == from && nodes.last() == to
}

/// Whether two nodes depend on each other.
pub open spec fn mutual(dependencies: Seq<CouplingDependency>, left: int, right: int) -> bool {
    reaches(dependencies, left, right) && reaches(dependencies, right, left)
}

/// The nodes that depend on `node` and on which it depends, in increasing order.
pub open spec fn component(
    count: nat,
    dependencies: Seq<CouplingDependency>,
    node: int,
) -> Seq<int> {
    Seq::new(count, |i: int| i).filter(|i: int| mutual(dependencies, i, node))
}

/// The progress of a depth-first walk: the nodes met and the components listed so far.
#[verifier::ext_equal]
pub struct Walk {
    pub seen: Set<int>,
    pub out: Seq<Seq<int>>,
}

/// Whether no node on the trail is in one component with `node`.
pub open spec fn leads(
    dependencies: Seq<CouplingDependency>,
    trail: Seq<int>,
    node: int,
) -> bool {
    forall|i: int| 0 <= i < trail.len() ==> !mutual(dependencies, #[trigger] trail[i], node)
}

/// The walk after a visit of `node` from the end of `trail`: its dependencies are
/// visited first, in their order; then its component is listed, unless the walk
/// is still inside that component.
pub open spec fn visited(
    count: nat,
    dependencies: Seq<CouplingDependency>,
    node: int,
    trail: Seq<int>,
    walk: Walk,
) -> Walk
    decreases count - trail.len(), 0int,
{
    if walk.seen.contains(node) || trail.len() >= count {
        walk
    } else {
        let inner = visited_from(
            count,
            dependencies,
            node,
            0,
            trail.push(node),
            Walk { seen: walk.seen.insert(node), out: walk.out },
        );
        if leads(dependencies, trail, node) {
            Walk { out: inner.out.push(component(count, dependencies, node)), ..inner }
        } else {
            inner
        }
    }
}

/// The walk after visits of the dependencies of `node` from position `k` on.
pub open spec fn visited_from(
    count: nat,
    dependencies: Seq<CouplingDependency>,
    node: int,
    k: int,
    trail: Seq<int>,
    walk: Walk,
) -> Walk
    decreases count - trail.len(), dependencies.len() - k + 1,
{
    if k < 0 || k >= dependencies.len() {
        walk
    } else if dependencies[k].row == node {
        visited_from(
            count,
            dependencies,
            node,
            k + 1,
            trail,
            visited(count, dependencies, dependencies[k].column as int, trail, walk),
        )
    } else {
        visited_from(count, dependencies, node, k + 1, trail, walk)
    }
}

/// The walk after visits of the nodes from `node` on.
pub open spec fn walked(
    count: nat,
    dependencies: Seq<CouplingDependency>,
    node: int,
    walk: Walk,
) -> Walk
    decreases count - node,
{
    if node >= count {
        walk
    } else {
        walked(
            count,
            dependencies,
            node + 1,
            visited(count, dependencies, node, Seq::empty(), walk),
        )
    }
}

/// The components in the order in which a depth-first walk over all nodes lists them.
pub open spec fn listed(count: nat, dependencies: Seq<CouplingDependency>) -> Seq<Seq<int>> {
    walked(count, dependencies, 0, Walk { seen: Set::empty(), out: Seq::empty() }).out
}

pub open spec fn holds(stages: Seq<Seq<int>>, stage: int, node: int) -> bool {
    0 <= stage < stages.len() && stages[stage].contains(node)
}

/// Whether some stage holds the node.
pub open spec fn placed(stages: Seq<Seq<int>>, node: int) -> bool {
    exists|i: int| #[trigger] holds(stages, i, node)
}

/// Stages that hold every node once, group nodes exactly when they depend on each
/// other, and place what a node depends on in the same or an earlier stage.
pub open spec fn schedules(
    stages: Seq<Seq<int>>,
    count: nat,
    dependencies: Seq<CouplingDependency>,
) -> bool {
    &&& forall|node: int| 0 <= node < count ==> #[trigger] placed(stages, node)
    &&& forall|i: int, j: int, node: int|
        #[trigger] holds(stages, i, node) && #[trigger] holds(stages, j, node) ==> i == j
    &&& forall|i: int, left: int, right: int|
        #[trigger] holds(stages, i, left) ==> (#[trigger] holds(stages, i, right) <==> 0 <= right
            < count && mutual(dependencies, left, right))
    &&& forall|i: int, j: int, from: int, to: int|
        #[trigger] holds(stages, i, from) && #[trigger] holds(stages, j, to) && reaches(
            dependencies,
            from,
            to,
        ) ==> j <= i
    &&& forall|i: int|
        0 <= i < stages.len() ==> (#[trigger] stages[i]).len() > 0 && increasing(stages[i])
}

pub open spec fn increasing(nodes: Seq<int>) -> bool {
    forall|i: int, j: int| 0 <= i < j < nodes.len() ==> #[trigger] nodes[i] < #[trigger] nodes[j]
}

pub proof fn lemma_reaches_self(dependencies: Seq<CouplingDependency>, node: int)
    ensures
        reaches(dependencies, node, node),
{
    reveal(reaches);
    assert(path(dependencies, seq![node]));
}

pub proof fn lemma_reaches_arc(dependencies: Seq<CouplingDependency>, from: int, to: int)
    requires
        arc(dependencies, from, to),
    ensures
        reaches(dependencies, from, to),
{
    reveal(reaches);
    let nodes = seq![from, to];
    assert(path(dependencies, nodes));
}

pub proof fn lemma_reaches_through(
    dependencies: Seq<CouplingDependency>,
    from: int,
    through: int,
    to: int,
)
    requires
        reaches(dependencies, from, through),
        reaches(dependencies, through, to),
    ensures
        reaches(dependencies, from, to),
{
    reveal(reaches);
    let first = choose|nodes: Seq<int>|
        #[trigger] path(dependencies, nodes) && nodes[0] == from && nodes.last() == through;
    let second = choose|nodes: Seq<int>|
        #[trigger] path(dependencies, nodes) && nodes[0] == through && nodes.last() == to;
    let nodes = first + second.drop_first();
    assert forall|i: int| 0 <= i < nodes.len() - 1 implies #[trigger] arc(
        dependencies,
        nodes[i],
        nodes[i + 1],
    ) by {
        if i < first.len() - 1 {
            assert(arc(dependencies, first[i], first[i + 1]));
        } else {
            let j = i - first.len() + 1;
            assert(nodes[i] == second[j]);
            assert(nodes[i + 1] == second[j + 1]);
            assert(arc(dependencies, second[j], second[j + 1]));
        }
    }
    assert(path(dependencies, nodes));
}

/// A set that contains `from` and is closed under dependencies contains all that
/// `from` reaches.
pub proof fn lemma_closed_contains(
    dependencies: Seq<CouplingDependency>,
    set: Set<int>,
    from: int,
    to: int,
)
    requires
        set.contains(from),
        forall|k: int|
            0 <= k < dependencies.len() && set.contains(
                (#[trigger] dependencies[k]).row as int,
            ) ==> set.contains(dependencies[k].column as int),
        reaches(dependencies, from, to),
    ensures
        set.contains(to),
{
    reveal(reaches);
    let nodes = choose|nodes: Seq<int>|
        #[trigger] path(dependencies, nodes) && nodes[0] == from && nodes.last() == to;
    lemma_closed_prefix(dependencies, set, nodes, nodes.len() - 1);
}

proof fn lemma_closed_prefix(
    dependencies: Seq<CouplingDependency>,
    set: Set<int>,
    nodes: Seq<int>,
    i: int,
)
    requires
        path(dependencies, nodes),
        set.contains(nodes[0]),
        forall|k: int|
            0 <= k < dependencies.len() && set.contains(
                (#[trigger] dependencies[k]).row as int,
            ) ==> set.contains(dependencies[k].column as int),
        0 <= i < nodes.len(),
    ensures
        set.contains(nodes[i]),
    decreases i,
{
    if i > 0 {
        lemma_closed_prefix(dependencies, set, nodes, i - 1);
        assert(arc(dependencies, nodes[i - 1], nodes[i - 1 + 1]));
    }
}

pub proof fn lemma_mutual_through(
    dependencies: Seq<CouplingDependency>,
    left: int,
    middle: int,
    right: int,
)
    requires
        mutual(dependencies, left, middle),
        mutual(dependencies, middle, right),
    ensures
        mutual(dependencies, left, right),
{
    lemma_reaches_through(dependencies, left, middle, right);
    lemma_reaches_through(dependencies, right, middle, left);
}

pub proof fn lemma_component(count: nat, dependencies: Seq<CouplingDependency>, node: int)
    ensures
        forall|i: int| #[trigger]
            component(count, dependencies, node).contains(i) <==> 0 <= i < count && mutual(
                dependencies,
                i,
                node,
            ),
        increasing(component(count, dependencies, node)),
{
    let all = Seq::new(count, |i: int| i);
    let keep = |i: int| mutual(dependencies, i, node);
    lemma_filter_increasing(all, keep);
    assert forall|i: int| #[trigger] all.filter(keep).contains(i) <==> 0 <= i < count && keep(
        i,
    ) by {
        broadcast use vstd::seq_lib::group_filter_ensures;

        if all.filter(keep).contains(i) {
            let j = choose|j: int| 0 <= j < all.filter(keep).len() && all.filter(keep)[j] == i;
            all.lemma_filter_contains_rev(keep, i);
            assert(all.contains(i));
            let k = choose|k: int| 0 <= k < all.len() && all[k] == i;
            assert(all[k] == k);
        }
        if 0 <= i < count && keep(i) {
            assert(all[i] == i);
            assert(all.contains(i));
        }
    }
}

proof fn lemma_filter_increasing(nodes: Seq<int>, keep: spec_fn(int) -> bool)
    requires
        increasing(nodes),
    ensures
        increasing(nodes.filter(keep)),
    decreases nodes.len(),
{
    reveal(Seq::filter);
    if nodes.len() > 0 {
        let rest = nodes.drop_last();
        lemma_filter_increasing(rest, keep);
        broadcast use vstd::seq_lib::group_filter_ensures;

        assert forall|i: int, j: int| 0 <= i < j < nodes.filter(keep).len() implies (
        #[trigger] nodes.filter(keep)[i]) < (#[trigger] nodes.filter(keep)[j]) by {
            let kept = rest.filter(keep);
            if j == kept.len() {
                assert(kept.contains(kept[i]));
                rest.lemma_filter_contains_rev(keep, kept[i]);
                let k = choose|k: int| 0 <= k < rest.len() && rest[k] == kept[i];
                assert(nodes[k] < nodes[nodes.len() - 1]);
            }
        }
    }
}

/// The nodes on a trail.
pub open spec fn on_trail(trail: Seq<int>, node: int) -> bool {
    exists|i: int| 0 <= i < trail.len() && #[trigger] trail[i] == node
}

/// Whether a node was met and left again.
pub open spec fn left_behind(trail: Seq<int>, walk: Walk, node: int) -> bool {
    walk.seen.contains(node) && !on_trail(trail, node)
}

/// Whether one trail node is in one component with `node`.
pub open spec fn held_open(
    dependencies: Seq<CouplingDependency>,
    trail: Seq<int>,
    node: int,
) -> bool {
    exists|i: int| 0 <= i < trail.len() && mutual(dependencies, #[trigger] trail[i], node)
}

/// What every point of a walk keeps.
pub open spec fn sound(
    count: nat,
    dependencies: Seq<CouplingDependency>,
    trail: Seq<int>,
    walk: Walk,
) -> bool {
    &&& trail.no_duplicates()
    &&& forall|i: int|
        0 <= i < trail.len() ==> walk.seen.contains(#[trigger] trail[i])
    &&& forall|node: int| #[trigger] walk.seen.contains(node) ==> 0 <= node < count
    &&& forall|node: int, next: int|
        #[trigger] left_behind(trail, walk, node) && #[trigger] arc(dependencies, node, next)
            ==> walk.seen.contains(next)
    &&& forall|node: int|
        #[trigger] left_behind(trail, walk, node) ==> placed(walk.out, node) || held_open(
            dependencies,
            trail,
            node,
        )
    &&& forall|i: int, node: int|
        #[trigger] holds(walk.out, i, node) ==> left_behind(trail, walk, node)
    &&& forall|i: int, j: int, node: int|
        #[trigger] holds(walk.out, i, node) && #[trigger] holds(walk.out, j, node) ==> i == j
    &&& forall|i: int, left: int, right: int|
        #[trigger] holds(walk.out, i, left) ==> (#[trigger] holds(walk.out, i, right) <==> 0
            <= right < count && mutual(dependencies, left, right))
    &&& forall|i: int, node: int, next: int|
        #[trigger] holds(walk.out, i, node) && #[trigger] arc(dependencies, node, next)
            ==> placed_by(walk.out, i, next)
    &&& forall|i: int|
        0 <= i < walk.out.len() ==> (#[trigger] walk.out[i]).len() > 0 && increasing(walk.out[i])
}

/// Whether the node stands in stage `last` or an earlier one.
pub open spec fn placed_by(stages: Seq<Seq<int>>, last: int, node: int) -> bool {
    exists|i: int| #[trigger] holds(stages, i, node) && i <= last
}

/// Whether every node on the trail reaches `node`.
pub open spec fn trail_reaches(
    dependencies: Seq<CouplingDependency>,
    trail: Seq<int>,
    node: int,
) -> bool {
    forall|i: int| 0 <= i < trail.len() ==> reaches(dependencies, #[trigger] trail[i], node)
}

proof fn lemma_trail_length(count: nat, trail: Seq<int>)
    requires
        trail.no_duplicates(),
        forall|i: int| 0 <= i < trail.len() ==> 0 <= #[trigger] trail[i] < count,
    ensures
        trail.len() <= count,
{
    let range = vstd::set_lib::set_int_range(0, count as int);
    vstd::set_lib::lemma_int_range(0, count as int);
    trail.unique_seq_to_set();
    assert(trail.to_set().subset_of(range)) by {
        assert forall|x: int| trail.to_set().contains(x) implies range.contains(x) by {
            let i = choose|i: int| 0 <= i < trail.len() && trail[i] == x;
            assert(0 <= trail[i] < count);
        }
    }
    vstd::set_lib::lemma_len_subset(trail.to_set(), range);
}

/// Entering a node keeps the walk sound.
proof fn lemma_enter(
    count: nat,
    dependencies: Seq<CouplingDependency>,
    node: int,
    trail: Seq<int>,
    walk: Walk,
)
    requires
        sound(count, dependencies, trail, walk),
        0 <= node < count,
        !walk.seen.contains(node),
        trail_reaches(dependencies, trail, node),
    ensures
        sound(
            count,
            dependencies,
            trail.push(node),
            Walk { seen: walk.seen.insert(node), out: walk.out },
        ),
        trail_reaches(dependencies, trail.push(node), node),
        trail.len() < count,
{
    let longer = trail.push(node);
    let entered = Walk { seen: walk.seen.insert(node), out: walk.out };
    assert(longer[trail.len() as int] == node);
    assert forall|x: int| on_trail(longer, x) <==> on_trail(trail, x) || x == node by {
        if on_trail(trail, x) {
            let i = choose|i: int| 0 <= i < trail.len() && #[trigger] trail[i] == x;
            assert(longer[i] == x);
        }
        if on_trail(longer, x) && x != node {
            let i = choose|i: int| 0 <= i < longer.len() && #[trigger] longer[i] == x;
            assert(trail[i] == x);
        }
    }
    assert forall|x: int| left_behind(longer, entered, x) <==> left_behind(trail, walk, x) by {
        assert(on_trail(longer, x) <==> on_trail(trail, x) || x == node);
    }
    assert forall|x: int| #[trigger] left_behind(longer, entered, x) implies placed(
        entered.out,
        x,
    ) || held_open(dependencies, longer, x) by {
        assert(left_behind(trail, walk, x));
        if held_open(dependencies, trail, x) {
            let i = choose|i: int| 0 <= i < trail.len() && mutual(
                dependencies,
                #[trigger] trail[i],
                x,
            );
            assert(mutual(dependencies, longer[i], x));
        }
    }
    assert forall|x: int, y: int| #[trigger] left_behind(longer, entered, x) && #[trigger] arc(
        dependencies,
        x,
        y,
    ) implies entered.seen.contains(y) by {
        assert(left_behind(trail, walk, x));
    }
    lemma_reaches_self(dependencies, node);
    assert(longer.no_duplicates());
    assert forall|i: int| 0 <= i < longer.len() implies 0 <= #[trigger] longer[i] < count by {
        assert(entered.seen.contains(longer[i]));
    }
    lemma_trail_length(count, longer);
}

proof fn lemma_trail_push(trail: Seq<int>, node: int)
    ensures
        forall|x: int| #[trigger]
            on_trail(trail.push(node), x) <==> on_trail(trail, x) || x == node,
{
    let longer = trail.push(node);
    assert(longer[trail.len() as int] == node);
    assert forall|x: int| #[trigger] on_trail(longer, x) <==> on_trail(trail, x) || x == node by {
        if on_trail(trail, x) {
            let i = choose|i: int| 0 <= i < trail.len() && #[trigger] trail[i] == x;
            assert(longer[i] == x);
        }
        if on_trail(longer, x) && x != node {
            let i = choose|i: int| 0 <= i < longer.len() && #[trigger] longer[i] == x;
            assert(trail[i] == x);
        }
    }
}

/// When the walk leaves the first-met node of a component, it has met the whole component.
proof fn lemma_component_met(
    count: nat,
    dependencies: Seq<CouplingDependency>,
    node: int,
    trail: Seq<int>,
    inner: Walk,
    other: int,
)
    requires
        sound(count, dependencies, trail.push(node), inner),
        forall|next: int| #[trigger] arc(dependencies, node, next) ==> inner.seen.contains(next),
        leads(dependencies, trail, node),
        mutual(dependencies, other, node),
    ensures
        inner.seen.contains(other),
        !on_trail(trail, other),
{
    let longer = trail.push(node);
    let met = Set::new(
        |y: int|
            reaches(dependencies, node, y) && (inner.seen.contains(y) || !reaches(
                dependencies,
                y,
                node,
            )),
    );
    lemma_trail_push(trail, node);
    lemma_reaches_self(dependencies, node);
    assert(inner.seen.contains(longer[trail.len() as int]));
    assert forall|k: int| 0 <= k < dependencies.len() && met.contains(
        (#[trigger] dependencies[k]).row as int,
    ) implies met.contains(dependencies[k].column as int) by {
        let y = dependencies[k].row as int;
        let z = dependencies[k].column as int;
        assert(arc(dependencies, y, z));
        lemma_reaches_arc(dependencies, y, z);
        lemma_reaches_through(dependencies, node, y, z);
        if reaches(dependencies, z, node) {
            lemma_reaches_through(dependencies, y, z, node);
            if y != node {
                if on_trail(trail, y) {
                    let i = choose|i: int| 0 <= i < trail.len() && #[trigger] trail[i] == y;
                    assert(mutual(dependencies, trail[i], node));
                }
                assert(left_behind(longer, inner, y));
            }
        }
    }
    lemma_closed_contains(dependencies, met, node, other);
    if on_trail(trail, other) {
        let i = choose|i: int| 0 <= i < trail.len() && #[trigger] trail[i] == other;
        assert(mutual(dependencies, trail[i], node));
    }
}

/// What a listed component depends on stands in it or in an earlier one.
proof fn lemma_component_next(
    count: nat,
    dependencies: Seq<CouplingDependency>,
    node: int,
    trail: Seq<int>,
    inner: Walk,
    member: int,
    next: int,
)
    requires
        sound(count, dependencies, trail.push(node), inner),
        forall|next: int| #[trigger] arc(dependencies, node, next) ==> inner.seen.contains(next),
        trail_reaches(dependencies, trail, node),
        leads(dependencies, trail, node),
        mutual(dependencies, member, node),
        arc(dependencies, member, next),
        !mutual(dependencies, next, node),
    ensures
        placed(inner.out, next),
{
    let longer = trail.push(node);
    lemma_trail_push(trail, node);
    lemma_component_met(count, dependencies, node, trail, inner, member);
    lemma_reaches_arc(dependencies, member, next);
    lemma_reaches_through(dependencies, node, member, next);
    if member != node {
        assert(left_behind(longer, inner, member));
    }
    assert(inner.seen.contains(next));
    if next == node {
        lemma_reaches_self(dependencies, node);
    }
    if on_trail(trail, next) {
        let i = choose|i: int| 0 <= i < trail.len() && #[trigger] trail[i] == next;
        assert(mutual(dependencies, trail[i], node));
    }
    assert(left_behind(longer, inner, next));
    if held_open(dependencies, longer, next) {
        let i = choose|i: int| 0 <= i < longer.len() && mutual(
            dependencies,
            #[trigger] longer[i],
            next,
        );
        if i < trail.len() {
            assert(trail[i] == longer[i]);
            lemma_reaches_through(dependencies, node, next, trail[i]);
            assert(mutual(dependencies, trail[i], node));
        }
    }
}

/// Leaving the first-met node of a component lists it and keeps the walk sound.
proof fn lemma_leave_listing(
    count: nat,
    dependencies: Seq<CouplingDependency>,
    node: int,
    trail: Seq<int>,
    inner: Walk,
)
    requires
        within(dependencies, count),
        sound(count, dependencies, trail.push(node), inner),
        forall|next: int| #[trigger] arc(dependencies, node, next) ==> inner.seen.contains(next),
        trail_reaches(dependencies, trail, node),
        leads(dependencies, trail, node),
    ensures
        sound(
            count,
            dependencies,
            trail,
            Walk { out: inner.out.push(component(count, dependencies, node)), ..inner },
        ),
{
    let longer = trail.push(node);
    let stage = component(count, dependencies, node);
    let after = Walk { out: inner.out.push(stage), ..inner };
    let last = inner.out.len() as int;
    lemma_trail_push(trail, node);
    lemma_component(count, dependencies, node);
    lemma_reaches_self(dependencies, node);
    assert(inner.seen.contains(longer[trail.len() as int]));
    assert(stage.contains(node));
    assert forall|i: int| 0 <= i < trail.len() implies after.seen.contains(#[trigger] trail[i]) by {
        assert(longer[i] == trail[i]);
    }
    assert(trail.no_duplicates()) by {
        assert forall|i: int, j: int| 0 <= i < j < trail.len() implies trail[i] != trail[j] by {
            assert(longer[i] != longer[j]);
        }
    }
    assert forall|i: int, x: int| #[trigger] holds(after.out, i, x) implies (if i == last {
        0 <= x < count && mutual(dependencies, x, node)
    } else {
        holds(inner.out, i, x)
    }) by {}
    assert forall|i: int, x: int| holds(inner.out, i, x) implies #[trigger] holds(
        after.out,
        i,
        x,
    ) by {}
    assert forall|x: int| 0 <= x < count && mutual(dependencies, x, node) implies #[trigger] holds(
        after.out,
        last,
        x,
    ) by {
        assert(stage.contains(x));
    }
    assert forall|x: int, y: int| #[trigger] left_behind(trail, after, x) && #[trigger] arc(
        dependencies,
        x,
        y,
    ) implies after.seen.contains(y) by {
        if x != node {
            assert(left_behind(longer, inner, x));
        }
    }
    assert forall|x: int| #[trigger] left_behind(trail, after, x) implies placed(after.out, x)
        || held_open(dependencies, trail, x) by {
        if x == node {
            assert(holds(after.out, last, node));
        } else {
            assert(left_behind(longer, inner, x));
            if placed(inner.out, x) {
                let i = choose|i: int| #[trigger] holds(inner.out, i, x);
                assert(holds(after.out, i, x));
            } else {
                let i = choose|i: int| 0 <= i < longer.len() && mutual(
                    dependencies,
                    #[trigger] longer[i],
                    x,
                );
                if i < trail.len() {
                    assert(trail[i] == longer[i]);
                } else {
                    assert(holds(after.out, last, x));
                }
            }
        }
    }
    assert forall|i: int, x: int| #[trigger] holds(after.out, i, x) implies left_behind(
        trail,
        after,
        x,
    ) by {
        if i == last {
            lemma_component_met(count, dependencies, node, trail, inner, x);
        } else {
            assert(holds(inner.out, i, x));
            assert(left_behind(longer, inner, x));
        }
    }
    assert forall|i: int, j: int, x: int| #[trigger] holds(after.out, i, x) && #[trigger] holds(
        after.out,
        j,
        x,
    ) implies i == j by {
        lemma_listed_once(count, dependencies, node, trail, inner, x);
        if i != last && j != last {
            assert(holds(inner.out, i, x) && holds(inner.out, j, x));
        } else if i != last {
            assert(holds(inner.out, i, x));
        } else if j != last {
            assert(holds(inner.out, j, x));
        }
    }
    assert forall|i: int, x: int, y: int| #[trigger] holds(after.out, i, x) implies (
    #[trigger] holds(after.out, i, y) <==> 0 <= y < count && mutual(dependencies, x, y)) by {
        if i == last {
            if holds(after.out, i, y) {
                lemma_mutual_through(dependencies, x, node, y);
            }
            if 0 <= y < count && mutual(dependencies, x, y) {
                lemma_mutual_through(dependencies, y, x, node);
                assert(holds(after.out, last, y));
            }
        } else {
            assert(holds(inner.out, i, x));
            assert(holds(after.out, i, y) <==> holds(inner.out, i, y));
        }
    }
    assert forall|i: int, x: int, y: int| #[trigger] holds(after.out, i, x) && #[trigger] arc(
        dependencies,
        x,
        y,
    ) implies placed_by(after.out, i, y) by {
        if i == last {
            let k = choose|k: int|
                0 <= k < dependencies.len() && (#[trigger] dependencies[k]).row == x
                    && dependencies[k].column == y;
            assert(0 <= y < count);
            if mutual(dependencies, y, node) {
                assert(holds(after.out, last, y));
            } else {
                lemma_component_next(count, dependencies, node, trail, inner, x, y);
                let j = choose|j: int| #[trigger] holds(inner.out, j, y);
                assert(holds(after.out, j, y));
            }
        } else {
            assert(holds(inner.out, i, x));
            assert(placed_by(inner.out, i, y));
            let j = choose|j: int| #[trigger] holds(inner.out, j, y) && j <= i;
            assert(holds(after.out, j, y));
        }
    }
}

/// No member of the component of a node still on the trail was listed before.
proof fn lemma_listed_once(
    count: nat,
    dependencies: Seq<CouplingDependency>,
    node: int,
    trail: Seq<int>,
    inner: Walk,
    x: int,
)
    requires
        sound(count, dependencies, trail.push(node), inner),
    ensures
        mutual(dependencies, x, node) ==> !placed(inner.out, x),
{
    let longer = trail.push(node);
    if mutual(dependencies, x, node) && placed(inner.out, x) {
        let i = choose|i: int| #[trigger] holds(inner.out, i, x);
        assert(inner.seen.contains(longer[trail.len() as int]));
        assert(holds(inner.out, i, node));
        assert(left_behind(longer, inner, node));
        lemma_trail_push(trail, node);
    }
}

/// Leaving any other node keeps the walk sound.
proof fn lemma_leave_open(
    count: nat,
    dependencies: Seq<CouplingDependency>,
    node: int,
    trail: Seq<int>,
    inner: Walk,
)
    requires
        sound(count, dependencies, trail.push(node), inner),
        forall|next: int| #[trigger] arc(dependencies, node, next) ==> inner.seen.contains(next),
        !leads(dependencies, trail, node),
    ensures
        sound(count, dependencies, trail, inner),
{
    let longer = trail.push(node);
    lemma_trail_push(trail, node);
    let open = choose|i: int| 0 <= i < trail.len() && mutual(
        dependencies,
        #[trigger] trail[i],
        node,
    );
    assert forall|i: int| 0 <= i < trail.len() implies inner.seen.contains(#[trigger] trail[i]) by {
        assert(longer[i] == trail[i]);
    }
    assert(trail.no_duplicates()) by {
        assert forall|i: int, j: int| 0 <= i < j < trail.len() implies trail[i] != trail[j] by {
            assert(longer[i] != longer[j]);
        }
    }
    assert forall|x: int, y: int| #[trigger] left_behind(trail, inner, x) && #[trigger] arc(
        dependencies,
        x,
        y,
    ) implies inner.seen.contains(y) by {
        if x != node {
            assert(left_behind(longer, inner, x));
        }
    }
    assert forall|x: int| #[trigger] left_behind(trail, inner, x) implies placed(inner.out, x)
        || held_open(dependencies, trail, x) by {
        if x != node {
            assert(left_behind(longer, inner, x));
            if !placed(inner.out, x) {
                let i = choose|i: int| 0 <= i < longer.len() && mutual(
                    dependencies,
                    #[trigger] longer[i],
                    x,
                );
                if i < trail.len() {
                    assert(mutual(dependencies, trail[i], x));
                } else {
                    lemma_mutual_through(dependencies, trail[open], node, x);
                }
            }
        }
    }
    assert forall|i: int, x: int| #[trigger] holds(inner.out, i, x) implies left_behind(
        trail,
        inner,
        x,
    ) by {
        assert(left_behind(longer, inner, x));
    }
}

proof fn lemma_visited(
    count: nat,
    dependencies: Seq<CouplingDependency>,
    node: int,
    trail: Seq<int>,
    walk: Walk,
)
    requires
        within(dependencies, count),
        sound(count, dependencies, trail, walk),
        0 <= node < count,
        trail_reaches(dependencies, trail, node),
    ensures
        sound(count, dependencies, trail, visited(count, dependencies, node, trail, walk)),
        walk.seen.subset_of(visited(count, dependencies, node, trail, walk).seen),
        visited(count, dependencies, node, trail, walk).seen.contains(node),
    decreases count - trail.len(), 0int,
{
    if !walk.seen.contains(node) {
        lemma_enter(count, dependencies, node, trail, walk);
        let longer = trail.push(node);
        let entered = Walk { seen: walk.seen.insert(node), out: walk.out };
        lemma_visited_from(count, dependencies, node, 0, longer, entered);
        let inner = visited_from(count, dependencies, node, 0, longer, entered);
        assert forall|next: int| #[trigger] arc(
            dependencies,
            node,
            next,
        ) implies inner.seen.contains(next) by {
            let k = choose|k: int|
                0 <= k < dependencies.len() && (#[trigger] dependencies[k]).row == node
                    && dependencies[k].column == next;
            assert(dependencies[k].row == node);
        }
        if leads(dependencies, trail, node) {
            lemma_leave_listing(count, dependencies, node, trail, inner);
        } else {
            lemma_leave_open(count, dependencies, node, trail, inner);
        }
    }
}

proof fn lemma_visited_from(
    count: nat,
    dependencies: Seq<CouplingDependency>,
    node: int,
    k: int,
    trail: Seq<int>,
    walk: Walk,
)
    requires
        within(dependencies, count),
        sound(count, dependencies, trail, walk),
        trail_reaches(dependencies, trail, node),
        0 <= k <= dependencies.len(),
    ensures
        sound(count, dependencies, trail, visited_from(count, dependencies, node, k, trail, walk)),
        walk.seen.subset_of(visited_from(count, dependencies, node, k, trail, walk).seen),
        forall|j: int|
            k <= j < dependencies.len() && (#[trigger] dependencies[j]).row == node
                ==> visited_from(count, dependencies, node, k, trail, walk).seen.contains(
                dependencies[j].column as int,
            ),
    decreases count - trail.len(), dependencies.len() - k + 1,
{
    if k < dependencies.len() {
        if dependencies[k].row == node {
            let next = dependencies[k].column as int;
            assert(arc(dependencies, node, next));
            lemma_reaches_arc(dependencies, node, next);
            assert forall|i: int| 0 <= i < trail.len() implies reaches(
                dependencies,
                #[trigger] trail[i],
                next,
            ) by {
                lemma_reaches_through(dependencies, trail[i], node, next);
            }
            lemma_visited(count, dependencies, next, trail, walk);
            let after = visited(count, dependencies, next, trail, walk);
            lemma_visited_from(count, dependencies, node, k + 1, trail, after);
        } else {
            lemma_visited_from(count, dependencies, node, k + 1, trail, walk);
        }
    }
}

proof fn lemma_walked(count: nat, dependencies: Seq<CouplingDependency>, node: int, walk: Walk)
    requires
        within(dependencies, count),
        sound(count, dependencies, Seq::empty(), walk),
        0 <= node <= count,
        forall|x: int| 0 <= x < node ==> #[trigger] walk.seen.contains(x),
    ensures
        sound(count, dependencies, Seq::empty(), walked(count, dependencies, node, walk)),
        forall|x: int|
            0 <= x < count ==> #[trigger] walked(count, dependencies, node, walk).seen.contains(x),
    decreases count - node,
{
    if node < count {
        lemma_visited(count, dependencies, node, Seq::empty(), walk);
        let after = visited(count, dependencies, node, Seq::empty(), walk);
        assert forall|x: int| 0 <= x < node + 1 implies #[trigger] after.seen.contains(x) by {
            if x < node {
                assert(walk.seen.contains(x));
            }
        }
        lemma_walked(count, dependencies, node + 1, after);
    }
}

/// The listed components are a schedule: they hold every node once, group nodes
/// exactly when they depend on each other, and come dependencies first.
pub proof fn law_listed_components_schedule(count: nat, dependencies: Seq<CouplingDependency>)
    requires
        within(dependencies, count),
    ensures
        schedules(listed(count, dependencies), count, dependencies),
{
    let start = Walk { seen: Set::empty(), out: Seq::empty() };
    assert(sound(count, dependencies, Seq::empty(), start));
    lemma_walked(count, dependencies, 0, start);
    let end = walked(count, dependencies, 0, start);
    let stages = end.out;
    let trail = Seq::<int>::empty();
    assert forall|node: int| 0 <= node < count implies #[trigger] placed(stages, node) by {
        assert(end.seen.contains(node));
        assert(left_behind(trail, end, node));
    }
    assert forall|i: int, j: int, from: int, to: int| #[trigger] holds(stages, i, from)
        && #[trigger] holds(stages, j, to) && reaches(dependencies, from, to) implies j <= i by {
        let early = Set::new(|x: int| placed_by(stages, i, x));
        assert(holds(stages, i, from));
        assert forall|k: int| 0 <= k < dependencies.len() && early.contains(
            (#[trigger] dependencies[k]).row as int,
        ) implies early.contains(dependencies[k].column as int) by {
            let row = dependencies[k].row as int;
            let column = dependencies[k].column as int;
            assert(arc(dependencies, row, column));
            let a = choose|a: int| #[trigger] holds(stages, a, row) && a <= i;
            assert(placed_by(stages, a, column));
            let b = choose|b: int| #[trigger] holds(stages, b, column) && b <= a;
            assert(holds(stages, b, column));
        }
        lemma_closed_contains(dependencies, early, from, to);
        let b = choose|b: int| #[trigger] holds(stages, b, to) && b <= i;
        assert(b == j);
    }
}

/// A schedule has only singleton stages exactly when no two nodes depend on each other.
pub proof fn law_singleton_stages_mean_acyclic(
    stages: Seq<Seq<int>>,
    count: nat,
    dependencies: Seq<CouplingDependency>,
)
    requires
        schedules(stages, count, dependencies),
    ensures
        (forall|i: int| 0 <= i < stages.len() ==> (#[trigger] stages[i]).len() == 1) <==> (forall|
            left: int,
            right: int,
        |
            0 <= left < count && 0 <= right < count && #[trigger] mutual(dependencies, left, right)
                ==> left == right),
{
    if forall|i: int| 0 <= i < stages.len() ==> (#[trigger] stages[i]).len() == 1 {
        assert forall|left: int, right: int|
            0 <= left < count && 0 <= right < count && #[trigger] mutual(
                dependencies,
                left,
                right,
            ) implies left == right by {
            assert(placed(stages, left));
            let i = choose|i: int| #[trigger] holds(stages, i, left);
            assert(holds(stages, i, right));
            let a = choose|a: int| 0 <= a < stages[i].len() && stages[i][a] == left;
            let b = choose|b: int| 0 <= b < stages[i].len() && stages[i][b] == right;
            assert(a == b);
        }
    }
    if forall|left: int, right: int|
        0 <= left < count && 0 <= right < count && #[trigger] mutual(dependencies, left, right)
            ==> left == right {
        assert forall|i: int| 0 <= i < stages.len() implies (#[trigger] stages[i]).len() == 1 by {
            if stages[i].len() > 1 {
                let left = stages[i][0];
                let right = stages[i][1];
                assert(increasing(stages[i]));
                assert(stages[i].contains(left) && stages[i].contains(right));
                assert(holds(stages, i, left));
                assert(holds(stages, i, right));
                lemma_reaches_self(dependencies, left);
                assert(mutual(dependencies, left, right));
                assert(mutual(dependencies, left, left));
            }
        }
    }
}

/// Nodes as mathematical integers.
pub open spec fn integers(nodes: Seq<usize>) -> Seq<int> {
    nodes.map_values(|node: usize| node as int)
}

pub open spec fn stage_models(stages: Seq<Vec<usize>>) -> Seq<Seq<int>> {
    stages.map_values(|stage: Vec<usize>| integers(stage@))
}

closed spec fn marked(marks: Seq<bool>) -> Set<int> {
    Set::new(|i: int| 0 <= i < marks.len() && marks[i])
}

/// For each node, whether `from` reaches it.
fn reachable_from(count: usize, dependencies: &Vec<CouplingDependency>, from: usize) -> (result:
    Vec<bool>)
    requires
        within(dependencies@, count as nat),
        from < count,
    ensures
        result@.len() == count,
        forall|i: int|
            0 <= i < count ==> (#[trigger] result@[i] <==> reaches(
                dependencies@,
                from as int,
                i,
            )),
{
    let mut result: Vec<bool> = Vec::new();
    while result.len() < count
        invariant
            result.len() <= count,
            forall|i: int| 0 <= i < result.len() ==> !(#[trigger] result@[i]),
        decreases count - result.len(),
    {
        result.push(false);
    }
    result.set(from, true);
    proof {
        lemma_reaches_self(dependencies@, from as int);
    }
    let mut changed: bool = true;
    let ghost mut unmarked: Set<int> = Set::new(|i: int| 0 <= i < count && i != from);
    proof {
        let range = vstd::set_lib::set_int_range(0, count as int);
        vstd::set_lib::lemma_int_range(0, count as int);
        assert(unmarked.subset_of(range));
        vstd::set_lib::lemma_len_subset(unmarked, range);
        assert forall|i: int| unmarked.contains(i) <==> 0 <= i < count && !result@[i] by {}
    }
    while changed
        invariant
            within(dependencies@, count as nat),
            from < count,
            result@.len() == count,
            result@[from as int],
            forall|i: int|
                0 <= i < count && #[trigger] result@[i] ==> reaches(dependencies@, from as int, i),
            unmarked.finite(),
            forall|i: int| #[trigger] unmarked.contains(i) <==> 0 <= i < count && !result@[i],
            !changed ==> (forall|k: int|
                0 <= k < dependencies@.len() && result@[(#[trigger] dependencies@[k]).row as int]
                    ==> result@[dependencies@[k].column as int]),
        decreases
                unmarked.len(),
                if changed {
                    1int
                } else {
                    0int
                },
    {
        changed = false;
        let ghost before = unmarked;
        let mut k: usize = 0;
        while k < dependencies.len()
            invariant
                k <= dependencies.len(),
                within(dependencies@, count as nat),
                from < count,
                result@.len() == count,
                result@[from as int],
                forall|i: int|
                    0 <= i < count && #[trigger] result@[i] ==> reaches(
                        dependencies@,
                        from as int,
                        i,
                    ),
                unmarked.finite(),
                before.finite(),
                unmarked.subset_of(before),
                forall|i: int| #[trigger] unmarked.contains(i) <==> 0 <= i < count && !result@[i],
                changed ==> unmarked.len() < before.len(),
                !changed ==> unmarked == before,
                !changed ==> (forall|j: int|
                    0 <= j < k && result@[(#[trigger] dependencies@[j]).row as int]
                        ==> result@[dependencies@[j].column as int]),
            decreases dependencies.len() - k,
        {
            let dependency = dependencies[k];
            if result[dependency.row] && !result[dependency.column] {
                proof {
                    let row = dependency.row as int;
                    let column = dependency.column as int;
                    assert(dependencies@[k as int].row == row);
                    assert(arc(dependencies@, row, column));
                    lemma_reaches_arc(dependencies@, row, column);
                    lemma_reaches_through(dependencies@, from as int, row, column);
                    assert(unmarked.contains(column));
                    unmarked = unmarked.remove(column);
                    vstd::set_lib::lemma_len_subset(unmarked.insert(column), before);
                }
                result.set(dependency.column, true);
                changed = true;
            }
            k += 1;
        }
    }
    proof {
        let closed = marked(result@);
        assert forall|k: int| 0 <= k < dependencies@.len() && closed.contains(
            (#[trigger] dependencies@[k]).row as int,
        ) implies closed.contains(dependencies@[k].column as int) by {}
        assert forall|i: int| 0 <= i < count implies (#[trigger] result@[i] <==> reaches(
            dependencies@,
            from as int,
            i,
        )) by {
            if reaches(dependencies@, from as int, i) {
                lemma_closed_contains(dependencies@, closed, from as int, i);
            }
        }
    }
    result
}

/// The reachability of all nodes: row `i` tells what node `i` reaches.
closed spec fn reach_table(
    reach: Seq<Vec<bool>>,
    count: nat,
    dependencies: Seq<CouplingDependency>,
) -> bool {
    &&& reach.len() == count
    &&& forall|i: int| 0 <= i < count ==> (#[trigger] reach[i])@.len() == count
    &&& forall|i: int, j: int|
        0 <= i < count && 0 <= j < count ==> (#[trigger] reach[i]@[j] <==> reaches(
            dependencies,
            i,
            j,
        ))
}

fn reach_rows(count: usize, dependencies: &Vec<CouplingDependency>) -> (result: Vec<Vec<bool>>)
    requires
        within(dependencies@, count as nat),
    ensures
        reach_table(result@, count as nat, dependencies@),
{
    let mut result: Vec<Vec<bool>> = Vec::new();
    while result.len() < count
        invariant
            within(dependencies@, count as nat),
            result.len() <= count,
            forall|i: int| 0 <= i < result.len() ==> (#[trigger] result@[i])@.len() == count,
            forall|i: int, j: int|
                0 <= i < result.len() && 0 <= j < count ==> (#[trigger] result@[i]@[j] <==> reaches(
                    dependencies@,
                    i,
                    j,
                )),
        decreases count - result.len(),
    {
        let row = reachable_from(count, dependencies, result.len());
        result.push(row);
    }
    result
}

/// The nodes in one component with `node`, in increasing order.
fn component_of(
    count: usize,
    Ghost(dependencies): Ghost<Seq<CouplingDependency>>,
    reach: &Vec<Vec<bool>>,
    node: usize,
) -> (result: Vec<usize>)
    requires
        reach_table(reach@, count as nat, dependencies),
        node < count,
    ensures
        integers(result@) == component(count as nat, dependencies, node as int),
{
    let ghost all = Seq::new(count as nat, |i: int| i);
    let ghost keep = |i: int| mutual(dependencies, i, node as int);
    let mut result: Vec<usize> = Vec::new();
    let mut other: usize = 0;
    proof {
        reveal(Seq::filter);
        assert(all.take(0).filter(keep) =~= Seq::<int>::empty());
        assert(integers(result@) =~= Seq::<int>::empty());
    }
    while other < count
        invariant
            other <= count,
            node < count,
            reach_table(reach@, count as nat, dependencies),
            all == Seq::new(count as nat, |i: int| i),
            keep == (|i: int| mutual(dependencies, i, node as int)),
            integers(result@) == all.take(other as int).filter(keep),
        decreases count - other,
    {
        proof {
            reveal(Seq::filter);
            let longer = all.take(other + 1);
            assert(longer.drop_last() =~= all.take(other as int));
            assert(longer.last() == other as int);
        }
        if reach[node][other] && reach[other][node] {
            let ghost before = result@;
            result.push(other);
            assert(integers(result@) =~= integers(before).push(other as int));
        }
        other += 1;
    }
    assert(all.take(other as int) =~= all);
    result
}

/// Whether no node on the trail is in one component with `node`.
fn leads_component(
    Ghost(count): Ghost<nat>,
    Ghost(dependencies): Ghost<Seq<CouplingDependency>>,
    reach: &Vec<Vec<bool>>,
    trail: &Vec<usize>,
    node: usize,
) -> (result: bool)
    requires
        reach_table(reach@, count, dependencies),
        node < count,
        forall|i: int| 0 <= i < trail@.len() ==> #[trigger] trail@[i] < count,
    ensures
        result == leads(dependencies, integers(trail@), node as int),
{
    let mut index: usize = 0;
    while index < trail.len()
        invariant
            index <= trail.len(),
            node < count,
            reach_table(reach@, count, dependencies),
            forall|i: int| 0 <= i < trail@.len() ==> #[trigger] trail@[i] < count,
            forall|i: int|
                0 <= i < index ==> !mutual(
                    dependencies,
                    #[trigger] integers(trail@)[i],
                    node as int,
                ),
        decreases trail.len() - index,
    {
        let other: usize = trail[index];
        assert(integers(trail@)[index as int] == other as int);
        if reach[node][other] && reach[other][node] {
            return false;
        }
        index += 1;
    }
    true
}

/// Visits `node` from the end of `trail`.
fn visit(
    count: usize,
    dependencies: &Vec<CouplingDependency>,
    reach: &Vec<Vec<bool>>,
    node: usize,
    trail: &mut Vec<usize>,
    seen: &mut Vec<bool>,
    out: &mut Vec<Vec<usize>>,
)
    requires
        within(dependencies@, count as nat),
        reach_table(reach@, count as nat, dependencies@),
        node < count,
        forall|i: int| 0 <= i < old(trail)@.len() ==> #[trigger] old(trail)@[i] < count,
        old(seen)@.len() == count,
    ensures
        final(trail)@ == old(trail)@,
        final(seen)@.len() == count,
        (Walk { seen: marked(final(seen)@), out: stage_models(final(out)@) }) == visited(
            count as nat,
            dependencies@,
            node as int,
            integers(old(trail)@),
            Walk { seen: marked(old(seen)@), out: stage_models(old(out)@) },
        ),
    decreases count - old(trail)@.len(),
{
    if seen[node] || trail.len() >= count {
        return;
    }
    let ghost before = trail@;
    let ghost walk = Walk { seen: marked(seen@), out: stage_models(out@) };
    seen.set(node, true);
    assert(marked(seen@) =~= walk.seen.insert(node as int));
    trail.push(node);
    let ghost longer = trail@;
    let ghost entered = Walk { seen: marked(seen@), out: stage_models(out@) };
    assert(integers(longer) =~= integers(before).push(node as int));
    let mut k: usize = 0;
    while k < dependencies.len()
        invariant
            k <= dependencies.len(),
            within(dependencies@, count as nat),
            reach_table(reach@, count as nat, dependencies@),
            node < count,
            before.len() < count,
            trail@ == longer,
            longer.len() == before.len() + 1,
            before == old(trail)@,
            forall|i: int| 0 <= i < longer.len() ==> #[trigger] longer[i] < count,
            seen@.len() == count,
            visited_from(
                count as nat,
                dependencies@,
                node as int,
                0,
                integers(longer),
                entered,
            ) == visited_from(
                count as nat,
                dependencies@,
                node as int,
                k as int,
                integers(longer),
                Walk { seen: marked(seen@), out: stage_models(out@) },
            ),
        decreases dependencies.len() - k,
    {
        if dependencies[k].row == node {
            visit(count, dependencies, reach, dependencies[k].column, trail, seen, out);
        }
        k += 1;
    }
    trail.pop();
    assert(trail@ =~= before);
    if leads_component(Ghost(count as nat), Ghost(dependencies@), reach, trail, node) {
        let ghost listed_before = stage_models(out@);
        let stage = component_of(count, Ghost(dependencies@), reach, node);
        out.push(stage);
        assert(stage_models(out@) =~= listed_before.push(integers(stage@)));
    }
}

/// The strongly connected components of the arcs `row -> column` ("row depends on
/// column"), dependencies first, each in increasing order.
pub fn strongly_connected_components(
    node_count: usize,
    dependencies: &Vec<CouplingDependency>,
) -> (result: Vec<Vec<usize>>)
    requires
        within(dependencies@, node_count as nat),
    ensures
        stage_models(result@) == listed(node_count as nat, dependencies@),
        schedules(stage_models(result@), node_count as nat, dependencies@),
{
    let reach = reach_rows(node_count, dependencies);
    let mut trail: Vec<usize> = Vec::new();
    let mut seen: Vec<bool> = Vec::new();
    while seen.len() < node_count
        invariant
            seen.len() <= node_count,
            forall|i: int| 0 <= i < seen.len() ==> !(#[trigger] seen@[i]),
        decreases node_count - seen.len(),
    {
        seen.push(false);
    }
    let mut out: Vec<Vec<usize>> = Vec::new();
    let ghost start = Walk { seen: Set::<int>::empty(), out: Seq::<Seq<int>>::empty() };
    assert(marked(seen@) =~= start.seen);
    assert(stage_models(out@) =~= start.out);
    let mut node: usize = 0;
    while node < node_count
        invariant
            node <= node_count,
            within(dependencies@, node_count as nat),
            reach_table(reach@, node_count as nat, dependencies@),
            trail@.len() == 0,
            seen@.len() == node_count,
            walked(node_count as nat, dependencies@, 0, start) == walked(
                node_count as nat,
                dependencies@,
                node as int,
                Walk { seen: marked(seen@), out: stage_models(out@) },
            ),
        decreases node_count - node,
    {
        assert(integers(trail@) =~= Seq::<int>::empty());
        visit(node_count, dependencies, &reach, node, &mut trail, &mut seen, &mut out);
        node += 1;
    }
    proof {
        law_listed_components_schedule(node_count as nat, dependencies@);
    }
    out
}

/// `sorted` with `dependency` in its place, unless it is there already.
fn place_dependency(sorted: &mut Vec<CouplingDependency>, dependency: CouplingDependency)
    requires
        canonical(old(sorted)@),
    ensures
        canonical(final(sorted)@),
        forall|x: CouplingDependency| #[trigger]
            final(sorted)@.contains(x) <==> old(sorted)@.contains(x) || x == dependency,
{
    let ghost before = sorted@;
    let mut position: usize = sorted.len();
    while position > 0 && comes_before(&dependency, &sorted[position - 1])
        invariant
            position <= sorted.len(),
            before == sorted@,
            forall|i: int|
                position <= i < before.len() ==> dependency_before(
                    dependency,
                    #[trigger] before[i],
                ),
        decreases position,
    {
        position -= 1;
    }
    if position > 0 && sorted[position - 1] == dependency {
        assert(before[position - 1] == dependency);
        return;
    }
    sorted.insert(position, dependency);
    proof {
        let after = sorted@;
        assert forall|i: int, j: int| 0 <= i < j < after.len() implies dependency_before(
            #[trigger] after[i],
            #[trigger] after[j],
        ) by {
            if j < position {
                assert(after[i] == before[i] && after[j] == before[j]);
            } else if j == position {
                assert(after[i] == before[i]);
                if i < position - 1 {
                    assert(dependency_before(before[i], before[position - 1]));
                }
            } else if i < position {
                assert(after[i] == before[i] && after[j] == before[j - 1]);
            } else if i > position {
                assert(after[i] == before[i - 1] && after[j] == before[j - 1]);
            } else {
                assert(after[j] == before[j - 1]);
            }
        }
        assert forall|x: CouplingDependency| #[trigger] after.contains(x) <==> before.contains(x)
            || x == dependency by {
            assert(after[position as int] == dependency);
            if before.contains(x) {
                let i = choose|i: int| 0 <= i < before.len() && before[i] == x;
                if i < position {
                    assert(after[i] == x);
                } else {
                    assert(after[i + 1] == x);
                }
            }
            if after.contains(x) && x != dependency {
                let i = choose|i: int| 0 <= i < after.len() && after[i] == x;
                if i < position {
                    assert(before[i] == x);
                } else {
                    assert(before[i - 1] == x);
                }
            }
        }
    }
}

fn comes_before(left: &CouplingDependency, right: &CouplingDependency) -> (result: bool)
    ensures
        result == dependency_before(*left, *right),
{
    left.row < right.row || (left.row == right.row && (left.column < right.column || (left.column
        == right.column && left.argument.sort_key() < right.argument.sort_key())))
}

/// The explicit coupling graph over named leaves.
///
/// The stages list the strongly connected components dependencies first. A graph
/// whose stages are all singletons admits a sequential schedule; a stage with
/// several leaves is a fixed-point block that a partitioned scheme must iterate.
#[derive(Clone, Debug, PartialEq, Eq)]
pub struct CouplingGraph {
    nodes: Vec<String>,
    dependencies: Vec<CouplingDependency>,
    stages: Vec<Vec<usize>>,
}

impl CouplingGraph {
    pub closed spec fn names(&self) -> Seq<String> {
        self.nodes@
    }

    pub closed spec fn arcs(&self) -> Seq<CouplingDependency> {
        self.dependencies@
    }

    pub closed spec fn schedule(&self) -> Seq<Seq<int>> {
        stage_models(self.stages@)
    }

    /// Canonical dependencies between the nodes; the stages schedule them.
    pub closed spec fn wf(&self) -> bool {
        &&& canonical(self.arcs())
        &&& within(self.arcs(), self.names().len())
        &&& self.schedule() == listed(self.names().len(), self.arcs())
        &&& schedules(self.schedule(), self.names().len(), self.arcs())
    }

    pub proof fn lemma_wf(&self)
        requires
            self.wf(),
        ensures
            canonical(self.arcs()),
            within(self.arcs(), self.names().len()),
            self.schedule() == listed(self.names().len(), self.arcs()),
            schedules(self.schedule(), self.names().len(), self.arcs()),
    {
    }

    /// The graph of the given dependencies; repeated ones count once.
    pub fn new(nodes: Vec<String>, edges: &Vec<CouplingDependency>) -> (result: CouplingGraph)
        requires
            within(edges@, nodes@.len()),
        ensures
            result.wf(),
            result.names() == nodes@,
            forall|x: CouplingDependency| #[trigger]
                result.arcs().contains(x) <==> edges@.contains(x),
    {
        let mut dependencies: Vec<CouplingDependency> = Vec::new();
        let mut index: usize = 0;
        while index < edges.len()
            invariant
                index <= edges.len(),
                canonical(dependencies@),
                forall|x: CouplingDependency| #[trigger]
                    dependencies@.contains(x) <==> edges@.take(index as int).contains(x),
            decreases edges.len() - index,
        {
            proof {
                let shorter = edges@.take(index as int);
                let longer = edges@.take(index + 1);
                assert forall|x: CouplingDependency| #[trigger] longer.contains(x)
                    <==> shorter.contains(x) || x == edges@[index as int] by {
                    assert(longer[index as int] == edges@[index as int]);
                    if shorter.contains(x) {
                        let i = choose|i: int| 0 <= i < shorter.len() && shorter[i] == x;
                        assert(longer[i] == x);
                    }
                    if longer.contains(x) && x != edges@[index as int] {
                        let i = choose|i: int| 0 <= i < longer.len() && longer[i] == x;
                        assert(shorter[i] == x);
                    }
                }
            }
            place_dependency(&mut dependencies, edges[index]);
            index += 1;
        }
        assert(edges@.take(index as int) =~= edges@);
        assert(within(dependencies@, nodes@.len())) by {
            assert forall|k: int| 0 <= k < dependencies@.len() implies (
            #[trigger] dependencies@[k]).row < nodes@.len() && dependencies@[k].column
                < nodes@.len() by {
                assert(dependencies@.contains(dependencies@[k]));
                assert(edges@.contains(dependencies@[k]));
                let i = choose|i: int| 0 <= i < edges@.len() && edges@[i] == dependencies@[k];
                assert(edges@[i].row < nodes@.len());
            }
        }
        let stages = strongly_connected_components(nodes.len(), &dependencies);
        CouplingGraph { nodes, dependencies, stages }
    }

    pub fn nodes(&self) -> (result: &Vec<String>)
        ensures
            result@ == self.names(),
    {
        &self.nodes
    }

    pub fn dependencies(&self) -> (result: &Vec<CouplingDependency>)
        ensures
            result@ == self.arcs(),
    {
        &self.dependencies
    }

    pub fn stages(&self) -> (result: &Vec<Vec<usize>>)
        ensures
            stage_models(result@) == self.schedule(),
    {
        &self.stages
    }

    /// Whether every stage is a single leaf, that is, no two leaves depend on each other.
    pub fn is_acyclic(&self) -> (result: bool)
        requires
            self.wf(),
        ensures
            result == (forall|i: int|
                0 <= i < self.schedule().len() ==> (#[trigger] self.schedule()[i]).len() == 1),
            result == (forall|left: int, right: int|
                0 <= left < self.names().len() && 0 <= right < self.names().len()
                    && #[trigger] mutual(self.arcs(), left, right) ==> left == right),
    {
        let ghost stages = self.schedule();
        proof {
            law_singleton_stages_mean_acyclic(stages, self.names().len(), self.arcs());
        }
        let mut index: usize = 0;
        while index < self.stages.len()
            invariant
                index <= self.stages.len(),
                stages == stage_models(self.stages@),
                stages == self.schedule(),
                (forall|i: int| 0 <= i < stages.len() ==> (#[trigger] stages[i]).len() == 1)
                    <==> (forall|left: int, right: int|
                    0 <= left < self.names().len() && 0 <= right < self.names().len()
                        && #[trigger] mutual(self.arcs(), left, right) ==> left == right),
                forall|i: int| 0 <= i < index ==> (#[trigger] stages[i]).len() == 1,
            decreases self.stages.len() - index,
        {
            assert(stages[index as int].len() == self.stages@[index as int]@.len());
            if self.stages[index].len() != 1 {
                return false;
            }
            index += 1;
        }
        true
    }
}

} // verus!
