//! What the identity of a composed system says: it ignores the order in which edges
//! are declared and determines everything else.
use crate::binding;
use crate::digest;
use crate::error::ErrorModel;
use crate::graph::CouplingArgument;
use crate::initialization;
use crate::initialization::RowKind;
use crate::layout;
use crate::system_model;
use crate::system_model::{EdgeModel, LeafModel, ResolvedModel, SystemModel};
use crate::text;
use vstd::prelude::*;

verus! {

/// An edge without its declared position.
pub open spec fn bare(edge: ResolvedModel) -> ResolvedModel {
    ResolvedModel { action: 0, ..edge }
}

pub open spec fn bare_edges(edges: Seq<ResolvedModel>) -> Seq<ResolvedModel> {
    edges.map_values(|edge: ResolvedModel| bare(edge))
}

spec fn in_order(edges: Seq<ResolvedModel>) -> bool {
    forall|i: int, j: int|
        0 <= i < j < edges.len() ==> !system_model::edge_after(
            #[trigger] edges[i],
            #[trigger] edges[j],
        )
}

/// The edges whose keys tie are the same edge.
spec fn keys_tell(edges: Seq<ResolvedModel>, leaves: Seq<LeafModel>) -> bool {
    forall|i: int|
        0 <= i < edges.len() ==> system_model::edge_valid(leaves, #[trigger] edges[i])
            && edges[i].action == 0
}

proof fn lemma_not_after_both(leaves: Seq<LeafModel>, a: ResolvedModel, b: ResolvedModel)
    requires
        !system_model::edge_after(a, b),
        !system_model::edge_after(b, a),
        system_model::edge_valid(leaves, a),
        system_model::edge_valid(leaves, b),
        a.action == b.action,
    ensures
        a == b,
{
    text::lemma_precedes_total(a.identity, b.identity);
}

proof fn lemma_after_transitive(a: ResolvedModel, b: ResolvedModel, c: ResolvedModel)
    requires
        !system_model::edge_after(a, b),
        !system_model::edge_after(b, c),
    ensures
        !system_model::edge_after(a, c),
{
    if system_model::edge_after(a, c) {
        text::lemma_precedes_total(a.identity, b.identity);
        text::lemma_precedes_total(b.identity, c.identity);
        if text::precedes(c.identity, a.identity) {
            if text::precedes(a.identity, b.identity) {
                text::lemma_precedes_transitive(c.identity, a.identity, b.identity);
            }
        }
    }
}

proof fn lemma_after_asymmetric(a: ResolvedModel, b: ResolvedModel)
    requires
        system_model::edge_after(a, b),
    ensures
        !system_model::edge_after(b, a),
{
    if text::precedes(b.identity, a.identity) && text::precedes(a.identity, b.identity) {
        text::lemma_precedes_transitive(a.identity, b.identity, a.identity);
        text::lemma_precedes_irreflexive(a.identity);
    }
}

proof fn lemma_place_in_order(sorted: Seq<ResolvedModel>, edge: ResolvedModel)
    requires
        in_order(sorted),
    ensures
        in_order(system_model::place_edge(sorted, edge)),
        system_model::place_edge(sorted, edge).to_multiset() == sorted.to_multiset().insert(edge),
        system_model::place_edge(sorted, edge).len() == sorted.len() + 1,
        sorted.len() > 0 && system_model::edge_after(sorted.last(), edge)
            ==> system_model::place_edge(sorted, edge).last() == sorted.last(),
    decreases sorted.len(),
{
    broadcast use vstd::seq_lib::group_to_multiset_ensures;
    broadcast use vstd::multiset::group_multiset_axioms;

    let result = system_model::place_edge(sorted, edge);
    if sorted.len() == 0 || !system_model::edge_after(sorted.last(), edge) {
        assert forall|i: int, j: int| 0 <= i < j < result.len() implies !system_model::edge_after(
            #[trigger] result[i],
            #[trigger] result[j],
        ) by {
            if j == sorted.len() {
                if i < sorted.len() - 1 {
                    assert(!system_model::edge_after(sorted[i], sorted[sorted.len() - 1]));
                    lemma_after_transitive(sorted[i], sorted.last(), edge);
                }
            } else {
                assert(result[i] == sorted[i] && result[j] == sorted[j]);
            }
        }
    } else {
        let rest = sorted.drop_last();
        let last = sorted.last();
        lemma_place_in_order(rest, edge);
        let placed = system_model::place_edge(rest, edge);
        assert forall|i: int| 0 <= i < placed.len() implies !system_model::edge_after(
            #[trigger] placed[i],
            last,
        ) by {
            assert(placed.to_multiset().count(placed[i]) > 0);
            if placed[i] == edge {
                lemma_after_asymmetric(last, edge);
            } else {
                assert(rest.to_multiset().count(placed[i]) > 0);
                assert(rest.contains(placed[i]));
                let k = choose|k: int| 0 <= k < rest.len() && rest[k] == placed[i];
                assert(!system_model::edge_after(sorted[k], sorted[sorted.len() - 1]));
            }
        }
        assert forall|i: int, j: int| 0 <= i < j < result.len() implies !system_model::edge_after(
            #[trigger] result[i],
            #[trigger] result[j],
        ) by {
            if j < placed.len() {
                assert(result[i] == placed[i] && result[j] == placed[j]);
            } else {
                assert(result[i] == placed[i]);
            }
        }
        assert(rest.push(last) =~= sorted);
        assert(sorted.to_multiset() =~= rest.to_multiset().insert(last));
        assert(result.to_multiset() =~= placed.to_multiset().insert(last));
        assert(result.to_multiset() =~= sorted.to_multiset().insert(edge));
    }
}

proof fn lemma_place_bare(sorted: Seq<ResolvedModel>, edge: ResolvedModel)
    ensures
        bare_edges(system_model::place_edge(sorted, edge)) == system_model::place_edge(
            bare_edges(sorted),
            bare(edge),
        ),
    decreases sorted.len(),
{
    let models = bare_edges(sorted);
    if sorted.len() > 0 {
        assert(models.last() == bare(sorted.last()));
        assert(models.drop_last() =~= bare_edges(sorted.drop_last()));
        assert(system_model::edge_after(sorted.last(), edge) <==> system_model::edge_after(
            models.last(),
            bare(edge),
        ));
        if system_model::edge_after(sorted.last(), edge) {
            lemma_place_bare(sorted.drop_last(), edge);
            let placed = system_model::place_edge(sorted.drop_last(), edge);
            assert(bare_edges(placed.push(sorted.last())) =~= bare_edges(placed).push(
                bare(sorted.last()),
            ));
        } else {
            assert(bare_edges(sorted.push(edge)) =~= bare_edges(sorted).push(bare(edge)));
        }
    } else {
        assert(bare_edges(sorted.push(edge)) =~= bare_edges(sorted).push(bare(edge)));
    }
}

/// The edge that a declaration resolves to, without its position.
spec fn plain(leaves: Seq<LeafModel>, edge: EdgeModel) -> ResolvedModel {
    system_model::resolve(leaves, edge, 0)->Ok_0
}

spec fn resolvable(leaves: Seq<LeafModel>, edge: EdgeModel) -> bool {
    system_model::resolve(leaves, edge, 0) is Ok
}

proof fn lemma_resolved_parts(leaves: Seq<LeafModel>, edges: Seq<EdgeModel>, count: int)
    requires
        0 <= count <= edges.len(),
    ensures
        system_model::resolved(leaves, edges, count) is Ok <==> (forall|i: int|
            0 <= i < count ==> resolvable(leaves, #[trigger] edges[i])),
        system_model::resolved(leaves, edges, count) matches Ok(done) ==> {
            &&& in_order(bare_edges(done))
            &&& bare_edges(done).to_multiset() == edges.take(count).map_values(
                |edge: EdgeModel| plain(leaves, edge),
            ).to_multiset()
        },
    decreases count,
{
    broadcast use vstd::seq_lib::group_to_multiset_ensures;

    let plains = |edge: EdgeModel| plain(leaves, edge);
    if count == 0 {
        assert(bare_edges(Seq::<ResolvedModel>::empty()) =~= Seq::<ResolvedModel>::empty());
        assert(edges.take(0).map_values(plains) =~= Seq::<ResolvedModel>::empty());
    } else {
        lemma_resolved_parts(leaves, edges, count - 1);
        let before = system_model::resolved(leaves, edges, count - 1);
        let edge = edges[count - 1];
        let step = system_model::resolve(leaves, edge, (count - 1) as nat);
        assert(step is Ok <==> resolvable(leaves, edge));
        if before is Ok && step is Ok {
            assert(bare(step->Ok_0) == plain(leaves, edge));
            lemma_place_bare(before->Ok_0, step->Ok_0);
            lemma_place_in_order(bare_edges(before->Ok_0), plain(leaves, edge));
            assert(edges.take(count).map_values(plains) =~= edges.take(count - 1).map_values(
                plains,
            ).push(plain(leaves, edge)));
        }
    }
}

proof fn lemma_order_unique(x: Seq<ResolvedModel>, y: Seq<ResolvedModel>, leaves: Seq<LeafModel>)
    requires
        in_order(x),
        in_order(y),
        x.to_multiset() == y.to_multiset(),
        keys_tell(x, leaves),
        keys_tell(y, leaves),
    ensures
        x == y,
    decreases x.len(),
{
    broadcast use vstd::seq_lib::group_to_multiset_ensures;
    broadcast use vstd::multiset::group_multiset_axioms;

    assert(x.len() == x.to_multiset().len());
    assert(y.len() == y.to_multiset().len());
    if x.len() > 0 {
        assert(x.to_multiset().count(x[0]) > 0);
        assert(y.to_multiset().count(y[0]) > 0);
        assert(y.contains(x[0]));
        assert(x.contains(y[0]));
        let i = choose|i: int| 0 <= i < y.len() && y[i] == x[0];
        let j = choose|j: int| 0 <= j < x.len() && x[j] == y[0];
        if i > 0 && j > 0 {
            assert(!system_model::edge_after(x[0], x[j]));
            assert(!system_model::edge_after(y[0], y[i]));
            lemma_not_after_both(leaves, x[0], y[0]);
        }
        assert(x[0] == y[0]);
        assert(x.remove(0) =~= x.drop_first());
        assert(y.remove(0) =~= y.drop_first());
        assert(x.drop_first().to_multiset() =~= x.to_multiset().remove(x[0]));
        assert(y.drop_first().to_multiset() =~= y.to_multiset().remove(y[0]));
        lemma_order_unique(x.drop_first(), y.drop_first(), leaves);
        assert(x =~= seq![x[0]] + x.drop_first());
        assert(y =~= seq![y[0]] + y.drop_first());
    } else {
        assert(x =~= y);
    }
}

proof fn lemma_map_multiset<A, B>(x: Seq<A>, y: Seq<A>, f: spec_fn(A) -> B)
    requires
        x.to_multiset() == y.to_multiset(),
    ensures
        x.map_values(f).to_multiset() == y.map_values(f).to_multiset(),
    decreases x.len(),
{
    broadcast use vstd::seq_lib::group_to_multiset_ensures;
    broadcast use vstd::multiset::group_multiset_axioms;

    assert(x.len() == x.to_multiset().len());
    assert(y.len() == y.to_multiset().len());
    if x.len() == 0 {
        assert(x.map_values(f) =~= y.map_values(f));
    } else {
        let last = x.last();
        assert(x.contains(last)) by {
            assert(x[x.len() - 1] == last);
        }
        assert(x.to_multiset().count(last) > 0);
        assert(y.contains(last));
        let j = choose|j: int| 0 <= j < y.len() && y[j] == last;
        let shorter = y.remove(j);
        assert(x.drop_last() =~= x.remove(x.len() - 1));
        assert(x.drop_last().to_multiset() =~= x.to_multiset().remove(last));
        assert(shorter.to_multiset() =~= y.to_multiset().remove(last));
        lemma_map_multiset(x.drop_last(), shorter, f);
        assert(x.map_values(f) =~= x.drop_last().map_values(f).push(f(last)));
        assert(y.map_values(f) =~= shorter.map_values(f).insert(j, f(last)));
        vstd::seq_lib::to_multiset_insert(shorter.map_values(f), j, f(last));
    }
}

proof fn lemma_edge_json_bare(edges: Seq<ResolvedModel>)
    ensures
        edges.map_values(|edge: ResolvedModel| system_model::edge_json(edge)) == bare_edges(
            edges,
        ).map_values(|edge: ResolvedModel| system_model::edge_json(edge)),
{
    assert(edges.map_values(|edge: ResolvedModel| system_model::edge_json(edge)) =~= bare_edges(
        edges,
    ).map_values(|edge: ResolvedModel| system_model::edge_json(edge)));
}

/// The order in which edges are declared changes neither whether a system composes nor
/// its order of evaluation nor its identity.
pub proof fn law_identity_ignores_edge_order(
    leaves: Seq<LeafModel>,
    edges: Seq<EdgeModel>,
    reordered: Seq<EdgeModel>,
)
    requires
        edges.to_multiset() == reordered.to_multiset(),
        system_model::system_of(leaves, edges) is Ok,
    ensures
        system_model::system_of(leaves, reordered) is Ok,
        bare_edges(system_model::system_of(leaves, reordered)->Ok_0.edges) == bare_edges(
            system_model::system_of(leaves, edges)->Ok_0.edges,
        ),
        system_model::system_payload(
            leaves,
            system_model::system_of(leaves, reordered)->Ok_0.edges,
        ) == system_model::system_payload(
            leaves,
            system_model::system_of(leaves, edges)->Ok_0.edges,
        ),
{
    broadcast use vstd::seq_lib::group_to_multiset_ensures;

    let count = edges.len() as int;
    let plains = |edge: EdgeModel| plain(leaves, edge);
    assert(edges.len() == edges.to_multiset().len());
    assert(reordered.len() == reordered.to_multiset().len());
    lemma_resolved_parts(leaves, edges, count);
    lemma_resolved_parts(leaves, reordered, count);
    assert forall|i: int| 0 <= i < count implies resolvable(leaves, #[trigger] reordered[i]) by {
        assert(reordered.contains(reordered[i]));
        assert(reordered.to_multiset().count(reordered[i]) > 0);
        assert(edges.contains(reordered[i]));
        let k = choose|k: int| 0 <= k < edges.len() && edges[k] == reordered[i];
        assert(resolvable(leaves, edges[k]));
    }
    let first = system_model::resolved(leaves, edges, count)->Ok_0;
    let second = system_model::resolved(leaves, reordered, count)->Ok_0;
    assert(edges.take(count) =~= edges);
    assert(reordered.take(count) =~= reordered);
    lemma_map_multiset(edges, reordered, plains);
    system_model::lemma_resolved_valid(leaves, edges, count);
    system_model::lemma_resolved_valid(leaves, reordered, count);
    assert(keys_tell(bare_edges(first), leaves)) by {
        assert forall|i: int| 0 <= i < first.len() implies system_model::edge_valid(
            leaves,
            #[trigger] bare_edges(first)[i],
        ) && bare_edges(first)[i].action == 0 by {
            assert(system_model::edge_valid(leaves, first[i]));
        }
    }
    assert(keys_tell(bare_edges(second), leaves)) by {
        assert forall|i: int| 0 <= i < second.len() implies system_model::edge_valid(
            leaves,
            #[trigger] bare_edges(second)[i],
        ) && bare_edges(second)[i].action == 0 by {
            assert(system_model::edge_valid(leaves, second[i]));
        }
    }
    lemma_order_unique(bare_edges(first), bare_edges(second), leaves);
    lemma_edge_json_bare(first);
    lemma_edge_json_bare(second);
}

spec fn kind_code() -> spec_fn(RowKind) -> Seq<char> {
    |kind: RowKind| initialization::kind_json(kind)
}

proof fn lemma_kinds_readable()
    ensures
        digest::readable(kind_code(), |kind: RowKind| true),
{
    reveal_strlit("\"Differential\"");
    reveal_strlit("\"Algebraic\"");
    let code = kind_code();
    assert forall|x: RowKind, x_rest: Seq<char>, y: RowKind, y_rest: Seq<char>|
        #![trigger code(x) + x_rest, code(y) + y_rest]
        code(x) + x_rest == code(y) + y_rest implies x == y && x_rest == y_rest by {
        assert((code(x) + x_rest)[1] == code(x)[1]);
        assert((code(y) + y_rest)[1] == code(y)[1]);
        digest::lemma_same_beginning(code(x), x_rest, y_rest);
    }
}

/// A list of row kinds can be read back.
pub proof fn lemma_kinds_read(
    a: Option<Seq<RowKind>>,
    a_rest: Seq<char>,
    b: Option<Seq<RowKind>>,
    b_rest: Seq<char>,
)
    requires
        system_model::kinds_json(a) + a_rest == system_model::kinds_json(b) + b_rest,
    ensures
        a == b,
        a_rest == b_rest,
{
    reveal_strlit("null");
    reveal_strlit("[");
    reveal_strlit("]");
    let left = system_model::kinds_json(a) + a_rest;
    let right = system_model::kinds_json(b) + b_rest;
    assert(left[0] == right[0]);
    assert(a is Some <==> left[0] == '[');
    assert(b is Some <==> right[0] == '[');
    if a is Some {
        let a_kinds = digest::comma_joined(a->Some_0.map_values(kind_code()));
        let b_kinds = digest::comma_joined(b->Some_0.map_values(kind_code()));
        assert(a->Some_0.map_values(kind_code()) =~= a->Some_0.map_values(
            |kind: RowKind| initialization::kind_json(kind),
        ));
        assert(b->Some_0.map_values(kind_code()) =~= b->Some_0.map_values(
            |kind: RowKind| initialization::kind_json(kind),
        ));
        assert(left.skip(1) =~= a_kinds + seq![']'] + a_rest);
        assert(right.skip(1) =~= b_kinds + seq![']'] + b_rest);
        lemma_kinds_readable();
        digest::lemma_array_read(
            kind_code(),
            |kind: RowKind| true,
            a->Some_0,
            a_rest,
            b->Some_0,
            b_rest,
        );
    } else {
        digest::lemma_same_beginning("null"@, a_rest, b_rest);
    }
}

/// What a leaf's JSON object holds behind its name, and so on to the end.
spec fn leaf_from_kinds(leaf: LeafModel, rest: Seq<char>) -> Seq<char> {
    system_model::kinds_json(leaf.kinds) + ("}"@ + rest)
}

spec fn leaf_from_binding(leaf: LeafModel, rest: Seq<char>) -> Seq<char> {
    digest::json_string(binding::binding_identity(leaf.pairs)) + (",\"row_kinds\":"@
        + leaf_from_kinds(leaf, rest))
}

spec fn leaf_from_layout(leaf: LeafModel, rest: Seq<char>) -> Seq<char> {
    digest::json_string(layout::identity_of(leaf.blocks)) + (",\"binding\":"@ + leaf_from_binding(
        leaf,
        rest,
    ))
}

spec fn leaf_from_identity(leaf: LeafModel, rest: Seq<char>) -> Seq<char> {
    digest::json_string(leaf.identity) + (",\"layout\":"@ + leaf_from_layout(leaf, rest))
}

proof fn lemma_leaf_parts(leaf: LeafModel, rest: Seq<char>)
    ensures
        system_model::leaf_json(leaf) + rest == "{\"name\":"@ + (digest::json_string(leaf.name) + (
        ",\"identity\":"@ + leaf_from_identity(leaf, rest))),
{
    assert(system_model::leaf_json(leaf) + rest =~= "{\"name\":"@ + (digest::json_string(leaf.name)
        + (",\"identity\":"@ + leaf_from_identity(leaf, rest))));
}

proof fn lemma_leaf_read(a: LeafModel, a_rest: Seq<char>, b: LeafModel, b_rest: Seq<char>)
    requires
        system_model::leaf_valid(a),
        system_model::leaf_valid(b),
        system_model::leaf_json(a) + a_rest == system_model::leaf_json(b) + b_rest,
    ensures
        a == b,
        a_rest == b_rest,
{
    lemma_leaf_parts(a, a_rest);
    lemma_leaf_parts(b, b_rest);
    let a_named = ",\"identity\":"@ + leaf_from_identity(a, a_rest);
    let b_named = ",\"identity\":"@ + leaf_from_identity(b, b_rest);
    digest::lemma_same_beginning(
        "{\"name\":"@,
        digest::json_string(a.name) + a_named,
        digest::json_string(b.name) + b_named,
    );
    digest::lemma_json_string_read(a.name, a_named, b.name, b_named);
    digest::lemma_same_beginning(
        ",\"identity\":"@,
        leaf_from_identity(a, a_rest),
        leaf_from_identity(b, b_rest),
    );
    let a_identified = ",\"layout\":"@ + leaf_from_layout(a, a_rest);
    let b_identified = ",\"layout\":"@ + leaf_from_layout(b, b_rest);
    digest::lemma_json_string_read(a.identity, a_identified, b.identity, b_identified);
    digest::lemma_same_beginning(
        ",\"layout\":"@,
        leaf_from_layout(a, a_rest),
        leaf_from_layout(b, b_rest),
    );
    digest::lemma_json_string_read(
        layout::identity_of(a.blocks),
        ",\"binding\":"@ + leaf_from_binding(a, a_rest),
        layout::identity_of(b.blocks),
        ",\"binding\":"@ + leaf_from_binding(b, b_rest),
    );
    layout::law_layout_identity_is_injective(a.blocks, b.blocks);
    digest::lemma_same_beginning(
        ",\"binding\":"@,
        leaf_from_binding(a, a_rest),
        leaf_from_binding(b, b_rest),
    );
    digest::lemma_json_string_read(
        binding::binding_identity(a.pairs),
        ",\"row_kinds\":"@ + leaf_from_kinds(a, a_rest),
        binding::binding_identity(b.pairs),
        ",\"row_kinds\":"@ + leaf_from_kinds(b, b_rest),
    );
    binding::law_binding_identity_is_injective(a.pairs, b.pairs);
    digest::lemma_same_beginning(
        ",\"row_kinds\":"@,
        leaf_from_kinds(a, a_rest),
        leaf_from_kinds(b, b_rest),
    );
    lemma_kinds_read(a.kinds, "}"@ + a_rest, b.kinds, "}"@ + b_rest);
    digest::lemma_same_beginning("}"@, a_rest, b_rest);
}

spec fn edge_from_columns(edge: ResolvedModel, rest: Seq<char>) -> Seq<char> {
    text::decimal(edge.columns) + seq![','] + ("\"identity\":"@ + (digest::json_string(edge.identity)
        + ("}"@ + rest)))
}

spec fn edge_from_rows(edge: ResolvedModel, rest: Seq<char>) -> Seq<char> {
    text::decimal(edge.rows) + seq![','] + ("\"columns\":"@ + edge_from_columns(edge, rest))
}

spec fn edge_from_column(edge: ResolvedModel, rest: Seq<char>) -> Seq<char> {
    text::decimal(edge.column) + seq![','] + ("\"argument\":"@ + (system_model::argument_json(
        edge.argument,
    ) + (",\"rows\":"@ + edge_from_rows(edge, rest))))
}

proof fn lemma_edge_parts(edge: ResolvedModel, rest: Seq<char>)
    ensures
        system_model::edge_json(edge) + rest == "{\"row\":"@ + (text::decimal(edge.row) + seq![',']
            + ("\"column\":"@ + edge_from_column(edge, rest))),
{
    reveal_strlit(",\"column\":");
    reveal_strlit("\"column\":");
    reveal_strlit(",\"argument\":");
    reveal_strlit("\"argument\":");
    reveal_strlit(",\"columns\":");
    reveal_strlit("\"columns\":");
    reveal_strlit(",\"identity\":");
    reveal_strlit("\"identity\":");
    assert(",\"column\":"@ =~= seq![','] + "\"column\":"@);
    assert(",\"argument\":"@ =~= seq![','] + "\"argument\":"@);
    assert(",\"columns\":"@ =~= seq![','] + "\"columns\":"@);
    assert(",\"identity\":"@ =~= seq![','] + "\"identity\":"@);
    let front = "{\"row\":"@ + text::decimal(edge.row) + ",\"column\":"@ + text::decimal(edge.column)
        + ",\"argument\":"@ + system_model::argument_json(edge.argument) + ",\"rows\":"@;
    let back = text::decimal(edge.rows) + ",\"columns\":"@ + text::decimal(edge.columns)
        + ",\"identity\":"@ + digest::json_string(edge.identity) + "}"@;
    assert(system_model::edge_json(edge) =~= front + back);
    assert(back + rest =~= edge_from_rows(edge, rest));
    assert(front + edge_from_rows(edge, rest) =~= "{\"row\":"@ + (text::decimal(edge.row) + seq![',']
        + ("\"column\":"@ + edge_from_column(edge, rest))));
    assert(system_model::edge_json(edge) + rest =~= front + (back + rest));
}

proof fn lemma_argument_read(
    a: CouplingArgument,
    a_rest: Seq<char>,
    b: CouplingArgument,
    b_rest: Seq<char>,
)
    requires
        system_model::argument_json(a) + a_rest == system_model::argument_json(b) + b_rest,
    ensures
        a == b,
        a_rest == b_rest,
{
    reveal_strlit("\"State\"");
    reveal_strlit("\"Rate\"");
    let left = system_model::argument_json(a) + a_rest;
    let right = system_model::argument_json(b) + b_rest;
    assert(left[1] == system_model::argument_json(a)[1]);
    assert(right[1] == system_model::argument_json(b)[1]);
    digest::lemma_same_beginning(system_model::argument_json(a), a_rest, b_rest);
}

proof fn lemma_edge_read(a: ResolvedModel, a_rest: Seq<char>, b: ResolvedModel, b_rest: Seq<char>)
    requires
        a.action == b.action,
        system_model::edge_json(a) + a_rest == system_model::edge_json(b) + b_rest,
    ensures
        a == b,
        a_rest == b_rest,
{
    lemma_edge_parts(a, a_rest);
    lemma_edge_parts(b, b_rest);
    let a_row = "\"column\":"@ + edge_from_column(a, a_rest);
    let b_row = "\"column\":"@ + edge_from_column(b, b_rest);
    digest::lemma_same_beginning(
        "{\"row\":"@,
        text::decimal(a.row) + seq![','] + a_row,
        text::decimal(b.row) + seq![','] + b_row,
    );
    text::lemma_numeral_split(a.row, a_row, b.row, b_row, ',');
    digest::lemma_same_beginning(
        "\"column\":"@,
        edge_from_column(a, a_rest),
        edge_from_column(b, b_rest),
    );
    let a_argument = system_model::argument_json(a.argument) + (",\"rows\":"@ + edge_from_rows(
        a,
        a_rest,
    ));
    let b_argument = system_model::argument_json(b.argument) + (",\"rows\":"@ + edge_from_rows(
        b,
        b_rest,
    ));
    text::lemma_numeral_split(
        a.column,
        "\"argument\":"@ + a_argument,
        b.column,
        "\"argument\":"@ + b_argument,
        ',',
    );
    digest::lemma_same_beginning("\"argument\":"@, a_argument, b_argument);
    lemma_argument_read(
        a.argument,
        ",\"rows\":"@ + edge_from_rows(a, a_rest),
        b.argument,
        ",\"rows\":"@ + edge_from_rows(b, b_rest),
    );
    digest::lemma_same_beginning(
        ",\"rows\":"@,
        edge_from_rows(a, a_rest),
        edge_from_rows(b, b_rest),
    );
    text::lemma_numeral_split(
        a.rows,
        "\"columns\":"@ + edge_from_columns(a, a_rest),
        b.rows,
        "\"columns\":"@ + edge_from_columns(b, b_rest),
        ',',
    );
    digest::lemma_same_beginning(
        "\"columns\":"@,
        edge_from_columns(a, a_rest),
        edge_from_columns(b, b_rest),
    );
    let a_identity = digest::json_string(a.identity) + ("}"@ + a_rest);
    let b_identity = digest::json_string(b.identity) + ("}"@ + b_rest);
    text::lemma_numeral_split(
        a.columns,
        "\"identity\":"@ + a_identity,
        b.columns,
        "\"identity\":"@ + b_identity,
        ',',
    );
    digest::lemma_same_beginning("\"identity\":"@, a_identity, b_identity);
    digest::lemma_json_string_read(a.identity, "}"@ + a_rest, b.identity, "}"@ + b_rest);
    digest::lemma_same_beginning("}"@, a_rest, b_rest);
}

spec fn leaf_code() -> spec_fn(LeafModel) -> Seq<char> {
    |leaf: LeafModel| system_model::leaf_json(leaf)
}

spec fn edge_code() -> spec_fn(ResolvedModel) -> Seq<char> {
    |edge: ResolvedModel| system_model::edge_json(edge)
}

proof fn lemma_leaves_readable()
    ensures
        digest::readable(leaf_code(), |leaf: LeafModel| system_model::leaf_valid(leaf)),
{
    let code = leaf_code();
    assert forall|x: LeafModel, x_rest: Seq<char>, y: LeafModel, y_rest: Seq<char>|
        #![trigger code(x) + x_rest, code(y) + y_rest]
        system_model::leaf_valid(x) && system_model::leaf_valid(y) && code(x) + x_rest == code(y)
            + y_rest implies x == y && x_rest == y_rest by {
        lemma_leaf_read(x, x_rest, y, y_rest);
    }
    reveal_strlit("{\"name\":");
    assert forall|x: LeafModel| code(x).len() > 0 && (#[trigger] code(x))[0] != ']' by {
        lemma_leaf_parts(x, Seq::empty());
        assert(code(x) =~= code(x) + Seq::<char>::empty());
    }
}

proof fn lemma_edges_readable()
    ensures
        digest::readable(edge_code(), |edge: ResolvedModel| edge.action == 0),
{
    let code = edge_code();
    assert forall|x: ResolvedModel, x_rest: Seq<char>, y: ResolvedModel, y_rest: Seq<char>|
        #![trigger code(x) + x_rest, code(y) + y_rest]
        x.action == 0 && y.action == 0 && code(x) + x_rest == code(y) + y_rest implies x == y
        && x_rest == y_rest by {
        lemma_edge_read(x, x_rest, y, y_rest);
    }
    reveal_strlit("{\"row\":");
    assert forall|x: ResolvedModel| code(x).len() > 0 && (#[trigger] code(x))[0] != ']' by {
        lemma_edge_parts(x, Seq::empty());
        assert(code(x) =~= code(x) + Seq::<char>::empty());
    }
}

/// What the payload holds behind the opening of its leaf array.
spec fn payload_tail(leaves: Seq<LeafModel>, edges: Seq<ResolvedModel>) -> Seq<char> {
    digest::comma_joined(leaves.map_values(leaf_code())) + seq![']'] + (",\"edges\":["@ + (
    digest::comma_joined(bare_edges(edges).map_values(edge_code())) + seq![']'] + "}"@))
}

proof fn lemma_payload_parts(leaves: Seq<LeafModel>, edges: Seq<ResolvedModel>)
    ensures
        system_model::system_payload(leaves, edges)
            == "{\"schema\":\"krasis-coupled-system/1\",\"leaves\":["@ + payload_tail(leaves, edges),
{
    lemma_edge_json_bare(edges);
    reveal_strlit("],\"edges\":[");
    reveal_strlit(",\"edges\":[");
    reveal_strlit("]}");
    reveal_strlit("}");
    assert("],\"edges\":["@ =~= seq![']'] + ",\"edges\":["@);
    assert("]}"@ =~= seq![']'] + "}"@);
    assert(leaves.map_values(leaf_code()) =~= leaves.map_values(
        |leaf: LeafModel| system_model::leaf_json(leaf),
    ));
    assert(bare_edges(edges).map_values(edge_code()) =~= bare_edges(edges).map_values(
        |edge: ResolvedModel| system_model::edge_json(edge),
    ));
    assert(system_model::system_payload(leaves, edges)
        =~= "{\"schema\":\"krasis-coupled-system/1\",\"leaves\":["@ + payload_tail(leaves, edges));
}

/// The text behind a system's identity determines its leaves and, but for the order
/// in which they were declared, its edges.
pub proof fn law_system_payload_is_injective(
    leaves: Seq<LeafModel>,
    edges: Seq<ResolvedModel>,
    other_leaves: Seq<LeafModel>,
    other_edges: Seq<ResolvedModel>,
)
    requires
        system_model::leaves_valid(leaves),
        system_model::leaves_valid(other_leaves),
        system_model::system_payload(leaves, edges) == system_model::system_payload(
            other_leaves,
            other_edges,
        ),
    ensures
        leaves == other_leaves,
        bare_edges(edges) == bare_edges(other_edges),
{
    lemma_payload_parts(leaves, edges);
    lemma_payload_parts(other_leaves, other_edges);
    digest::lemma_same_beginning(
        "{\"schema\":\"krasis-coupled-system/1\",\"leaves\":["@,
        payload_tail(leaves, edges),
        payload_tail(other_leaves, other_edges),
    );
    let listed = digest::comma_joined(bare_edges(edges).map_values(edge_code())) + seq![']'] + "}"@;
    let other_listed = digest::comma_joined(bare_edges(other_edges).map_values(edge_code()))
        + seq![']'] + "}"@;
    lemma_leaves_readable();
    lemma_edges_readable();
    digest::lemma_array_read(
        leaf_code(),
        |leaf: LeafModel| system_model::leaf_valid(leaf),
        leaves,
        ",\"edges\":["@ + listed,
        other_leaves,
        ",\"edges\":["@ + other_listed,
    );
    digest::lemma_same_beginning(",\"edges\":["@, listed, other_listed);
    digest::lemma_array_read(
        edge_code(),
        |edge: ResolvedModel| edge.action == 0,
        bare_edges(edges),
        "}"@,
        bare_edges(other_edges),
        "}"@,
    );
}

/// Whether an edge may be evaluated before another: by the leaf it leads into, then the leaf
/// it comes from, then state before rate, then the order of their identities.
pub open spec fn may_come_first(left: ResolvedModel, right: ResolvedModel) -> bool {
    ||| left.row < right.row
    ||| left.row == right.row && left.column < right.column
    ||| left.row == right.row && left.column == right.column && left.argument is State
        && right.argument is Rate
    ||| left.row == right.row && left.column == right.column && left.argument == right.argument
        && !text::precedes(right.identity, left.identity)
}

proof fn lemma_resolved_in_order(leaves: Seq<LeafModel>, edges: Seq<EdgeModel>, count: int)
    requires
        0 <= count <= edges.len(),
        system_model::resolved(leaves, edges, count) is Ok,
    ensures
        in_order(system_model::resolved(leaves, edges, count)->Ok_0),
    decreases count,
{
    if count > 0 {
        lemma_resolved_in_order(leaves, edges, count - 1);
        lemma_place_in_order(
            system_model::resolved(leaves, edges, count - 1)->Ok_0,
            system_model::resolve(leaves, edges[count - 1], (count - 1) as nat)->Ok_0,
        );
    }
}

/// The edges of a composed system stand in the order in which they are evaluated.
pub proof fn law_edges_stand_in_order(
    leaves: Seq<LeafModel>,
    edges: Seq<EdgeModel>,
    composed: SystemModel,
    i: int,
    j: int,
)
    requires
        system_model::system_of(leaves, edges) == Ok::<SystemModel, ErrorModel>(composed),
        0 <= i < j < composed.edges.len(),
    ensures
        may_come_first(composed.edges[i], composed.edges[j]),
{
    lemma_resolved_in_order(leaves, edges, edges.len() as int);
    assert(!system_model::edge_after(composed.edges[i], composed.edges[j]));
}

} // verus!
