//! Library-level laws: properties that relate the assembly contracts to each
//! other, stated once and proved from what the contracts say.

use vstd::prelude::*;
use crate::assembly::base_of;
use crate::assembly::graph_ok;
use crate::assembly::incident;
use crate::assembly::incident_rels;
use crate::assembly::lemma_node_map_ids;
use crate::assembly::node_views;
use crate::assembly::rel_row_views;
use crate::assembly::row_ids;
use crate::assembly::single_ok;
use crate::assembly::sorted_node_ids;
use crate::model::GraphNode;
use crate::model::NodeRow;
use crate::model::NodeView;
use crate::model::RelView;
use crate::model::RelationshipRow;
use crate::model::rel_of_row;
use crate::order::lemma_sorted_rels_unique;

verus! {

/// Idempotent re-fetch: assembling the same node row with the same
/// relationship rows twice yields structurally equal nodes — the single-node
/// contract pins the result down to its view, so an unmodified database
/// answers a repeated fetch with the same node.
pub proof fn lemma_fetch_deterministic(
    row: NodeRow,
    rel_rows: Seq<RelationshipRow>,
    n1: GraphNode,
    n2: GraphNode,
)
    requires
        single_ok(row, rel_rows, n1),
        single_ok(row, rel_rows, n2),
    ensures
        n1@ == n2@,
{
    lemma_sorted_rels_unique(n1@.relationships, n2@.relationships);
    assert(n1@ =~= n2@);
}

/// Symmetry: in whole-graph mode, every relationship row's value is present
/// in both the start node's and the end node's adjacency view (in the same
/// node's view once, when the row is a self-loop: the views are sets).
pub proof fn lemma_whole_graph_symmetry(
    node_rows: Seq<NodeRow>,
    rel_rows: Seq<RelationshipRow>,
    out: Seq<GraphNode>,
    j: int,
)
    requires
        graph_ok(node_rows, rel_rows, out),
        0 <= j < rel_rows.len(),
    ensures
        exists|k: int|
            0 <= k < out.len() && (#[trigger] out[k])@.id == rel_rows[j]@.start_identifier
                && out[k]@.relationships.to_set().contains(rel_of_row(rel_rows[j]@)),
        exists|k: int|
            0 <= k < out.len() && (#[trigger] out[k])@.id == rel_rows[j]@.end_identifier
                && out[k]@.relationships.to_set().contains(rel_of_row(rel_rows[j]@)),
{
    let sid = rel_rows[j]@.start_identifier;
    let eid = rel_rows[j]@.end_identifier;
    let ks = lemma_endpoint_index(node_rows, rel_rows, out, sid);
    let ke = lemma_endpoint_index(node_rows, rel_rows, out, eid);
    assert(incident(rel_rows[j]@, sid));
    assert(incident(rel_rows[j]@, eid));
    assert(incident_rels(rel_rows, sid).contains(rel_of_row(rel_rows[j]@)));
    assert(incident_rels(rel_rows, eid).contains(rel_of_row(rel_rows[j]@)));
    assert(out[ks]@.relationships.to_set().contains(rel_of_row(rel_rows[j]@)));
    assert(out[ke]@.relationships.to_set().contains(rel_of_row(rel_rows[j]@)));
}

/// In a successfully assembled graph, every identifier a node row mentions
/// has an output node; returns its index.
proof fn lemma_endpoint_index(
    node_rows: Seq<NodeRow>,
    rel_rows: Seq<RelationshipRow>,
    out: Seq<GraphNode>,
    id: int,
) -> (k: int)
    requires
        graph_ok(node_rows, rel_rows, out),
        row_ids(node_rows).contains(id),
    ensures
        0 <= k < out.len(),
        out[k]@.id == id,
{
    lemma_node_map_ids(node_rows);
    let x = choose|x: NodeView| crate::assembly::node_map_views(node_rows).contains(x) && x.id
        == id;
    let bases = node_views(out).map_values(|v: NodeView| base_of(v));
    assert(bases.to_set().contains(x));
    let k = choose|k: int| 0 <= k < bases.len() && bases[k] == x;
    assert(bases[k] == base_of(node_views(out)[k]));
    assert(node_views(out)[k] == out[k]@);
    k
}

/// The incident set of a node depends only on which relationship rows
/// arrived, never on the order they arrived in.
pub proof fn lemma_incident_rels_order_independent(
    rows1: Seq<RelationshipRow>,
    rows2: Seq<RelationshipRow>,
    id: int,
)
    requires
        rel_row_views(rows1).to_set() == rel_row_views(rows2).to_set(),
    ensures
        incident_rels(rows1, id) == incident_rels(rows2, id),
{
    lemma_incident_subset(rows1, rows2, id);
    lemma_incident_subset(rows2, rows1, id);
    assert(incident_rels(rows1, id) =~= incident_rels(rows2, id));
}

proof fn lemma_incident_subset(rows1: Seq<RelationshipRow>, rows2: Seq<RelationshipRow>, id: int)
    requires
        rel_row_views(rows1).to_set() == rel_row_views(rows2).to_set(),
    ensures
        forall|rv: RelView|
            incident_rels(rows1, id).contains(rv) ==> incident_rels(rows2, id).contains(rv),
{
    assert forall|rv: RelView| incident_rels(rows1, id).contains(rv) implies incident_rels(
        rows2,
        id,
    ).contains(rv) by {
        let k = choose|k: int|
            0 <= k < rows1.len() && incident(#[trigger] rows1[k]@, id) && rv == rel_of_row(
                rows1[k]@,
            );
        assert(rel_row_views(rows1)[k] == rows1[k]@);
        assert(rel_row_views(rows1).contains(rows1[k]@));
        assert(rel_row_views(rows1).to_set().contains(rows1[k]@));
        assert(rel_row_views(rows2).to_set().contains(rows1[k]@));
        let m = choose|m: int| 0 <= m < rel_row_views(rows2).len() && rel_row_views(rows2)[m]
            == rows1[k]@;
        assert(rows2[m]@ == rows1[k]@);
        assert(incident(rows2[m]@, id) && rv == rel_of_row(rows2[m]@));
    }
}

/// Two identifier-keyed node sequences with the same elements are equal: the
/// ascending identifier order admits exactly one arrangement.
proof fn lemma_sorted_ids_unique(a: Seq<NodeView>, b: Seq<NodeView>)
    requires
        sorted_node_ids(a),
        sorted_node_ids(b),
        a.to_set() == b.to_set(),
    ensures
        a == b,
    decreases a.len(),
{
    if a.len() == 0 {
        if b.len() > 0 {
            assert(b.to_set().contains(b[0]));
            assert(a.to_set().contains(b[0]));
        }
        assert(a =~= b);
    } else {
        assert(a.to_set().contains(a[0]));
        assert(b.to_set().contains(a[0]));
        assert(b.to_set().contains(b[0]));
        assert(a.to_set().contains(b[0]));
        let i = choose|i: int| 0 <= i < b.len() && b[i] == a[0];
        let j = choose|j: int| 0 <= j < a.len() && a[j] == b[0];
        if i > 0 {
            assert(b[0].id < b[i].id);
            if j > 0 {
                assert(a[0].id < a[j].id);
                assert(false);
            }
            assert(false);
        }
        assert(a[0] == b[0]);
        assert(a.drop_first().to_set() =~= b.drop_first().to_set()) by {
            assert forall|x: NodeView| a.drop_first().to_set().contains(x) implies b.drop_first()
                .to_set().contains(x) by {
                let k = choose|k: int| 0 <= k < a.drop_first().len() && a.drop_first()[k] == x;
                assert(a[k + 1] == x);
                assert(a[0].id < x.id);
                assert(a.to_set().contains(x));
                assert(b.to_set().contains(x));
                let m = choose|m: int| 0 <= m < b.len() && b[m] == x;
                assert(m != 0);
                assert(b.drop_first()[m - 1] == x);
                assert(b.drop_first().contains(x));
            }
            assert forall|x: NodeView| b.drop_first().to_set().contains(x) implies a.drop_first()
                .to_set().contains(x) by {
                let k = choose|k: int| 0 <= k < b.drop_first().len() && b.drop_first()[k] == x;
                assert(b[k + 1] == x);
                assert(b[0].id < x.id);
                assert(b.to_set().contains(x));
                assert(a.to_set().contains(x));
                let m = choose|m: int| 0 <= m < a.len() && a[m] == x;
                assert(m != 0);
                assert(a.drop_first()[m - 1] == x);
                assert(a.drop_first().contains(x));
            }
        }
        lemma_sorted_ids_unique(a.drop_first(), b.drop_first());
        assert(a.drop_first().len() == b.drop_first().len());
        assert forall|k: int| 0 <= k < a.len() implies a[k] == b[k] by {
            if k > 0 {
                assert(a[k] == a.drop_first()[k - 1]);
                assert(b[k] == b.drop_first()[k - 1]);
            }
        }
        assert(a =~= b);
    }
}

/// Determinism of whole-graph assembly: two successful assemblies from the
/// same node rows and the same set of relationship rows — however the
/// relationship rows were ordered on arrival — yield the same output, node
/// for node, in the same ascending identifier order, each adjacency view
/// iterating in the same relationship order.
pub proof fn lemma_assembly_order_independent(
    node_rows: Seq<NodeRow>,
    rel1: Seq<RelationshipRow>,
    rel2: Seq<RelationshipRow>,
    out1: Seq<GraphNode>,
    out2: Seq<GraphNode>,
)
    requires
        graph_ok(node_rows, rel1, out1),
        graph_ok(node_rows, rel2, out2),
        rel_row_views(rel1).to_set() == rel_row_views(rel2).to_set(),
    ensures
        node_views(out1) == node_views(out2),
{
    let v1 = node_views(out1);
    let v2 = node_views(out2);
    let b1 = v1.map_values(|v: NodeView| base_of(v));
    let b2 = v2.map_values(|v: NodeView| base_of(v));
    assert forall|p: int, q: int| 0 <= p < q < b1.len() implies b1[p].id < b1[q].id by {
        assert(b1[p] == base_of(v1[p]) && b1[q] == base_of(v1[q]));
    }
    assert forall|p: int, q: int| 0 <= p < q < b2.len() implies b2[p].id < b2[q].id by {
        assert(b2[p] == base_of(v2[p]) && b2[q] == base_of(v2[q]));
    }
    lemma_sorted_ids_unique(b1, b2);
    assert forall|k: int| 0 <= k < v1.len() implies v1[k] == v2[k] by {
        assert(b1[k] == base_of(v1[k]));
        assert(b2[k] == base_of(v2[k]));
        assert(v1[k] == out1[k]@ && v2[k] == out2[k]@);
        lemma_incident_rels_order_independent(rel1, rel2, v1[k].id);
        assert(out1[k]@.relationships.to_set() == out2[k]@.relationships.to_set());
        lemma_sorted_rels_unique(out1[k]@.relationships, out2[k]@.relationships);
        assert(v1[k] =~= v2[k]);
    }
    assert(v1 =~= v2);
}

} // verus!
