//! Graph assembly: turning flat node and relationship rows into consistent
//! `GraphNode` values.
//!
//! Both operating modes share one algorithm: build the node set first (every
//! node row must carry a `uri` property), then convert each relationship row
//! and insert it into the adjacency view of the node(s) it touches, keeping
//! the derived neighbor count equal to the adjacency cardinality at every
//! step.

use vstd::prelude::*;
use crate::model::GraphError;
use crate::model::GraphNode;
use crate::model::NodeRelationship;
use crate::model::NodeRow;
use crate::model::NodeView;
use crate::model::RelRowView;
use crate::model::RelView;
use crate::model::RelationshipRow;
use crate::model::rel_of_row;
use crate::model::row_has_uri_binding;
use crate::model::row_uri;
use crate::model::to_node_relationship;
use crate::model::uri_of_row;
use crate::order::insert_relationship;
use crate::order::rel_views;
use crate::order::sorted_rels;

verus! {

/// Whether a relationship row touches the node with this identifier.
pub open spec fn incident(r: RelRowView, id: int) -> bool {
    r.start_identifier == id || r.end_identifier == id
}

/// The set of relationship values denoted by the rows incident to `id`.
pub open spec fn incident_rels(rows: Seq<RelationshipRow>, id: int) -> Set<RelView> {
    Set::new(
        |rv: RelView|
            exists|k: int|
                0 <= k < rows.len() && incident(#[trigger] rows[k]@, id) && rv == rel_of_row(
                    rows[k]@,
                ),
    )
}

/// The views of a sequence of relationship rows.
pub open spec fn rel_row_views(rows: Seq<RelationshipRow>) -> Seq<RelRowView> {
    rows.map_values(|r: RelationshipRow| r@)
}

/// The error a bad node row is reported with: `TypeMismatch` when `uri` is
/// bound to a non-text value, `MissingProperty` when it is not bound at all.
pub open spec fn expected_node_error(row: NodeRow) -> GraphError {
    if row_has_uri_binding(row@) {
        GraphError::TypeMismatch(row.identifier)
    } else {
        GraphError::MissingProperty(row.identifier)
    }
}

/// The views of a sequence of nodes.
pub open spec fn node_views(s: Seq<GraphNode>) -> Seq<NodeView> {
    s.map_values(|n: GraphNode| n@)
}

/// Node identifiers strictly ascending: the sequence is keyed by identifier.
pub open spec fn sorted_node_ids(s: Seq<NodeView>) -> bool {
    forall|i: int, j: int| 0 <= i < j < s.len() ==> s[i].id < s[j].id
}

/// A node view with the same identity but an empty adjacency view; assembly
/// starts every node in this state.
pub open spec fn base_of(v: NodeView) -> NodeView {
    NodeView { id: v.id, uri: v.uri, labels: v.labels, relationships: Seq::empty(), number_of_neighbors: 0 }
}

/// The fresh node a node row denotes, before any relationship is attached.
pub open spec fn fresh_node_view(row: NodeRow) -> NodeView {
    NodeView {
        id: row.identifier as int,
        uri: row_uri(row@)->Some_0,
        labels: row@.labels,
        relationships: Seq::empty(),
        number_of_neighbors: 0,
    }
}

/// The node map a sequence of node rows denotes: one fresh node per
/// identifier, a later row with the same identifier replacing an earlier one.
pub open spec fn node_map_views(rows: Seq<NodeRow>) -> Set<NodeView>
    decreases rows.len(),
{
    if rows.len() == 0 {
        Set::empty()
    } else {
        node_map_views(rows.drop_last()).filter(
            |x: NodeView| x.id != rows.last().identifier as int,
        ).insert(fresh_node_view(rows.last()))
    }
}

/// The identifiers a sequence of node rows mentions.
pub open spec fn row_ids(rows: Seq<NodeRow>) -> Set<int> {
    Set::new(|id: int| exists|k: int| 0 <= k < rows.len() && (#[trigger] rows[k]).identifier == id)
}

/// The node map mentions exactly the identifiers of its rows.
pub proof fn lemma_node_map_ids(rows: Seq<NodeRow>)
    ensures
        forall|id: int|
            #[trigger] row_ids(rows).contains(id) <==> exists|x: NodeView|
                node_map_views(rows).contains(x) && x.id == id,
    decreases rows.len(),
{
    if rows.len() > 0 {
        lemma_node_map_ids(rows.drop_last());
        let last = rows.last();
        assert forall|id: int| #[trigger]
            row_ids(rows).contains(id) implies exists|x: NodeView|
            node_map_views(rows).contains(x) && x.id == id by {
            if id == last.identifier as int {
                let x = fresh_node_view(last);
                assert(node_map_views(rows).contains(x));
            } else {
                let k = choose|k: int| 0 <= k < rows.len() && (#[trigger] rows[k]).identifier == id;
                assert(rows.drop_last()[k] == rows[k]);
                assert(row_ids(rows.drop_last()).contains(id));
                let x = choose|x: NodeView|
                    node_map_views(rows.drop_last()).contains(x) && x.id == id;
                assert(node_map_views(rows).contains(x));
            }
        }
        assert forall|id: int|
            (exists|x: NodeView|
                node_map_views(rows).contains(x) && x.id == id) implies #[trigger] row_ids(
            rows,
        ).contains(id) by {
            let x = choose|x: NodeView| node_map_views(rows).contains(x) && x.id == id;
            if x == fresh_node_view(last) && id == last.identifier as int {
                assert(rows[rows.len() - 1].identifier as int == id);
            } else if x.id == last.identifier as int {
                assert(rows[rows.len() - 1].identifier as int == id);
            } else {
                assert(node_map_views(rows.drop_last()).contains(x));
                assert(row_ids(rows.drop_last()).contains(id));
                let k = choose|k: int|
                    0 <= k < rows.drop_last().len() && (#[trigger] rows.drop_last()[k]).identifier
                        == id;
                assert(rows[k] == rows.drop_last()[k]);
            }
        }
    }
}

/// Clones a vector of strings, keeping its view.
pub fn clone_strings(v: &Vec<String>) -> (r: Vec<String>)
    ensures
        r@ == v@,
        r.deep_view() == v.deep_view(),
{
    let mut r: Vec<String> = Vec::new();
    let n = v.len();
    let mut i: usize = 0;
    while i < n
        invariant
            i <= n,
            n == v@.len(),
            r@.len() == i as int,
            forall|k: int| 0 <= k < i ==> r@[k] == v@[k],
        decreases n - i,
    {
        r.push(v[i].clone());
        i += 1;
    }
    proof {
        assert(r@ =~= v@);
    }
    r
}

/// Inserting a node whose identifier splits the sequence keeps it keyed and
/// adds exactly that node.
proof fn lemma_node_insert_at(s: Seq<GraphNode>, i: int, v: GraphNode)
    requires
        0 <= i <= s.len(),
        sorted_node_ids(node_views(s)),
        forall|k: int| 0 <= k < i ==> node_views(s)[k].id < v@.id,
        forall|k: int| i <= k < s.len() ==> node_views(s)[k].id > v@.id,
    ensures
        sorted_node_ids(node_views(s.insert(i, v))),
        node_views(s.insert(i, v)).to_set() == node_views(s).to_set().insert(v@),
        node_views(s).to_set().filter(|x: NodeView| x.id != v@.id) == node_views(s).to_set(),
{
    let vs = node_views(s);
    let t = s.insert(i, v);
    let vt = node_views(t);
    s.insert_ensures(i, v);
    assert(vt =~= vs.insert(i, v@)) by {
        vs.insert_ensures(i, v@);
        assert forall|k: int| 0 <= k < vt.len() implies vt[k] == vs.insert(i, v@)[k] by {
            assert(vt[k] == t[k]@);
        }
    }
    vs.insert_ensures(i, v@);
    assert forall|p: int, q: int| 0 <= p < q < vt.len() implies vt[p].id < vt[q].id by {
        if p < i && q < i {
            assert(vt[p] == vs[p] && vt[q] == vs[q]);
        } else if p < i && q == i {
            assert(vt[p] == vs[p] && vt[q] == v@);
        } else if p < i && q > i {
            assert(vt[p] == vs[p] && vt[q] == vs[q - 1]);
        } else if p == i {
            assert(vt[p] == v@ && vt[q] == vs[q - 1]);
        } else {
            assert(vt[p] == vs[p - 1] && vt[q] == vs[q - 1]);
        }
    }
    assert(vt.to_set() =~= vs.to_set().insert(v@)) by {
        assert forall|x: NodeView| vt.to_set().contains(x) implies vs.to_set().insert(v@).contains(
            x,
        ) by {
            let k = choose|k: int| 0 <= k < vt.len() && vt[k] == x;
            if k < i {
                assert(vs[k] == x);
                assert(vs.contains(x));
            } else if k == i {
                assert(x == v@);
            } else {
                assert(vs[k - 1] == x);
                assert(vs.contains(x));
            }
        }
        assert forall|x: NodeView| vs.to_set().insert(v@).contains(x) implies vt.to_set().contains(
            x,
        ) by {
            if x == v@ {
                assert(vt[i] == x);
                assert(vt.contains(x));
            } else {
                let k = choose|k: int| 0 <= k < vs.len() && vs[k] == x;
                if k < i {
                    assert(vt[k] == x);
                } else {
                    assert(vt[k + 1] == x);
                }
                assert(vt.contains(x));
            }
        }
    }
    assert(vs.to_set().filter(|x: NodeView| x.id != v@.id) =~= vs.to_set()) by {
        assert forall|x: NodeView| vs.to_set().contains(x) implies x.id != v@.id by {
            let k = choose|k: int| 0 <= k < vs.len() && vs[k] == x;
            if k < i {
                assert(vs[k].id < v@.id);
            } else {
                assert(vs[k].id > v@.id);
            }
        }
    }
}

/// Removing the one entry with a given identifier from a keyed sequence.
proof fn lemma_node_remove_at(s: Seq<GraphNode>, i: int)
    requires
        0 <= i < s.len(),
        sorted_node_ids(node_views(s)),
    ensures
        sorted_node_ids(node_views(s.remove(i))),
        node_views(s.remove(i)).to_set() == node_views(s).to_set().filter(
            |x: NodeView| x.id != node_views(s)[i].id,
        ),
        forall|k: int|
            0 <= k < i ==> node_views(s.remove(i))[k].id < node_views(s)[i].id,
        forall|k: int|
            i <= k < s.len() - 1 ==> node_views(s.remove(i))[k].id > node_views(s)[i].id,
{
    let vs = node_views(s);
    let t = s.remove(i);
    let vt = node_views(t);
    let id = vs[i].id;
    assert(vt =~= vs.remove(i)) by {
        assert forall|k: int| 0 <= k < vt.len() implies vt[k] == vs.remove(i)[k] by {
            assert(vt[k] == t[k]@);
            if k < i {
                assert(t[k] == s[k]);
            } else {
                assert(t[k] == s[k + 1]);
            }
        }
    }
    assert forall|k: int| 0 <= k < i implies vt[k].id < id by {
        assert(vt[k] == vs[k]);
    }
    assert forall|k: int| i <= k < s.len() - 1 implies vt[k].id > id by {
        assert(vt[k] == vs[k + 1]);
    }
    assert(vt.to_set() =~= vs.to_set().filter(|x: NodeView| x.id != id)) by {
        assert forall|x: NodeView| vt.to_set().contains(x) implies vs.to_set().filter(
            |x: NodeView| x.id != id,
        ).contains(x) by {
            let k = choose|k: int| 0 <= k < vt.len() && vt[k] == x;
            if k < i {
                assert(vs[k] == x);
                assert(x.id < id);
            } else {
                assert(vs[k + 1] == x);
                assert(x.id > id);
            }
            assert(vs.contains(x));
        }
        assert forall|x: NodeView| vs.to_set().filter(|x: NodeView| x.id != id).contains(
            x,
        ) implies vt.to_set().contains(x) by {
            let k = choose|k: int| 0 <= k < vs.len() && vs[k] == x;
            if k < i {
                assert(vt[k] == x);
            } else {
                assert(k != i);
                assert(vt[k - 1] == x);
            }
            assert(vt.contains(x));
        }
    }
}

/// Inserts a node into the identifier-keyed sequence: a node with the same
/// identifier is replaced (a later row wins), any other node is kept.
pub fn insert_node(nodes: &mut Vec<GraphNode>, node: GraphNode)
    requires
        sorted_node_ids(node_views(old(nodes)@)),
    ensures
        sorted_node_ids(node_views(final(nodes)@)),
        node_views(final(nodes)@).to_set() == node_views(old(nodes)@).to_set().filter(
            |x: NodeView| x.id != node@.id,
        ).insert(node@),
{
    let n = nodes.len();
    let ghost target = node@;
    let mut i: usize = 0;
    while i < n
        invariant
            i <= n,
            n == nodes@.len(),
            nodes@ == old(nodes)@,
            sorted_node_ids(node_views(nodes@)),
            target == node@,
            forall|k: int| 0 <= k < i ==> node_views(nodes@)[k].id < target.id,
        decreases n - i,
    {
        proof {
            assert(node_views(nodes@)[i as int] == nodes@[i as int]@);
        }
        if nodes[i].id > node.id {
            let ghost before = nodes@;
            nodes.insert(i, node);
            proof {
                lemma_node_insert_at(before, i as int, node);
            }
            return;
        }
        if nodes[i].id == node.id {
            let ghost before = nodes@;
            proof {
                lemma_node_remove_at(before, i as int);
            }
            nodes.remove(i);
            let ghost mid = nodes@;
            nodes.insert(i, node);
            proof {
                lemma_node_insert_at(mid, i as int, node);
                assert(node_views(nodes@).to_set() =~= node_views(before).to_set().filter(
                    |x: NodeView| x.id != target.id,
                ).insert(target));
            }
            return;
        }
        i += 1;
    }
    let ghost before = nodes@;
    nodes.push(node);
    proof {
        assert(nodes@ =~= before.insert(n as int, node));
        lemma_node_insert_at(before, n as int, node);
    }
}

/// What a successful single-node assembly returns: the row carried a textual
/// `uri`, every relationship row touches the node, and the node's adjacency
/// view is exactly the set of relationships the rows denote, well-formed.
pub open spec fn single_ok(row: NodeRow, rel_rows: Seq<RelationshipRow>, node: GraphNode) -> bool {
    &&& row_uri(row@) is Some
    &&& (forall|k: int|
        0 <= k < rel_rows.len() ==> incident((#[trigger] rel_rows[k])@, row.identifier as int))
    &&& node.wf()
    &&& node@.id == row.identifier as int
    &&& node@.uri == row_uri(row@)->Some_0
    &&& node@.labels == row@.labels
    &&& node@.relationships.to_set() == incident_rels(rel_rows, row.identifier as int)
}

/// When single-node assembly fails, and with which error: a missing or
/// non-text `uri` on the node row, else the first relationship row that
/// touches the node on neither side.
pub open spec fn single_err(row: NodeRow, rel_rows: Seq<RelationshipRow>, e: GraphError) -> bool {
    ||| (row_uri(row@) is None && e == expected_node_error(row))
    ||| (row_uri(row@) is Some && exists|k: int|
        {
            &&& 0 <= k < rel_rows.len()
            &&& !incident((#[trigger] rel_rows[k])@, row.identifier as int)
            &&& (forall|m: int|
                0 <= m < k ==> incident((#[trigger] rel_rows[m])@, row.identifier as int))
            &&& e == GraphError::DanglingRelationship(rel_rows[k].identifier)
        })
}

/// Assembles a single node from its node row and the rows of all
/// relationships touching it (single-node mode).
///
/// Fails with `MissingProperty`/`TypeMismatch` when the row lacks a textual
/// `uri`, and with `DanglingRelationship` when some relationship row touches
/// the node on neither side; otherwise returns the node with exactly the
/// given relationships as its deduplicated, ordered adjacency view.
pub fn assemble_single(row: &NodeRow, rel_rows: &Vec<RelationshipRow>) -> (res: Result<
    GraphNode,
    GraphError,
>)
    ensures
        match res {
            Ok(node) => single_ok(*row, rel_rows@, node),
            Err(e) => single_err(*row, rel_rows@, e),
        },
{
    let uri = match uri_of_row(row) {
        Ok(u) => u,
        Err(e) => {
            return Err(e);
        },
    };
    let mut node = GraphNode {
        id: row.identifier,
        uri,
        labels: clone_strings(&row.labels),
        relationships: Vec::new(),
        number_of_neighbors: 0,
    };
    let ghost id = row.identifier as int;
    let n = rel_rows.len();
    let mut j: usize = 0;
    while j < n
        invariant
            j <= n,
            n == rel_rows@.len(),
            row_uri(row@) is Some,
            node.id == row.identifier,
            node@.uri == row_uri(row@)->Some_0,
            node@.labels == row@.labels,
            id == row.identifier as int,
            sorted_rels(rel_views(node.relationships@)),
            node.number_of_neighbors == node.relationships@.len(),
            rel_views(node.relationships@).to_set() == incident_rels(
                rel_rows@.take(j as int),
                id,
            ),
            forall|m: int| 0 <= m < j ==> incident(#[trigger] rel_rows@[m]@, id),
        decreases n - j,
    {
        let rr = &rel_rows[j];
        if rr.start_identifier != row.identifier && rr.end_identifier != row.identifier {
            proof {
                assert(0 <= j < rel_rows@.len() && !incident(rel_rows@[j as int]@, id) && (
                forall|m: int| 0 <= m < j ==> incident(#[trigger] rel_rows@[m]@, id))
                    && GraphError::DanglingRelationship(rr.identifier)
                    == GraphError::DanglingRelationship(rel_rows@[j as int].identifier));
            }
            return Err(GraphError::DanglingRelationship(rr.identifier));
        }
        let ghost before = node.relationships@;
        insert_relationship(&mut node.relationships, to_node_relationship(rr));
        node.number_of_neighbors = node.relationships.len();
        proof {
            lemma_incident_take_step(rel_rows@, j as int, id);
            assert(rel_views(node.relationships@).to_set() =~= incident_rels(
                rel_rows@.take(j as int + 1),
                id,
            ));
        }
        j += 1;
    }
    proof {
        assert(rel_rows@.take(n as int) =~= rel_rows@);
        assert(node@.relationships.to_set() == rel_views(node.relationships@).to_set());
    }
    Ok(node)
}

/// Every node row in the sequence carries a textual `uri` property.
pub open spec fn node_rows_ok(rows: Seq<NodeRow>) -> bool {
    forall|k: int| 0 <= k < rows.len() ==> row_uri((#[trigger] rows[k])@) is Some
}

/// Both endpoints of a relationship row appear among the node rows.
pub open spec fn endpoints_present(rows: Seq<NodeRow>, r: RelRowView) -> bool {
    row_ids(rows).contains(r.start_identifier) && row_ids(rows).contains(r.end_identifier)
}

/// Every relationship row's endpoints appear among the node rows.
pub open spec fn rel_rows_closed(node_rows: Seq<NodeRow>, rel_rows: Seq<RelationshipRow>) -> bool {
    forall|j: int|
        0 <= j < rel_rows.len() ==> endpoints_present(node_rows, (#[trigger] rel_rows[j])@)
}

/// Whether the identifier-keyed node sequence holds a node with this
/// identifier.
fn contains_id(nodes: &Vec<GraphNode>, id: i64) -> (r: bool)
    ensures
        r == exists|k: int|
            0 <= k < nodes@.len() && (#[trigger] node_views(nodes@)[k]).id == id as int,
{
    let n = nodes.len();
    let mut i: usize = 0;
    while i < n
        invariant
            i <= n,
            n == nodes@.len(),
            forall|k: int| 0 <= k < i ==> (#[trigger] node_views(nodes@)[k]).id != id as int,
        decreases n - i,
    {
        proof {
            assert(node_views(nodes@)[i as int] == nodes@[i as int]@);
        }
        if nodes[i].id == id {
            return true;
        }
        i += 1;
    }
    false
}

/// An identifier appears in the assembled node map exactly when some node row
/// mentions it.
proof fn lemma_contains_id_iff(nodes: Seq<GraphNode>, node_rows: Seq<NodeRow>, id: int)
    requires
        node_views(nodes).to_set() == node_map_views(node_rows),
    ensures
        (exists|k: int| 0 <= k < nodes.len() && (#[trigger] node_views(nodes)[k]).id == id)
            <==> row_ids(node_rows).contains(id),
{
    lemma_node_map_ids(node_rows);
    let vs = node_views(nodes);
    if exists|k: int| 0 <= k < nodes.len() && (#[trigger] node_views(nodes)[k]).id == id {
        let k = choose|k: int| 0 <= k < nodes.len() && (#[trigger] node_views(nodes)[k]).id == id;
        assert(vs.contains(vs[k]));
        assert(vs.to_set().contains(vs[k]));
        assert(node_map_views(node_rows).contains(vs[k]));
    }
    if row_ids(node_rows).contains(id) {
        let x = choose|x: NodeView| node_map_views(node_rows).contains(x) && x.id == id;
        assert(vs.to_set().contains(x));
        let k = choose|k: int| 0 <= k < vs.len() && vs[k] == x;
        assert(node_views(nodes)[k].id == id);
    }
}

/// What a successful whole-graph assembly returns: every node row carried a
/// textual `uri`, every relationship row resolved both endpoints, the output
/// is keyed by node identifier in ascending order, each output node is the
/// last row with its identifier (with an empty adjacency view attached), and
/// each node's adjacency view is exactly the set of relationships incident to
/// it — so each relationship appears in both of its endpoints' views.
pub open spec fn graph_ok(
    node_rows: Seq<NodeRow>,
    rel_rows: Seq<RelationshipRow>,
    out: Seq<GraphNode>,
) -> bool {
    &&& node_rows_ok(node_rows)
    &&& rel_rows_closed(node_rows, rel_rows)
    &&& sorted_node_ids(node_views(out))
    &&& (forall|k: int| 0 <= k < out.len() ==> (#[trigger] out[k]).wf())
    &&& node_views(out).map_values(|v: NodeView| base_of(v)).to_set() == node_map_views(node_rows)
    &&& (forall|k: int|
        0 <= k < out.len() ==> (#[trigger] out[k])@.relationships.to_set() == incident_rels(
            rel_rows,
            out[k]@.id,
        ))
}

/// When whole-graph assembly fails, and with which error: the first node row
/// without a textual `uri`, else the first relationship row with an endpoint
/// no node row mentions.
pub open spec fn graph_err(
    node_rows: Seq<NodeRow>,
    rel_rows: Seq<RelationshipRow>,
    e: GraphError,
) -> bool {
    ||| exists|k: int|
        {
            &&& 0 <= k < node_rows.len()
            &&& row_uri((#[trigger] node_rows[k])@) is None
            &&& (forall|m: int| 0 <= m < k ==> row_uri((#[trigger] node_rows[m])@) is Some)
            &&& e == expected_node_error(node_rows[k])
        }
    ||| (node_rows_ok(node_rows) && exists|j: int|
        {
            &&& 0 <= j < rel_rows.len()
            &&& !endpoints_present(node_rows, (#[trigger] rel_rows[j])@)
            &&& (forall|m: int|
                0 <= m < j ==> endpoints_present(node_rows, (#[trigger] rel_rows[m])@))
            &&& e == GraphError::DanglingRelationship(rel_rows[j].identifier)
        })
}

/// Assembles the whole graph from every node row and every relationship row
/// (whole-graph mode).
///
/// On success, the output is keyed by node identifier in ascending order,
/// carries for each identifier the node denoted by the last row with that
/// identifier, and gives every node exactly the relationships incident to it
/// as its deduplicated, ordered adjacency view — each relationship thus
/// appears in both of its endpoints' views. Fails with
/// `MissingProperty`/`TypeMismatch` on the first node row without a textual
/// `uri`, and otherwise with `DanglingRelationship` on the first relationship
/// row with an endpoint no node row mentions.
pub fn assemble_graph(node_rows: &Vec<NodeRow>, rel_rows: &Vec<RelationshipRow>) -> (res: Result<
    Vec<GraphNode>,
    GraphError,
>)
    ensures
        match res {
            Ok(out) => graph_ok(node_rows@, rel_rows@, out@),
            Err(e) => graph_err(node_rows@, rel_rows@, e),
        },
{
    // Build the node map first: relationship rows resolve their endpoints in
    // it by identifier lookup.
    let mut nodes: Vec<GraphNode> = Vec::new();
    let nn = node_rows.len();
    let mut i: usize = 0;
    while i < nn
        invariant
            i <= nn,
            nn == node_rows@.len(),
            sorted_node_ids(node_views(nodes@)),
            node_views(nodes@).to_set() == node_map_views(node_rows@.take(i as int)),
            forall|m: int| 0 <= m < i ==> row_uri((#[trigger] node_rows@[m])@) is Some,
            forall|m: int|
                0 <= m < nodes@.len() ==> (#[trigger] node_views(nodes@)[m]).relationships
                    == Seq::<RelView>::empty() && node_views(nodes@)[m].number_of_neighbors == 0,
        decreases nn - i,
    {
        let row = &node_rows[i];
        let uri = match uri_of_row(row) {
            Ok(u) => u,
            Err(e) => {
                proof {
                    assert(0 <= i < node_rows@.len() && row_uri(node_rows@[i as int]@) is None && (
                    forall|m: int| 0 <= m < i ==> row_uri((#[trigger] node_rows@[m])@) is Some)
                        && e == expected_node_error(node_rows@[i as int]));
                }
                return Err(e);
            },
        };
        let node = GraphNode {
            id: row.identifier,
            uri,
            labels: clone_strings(&row.labels),
            relationships: Vec::new(),
            number_of_neighbors: 0,
        };
        proof {
            assert(node@.relationships =~= Seq::<RelView>::empty());
            assert(node@ == fresh_node_view(node_rows@[i as int]));
        }
        let ghost before = nodes@;
        insert_node(&mut nodes, node);
        proof {
            assert(node_rows@.take(i as int + 1).drop_last() =~= node_rows@.take(i as int));
            assert(node_rows@.take(i as int + 1).last() == node_rows@[i as int]);
            assert(node_views(nodes@).to_set() == node_map_views(node_rows@.take(i as int + 1)));
            assert forall|m: int| 0 <= m < nodes@.len() implies (#[trigger] node_views(
                nodes@,
            )[m]).relationships == Seq::<RelView>::empty() && node_views(
                nodes@,
            )[m].number_of_neighbors == 0 by {
                let x = node_views(nodes@)[m];
                assert(node_views(nodes@).contains(x));
                assert(node_views(nodes@).to_set().contains(x));
                if x != node@ {
                    assert(node_views(before).to_set().contains(x));
                    let p = choose|p: int|
                        0 <= p < node_views(before).len() && node_views(before)[p] == x;
                    assert(node_views(before)[p].relationships == Seq::<RelView>::empty());
                }
            }
        }
        i += 1;
    }
    proof {
        assert(node_rows@.take(nn as int) =~= node_rows@);
    }

    // Check that every relationship row resolves both endpoints before any
    // adjacency view is built: assembly is all-or-nothing.
    let rn = rel_rows.len();
    let mut j: usize = 0;
    while j < rn
        invariant
            j <= rn,
            rn == rel_rows@.len(),
            nn == node_rows@.len(),
            sorted_node_ids(node_views(nodes@)),
            node_views(nodes@).to_set() == node_map_views(node_rows@),
            node_rows_ok(node_rows@),
            forall|m: int|
                0 <= m < nodes@.len() ==> (#[trigger] node_views(nodes@)[m]).relationships
                    == Seq::<RelView>::empty() && node_views(nodes@)[m].number_of_neighbors == 0,
            forall|m: int| 0 <= m < j ==> endpoints_present(node_rows@, (#[trigger] rel_rows@[m])@),
        decreases rn - j,
    {
        let rr = &rel_rows[j];
        let start_ok = contains_id(&nodes, rr.start_identifier);
        let end_ok = contains_id(&nodes, rr.end_identifier);
        proof {
            lemma_contains_id_iff(nodes@, node_rows@, rr.start_identifier as int);
            lemma_contains_id_iff(nodes@, node_rows@, rr.end_identifier as int);
        }
        if !start_ok || !end_ok {
            proof {
                assert(0 <= j < rel_rows@.len() && !endpoints_present(
                    node_rows@,
                    rel_rows@[j as int]@,
                ) && (forall|m: int|
                    0 <= m < j ==> endpoints_present(node_rows@, (#[trigger] rel_rows@[m])@))
                    && GraphError::DanglingRelationship(rr.identifier)
                    == GraphError::DanglingRelationship(rel_rows@[j as int].identifier));
            }
            return Err(GraphError::DanglingRelationship(rr.identifier));
        }
        j += 1;
    }

    // Fill each node's adjacency view from the relationship rows incident to
    // it, recomputing the neighbor count with every insertion.
    let mut out: Vec<GraphNode> = Vec::new();
    let on = nodes.len();
    let mut k: usize = 0;
    while k < on
        invariant
            k <= on,
            on == nodes@.len(),
            rn == rel_rows@.len(),
            out@.len() == k as int,
            sorted_node_ids(node_views(nodes@)),
            node_views(nodes@).to_set() == node_map_views(node_rows@),
            node_rows_ok(node_rows@),
            rel_rows_closed(node_rows@, rel_rows@),
            forall|m: int|
                0 <= m < nodes@.len() ==> (#[trigger] node_views(nodes@)[m]).relationships
                    == Seq::<RelView>::empty() && node_views(nodes@)[m].number_of_neighbors == 0,
            forall|m: int|
                0 <= m < k ==> base_of(#[trigger] node_views(out@)[m]) == node_views(nodes@)[m],
            forall|m: int| 0 <= m < k ==> (#[trigger] out@[m]).wf(),
            forall|m: int|
                0 <= m < k ==> (#[trigger] out@[m])@.relationships.to_set() == incident_rels(
                    rel_rows@,
                    out@[m]@.id,
                ),
        decreases on - k,
    {
        let id = nodes[k].id;
        let uri = nodes[k].uri.clone();
        let labels = clone_strings(&nodes[k].labels);
        let mut rels: Vec<NodeRelationship> = Vec::new();
        let mut j2: usize = 0;
        while j2 < rn
            invariant
                j2 <= rn,
                rn == rel_rows@.len(),
                sorted_rels(rel_views(rels@)),
                rel_views(rels@).to_set() == incident_rels(rel_rows@.take(j2 as int), id as int),
            decreases rn - j2,
        {
            let rr = &rel_rows[j2];
            if rr.start_identifier == id || rr.end_identifier == id {
                insert_relationship(&mut rels, to_node_relationship(rr));
            }
            proof {
                lemma_incident_take_step(rel_rows@, j2 as int, id as int);
                assert(rel_views(rels@).to_set() =~= incident_rels(
                    rel_rows@.take(j2 as int + 1),
                    id as int,
                ));
            }
            j2 += 1;
        }
        let cnt = rels.len();
        let node = GraphNode { id, uri, labels, relationships: rels, number_of_neighbors: cnt };
        proof {
            assert(rel_rows@.take(rn as int) =~= rel_rows@);
            assert(node_views(nodes@)[k as int] == nodes@[k as int]@);
            assert(base_of(node@) == node_views(nodes@)[k as int]);
            assert(node@.relationships.to_set() == rel_views(node.relationships@).to_set());
        }
        let ghost prev = out@;
        out.push(node);
        proof {
            assert forall|m: int| 0 <= m < k + 1 implies base_of(
                #[trigger] node_views(out@)[m],
            ) == node_views(nodes@)[m] by {
                assert(node_views(out@)[m] == out@[m]@);
                if m < k {
                    assert(out@[m] == prev[m]);
                    assert(node_views(prev)[m] == prev[m]@);
                }
            }
        }
        k += 1;
    }
    proof {
        let vo = node_views(out@);
        let vn = node_views(nodes@);
        assert forall|p: int, q: int| 0 <= p < q < vo.len() implies vo[p].id < vo[q].id by {
            assert(base_of(vo[p]) == vn[p]);
            assert(base_of(vo[q]) == vn[q]);
        }
        assert(vo.map_values(|v: NodeView| base_of(v)) =~= vn) by {
            assert forall|m: int| 0 <= m < vo.len() implies vo.map_values(
                |v: NodeView| base_of(v),
            )[m] == vn[m] by {
                assert(base_of(vo[m]) == vn[m]);
            }
        }
    }
    Ok(out)
}

/// Extending the processed prefix by one row grows the incident set by that
/// row's relationship value exactly when the row touches the node.
proof fn lemma_incident_take_step(rows: Seq<RelationshipRow>, j: int, id: int)
    requires
        0 <= j < rows.len(),
    ensures
        incident(rows[j]@, id) ==> incident_rels(rows.take(j + 1), id) == incident_rels(
            rows.take(j),
            id,
        ).insert(rel_of_row(rows[j]@)),
        !incident(rows[j]@, id) ==> incident_rels(rows.take(j + 1), id) == incident_rels(
            rows.take(j),
            id,
        ),
{
    let a = incident_rels(rows.take(j), id);
    let b = incident_rels(rows.take(j + 1), id);
    assert forall|rv: RelView| b.contains(rv) implies a.contains(rv) || (incident(rows[j]@, id)
        && rv == rel_of_row(rows[j]@)) by {
        let k = choose|k: int|
            0 <= k < rows.take(j + 1).len() && incident(#[trigger] rows.take(j + 1)[k]@, id)
                && rv == rel_of_row(rows.take(j + 1)[k]@);
        if k < j {
            assert(rows.take(j)[k] == rows[k]);
            assert(rows.take(j + 1)[k] == rows[k]);
            assert(incident(rows.take(j)[k]@, id));
        } else {
            assert(rows.take(j + 1)[k] == rows[j]);
        }
    }
    assert forall|rv: RelView| a.contains(rv) implies b.contains(rv) by {
        let k = choose|k: int|
            0 <= k < rows.take(j).len() && incident(#[trigger] rows.take(j)[k]@, id) && rv
                == rel_of_row(rows.take(j)[k]@);
        assert(rows.take(j + 1)[k] == rows.take(j)[k]);
        assert(incident(rows.take(j + 1)[k]@, id));
    }
    if incident(rows[j]@, id) {
        assert(rows.take(j + 1)[j] == rows[j]);
        assert(b.contains(rel_of_row(rows[j]@)));
        assert(b =~= a.insert(rel_of_row(rows[j]@)));
    } else {
        assert(b =~= a);
    }
}

} // verus!
