//! Data model: relationships, nodes, raw query rows, and the error taxonomy.

use vstd::prelude::*;
use crate::order::sorted_rels;

verus! {

/// A directed, typed relationship between two nodes. It holds only the
/// identifiers of its endpoints, never the endpoint nodes themselves: the
/// same relationship value is shared between both incident nodes' adjacency
/// views in whole-graph assembly.
#[derive(Debug, Clone, PartialEq, Eq)]
pub struct NodeRelationship {
    /// Database-assigned identifier of the relationship.
    pub id: i64,
    /// Identifier of the start node (the edge points start -> end).
    pub start_id: i64,
    /// Identifier of the end node.
    pub end_id: i64,
    /// Free-form type label, fixed at creation.
    pub relationship_type: String,
}

/// Mathematical view of a relationship.
pub ghost struct RelView {
    pub id: int,
    pub start_id: int,
    pub end_id: int,
    pub relationship_type: Seq<char>,
}

impl View for NodeRelationship {
    type V = RelView;

    open spec fn view(&self) -> RelView {
        RelView {
            id: self.id as int,
            start_id: self.start_id as int,
            end_id: self.end_id as int,
            relationship_type: self.relationship_type@,
        }
    }
}

/// A node of the graph together with its adjacency view: the deduplicated,
/// totally ordered sequence of all relationships incident to it.
#[derive(Debug, PartialEq, Eq)]
pub struct GraphNode {
    /// Database-assigned identifier of the node.
    pub id: i64,
    /// Externally facing identifier; every stored node must carry one.
    pub uri: String,
    /// Labels of the node, in the order the database reports them.
    pub labels: Vec<String>,
    /// Incident relationships, strictly ascending in the relationship order,
    /// hence free of duplicates.
    pub relationships: Vec<NodeRelationship>,
    /// Derived neighbor count; always the cardinality of `relationships`.
    pub number_of_neighbors: usize,
}

/// Mathematical view of a node.
pub ghost struct NodeView {
    pub id: int,
    pub uri: Seq<char>,
    pub labels: Seq<Seq<char>>,
    pub relationships: Seq<RelView>,
    pub number_of_neighbors: int,
}

impl View for GraphNode {
    type V = NodeView;

    open spec fn view(&self) -> NodeView {
        NodeView {
            id: self.id as int,
            uri: self.uri@,
            labels: self.labels.deep_view(),
            relationships: self.relationships@.map_values(|r: NodeRelationship| r@),
            number_of_neighbors: self.number_of_neighbors as int,
        }
    }
}

impl GraphNode {
    /// Well-formedness: the adjacency sequence is strictly sorted in the
    /// relationship order (so it is a set), and the neighbor count equals
    /// its cardinality.
    pub open spec fn wf(&self) -> bool {
        &&& sorted_rels(self@.relationships)
        &&& self@.number_of_neighbors == self@.relationships.len()
    }
}

/// A property value attached to a node row. Query results carry a generic
/// string-keyed map of such values; conversion to the expected shape is
/// explicit and can fail.
#[derive(Debug, Clone, PartialEq, Eq)]
pub enum PropertyValue {
    Text(String),
    Integer(i64),
    Boolean(bool),
}

/// Mathematical view of a property value.
pub ghost enum PropView {
    Text(Seq<char>),
    Integer(int),
    Boolean(bool),
}

impl View for PropertyValue {
    type V = PropView;

    open spec fn view(&self) -> PropView {
        match self {
            PropertyValue::Text(s) => PropView::Text(s@),
            PropertyValue::Integer(i) => PropView::Integer(*i as int),
            PropertyValue::Boolean(b) => PropView::Boolean(*b),
        }
    }
}

/// A raw node row as the database gateway reports it: identifier, labels,
/// and a free-form property map (association list; first binding wins).
#[derive(Debug, Clone, PartialEq, Eq)]
pub struct NodeRow {
    pub identifier: i64,
    pub labels: Vec<String>,
    pub properties: Vec<(String, PropertyValue)>,
}

/// Mathematical view of a node row.
pub ghost struct NodeRowView {
    pub identifier: int,
    pub labels: Seq<Seq<char>>,
    pub properties: Seq<(Seq<char>, PropView)>,
}

impl View for NodeRow {
    type V = NodeRowView;

    open spec fn view(&self) -> NodeRowView {
        NodeRowView {
            identifier: self.identifier as int,
            labels: self.labels.deep_view(),
            properties: self.properties@.map_values(|p: (String, PropertyValue)| (p.0@, p.1@)),
        }
    }
}

/// A raw relationship row as the database gateway reports it.
#[derive(Debug, Clone, PartialEq, Eq)]
pub struct RelationshipRow {
    pub identifier: i64,
    pub start_identifier: i64,
    pub end_identifier: i64,
    pub relationship_type: String,
}

/// Mathematical view of a relationship row.
pub ghost struct RelRowView {
    pub identifier: int,
    pub start_identifier: int,
    pub end_identifier: int,
    pub relationship_type: Seq<char>,
}

impl View for RelationshipRow {
    type V = RelRowView;

    open spec fn view(&self) -> RelRowView {
        RelRowView {
            identifier: self.identifier as int,
            start_identifier: self.start_identifier as int,
            end_identifier: self.end_identifier as int,
            relationship_type: self.relationship_type@,
        }
    }
}

/// The relationship value a relationship row denotes.
pub open spec fn rel_of_row(r: RelRowView) -> RelView {
    RelView {
        id: r.identifier,
        start_id: r.start_identifier,
        end_id: r.end_identifier,
        relationship_type: r.relationship_type,
    }
}

/// Converts a raw relationship row into the relationship value it denotes.
pub fn to_node_relationship(row: &RelationshipRow) -> (r: NodeRelationship)
    ensures
        r@ == rel_of_row(row@),
{
    NodeRelationship {
        id: row.identifier,
        start_id: row.start_identifier,
        end_id: row.end_identifier,
        relationship_type: row.relationship_type.clone(),
    }
}

/// Errors surfaced by assembly and by the resolver decision logic.
///
/// - `NotFound`: a query returned zero rows where one was required.
/// - `MissingProperty(id)`: node `id` lacks the mandatory `uri` property.
/// - `TypeMismatch(id)`: node `id` carries `uri`, but not as text.
/// - `DanglingRelationship(id)`: relationship `id` references an endpoint
///   absent from the accompanying node set.
/// - `InvalidIdentifier`: a label or relationship-type string falls outside
///   the safe identifier alphabet and may not be interpolated into a query.
#[derive(Debug, Clone, PartialEq, Eq, Structural)]
pub enum GraphError {
    NotFound,
    MissingProperty(i64),
    TypeMismatch(i64),
    DanglingRelationship(i64),
    InvalidIdentifier,
}

/// First binding for `key` in a property association list.
pub open spec fn lookup_prop(props: Seq<(Seq<char>, PropView)>, key: Seq<char>) -> Option<PropView>
    decreases props.len(),
{
    if props.len() == 0 {
        None
    } else if props[0].0 == key {
        Some(props[0].1)
    } else {
        lookup_prop(props.drop_first(), key)
    }
}

/// The `uri` property of a node row, when present and textual.
pub open spec fn row_uri(row: NodeRowView) -> Option<Seq<char>> {
    match lookup_prop(row.properties, "uri"@) {
        Some(PropView::Text(s)) => Some(s),
        _ => None,
    }
}

/// Whether a node row carries a `uri` binding at all (of any type).
pub open spec fn row_has_uri_binding(row: NodeRowView) -> bool {
    lookup_prop(row.properties, "uri"@) is Some
}

/// Looks up the mandatory `uri` property on a node row. Fails with
/// `MissingProperty` when there is no `uri` binding, and with `TypeMismatch`
/// when the binding is not text; each error carries the row's identifier.
pub fn uri_of_row(row: &NodeRow) -> (r: Result<String, GraphError>)
    ensures
        match r {
            Ok(uri) => row_uri(row@) == Some(uri@),
            Err(e) => {
                &&& row_uri(row@) is None
                &&& e == (if row_has_uri_binding(row@) {
                    GraphError::TypeMismatch(row.identifier)
                } else {
                    GraphError::MissingProperty(row.identifier)
                })
            },
        },
{
    let key: String = "uri".to_owned();
    let n = row.properties.len();
    let mut i: usize = 0;
    proof {
        assert(row@.properties.skip(0) =~= row@.properties);
    }
    while i < n
        invariant
            i <= n,
            n == row.properties.len(),
            key@ == "uri"@,
            lookup_prop(row@.properties, "uri"@) == lookup_prop(
                row@.properties.skip(i as int),
                "uri"@,
            ),
        decreases n - i,
    {
        proof {
            assert(row@.properties.skip(i as int)[0] == row@.properties[i as int]);
        }
        if row.properties[i].0 == key {
            proof {
                assert(row@.properties[i as int].0 == "uri"@);
            }
            return match &row.properties[i].1 {
                PropertyValue::Text(s) => Ok(s.clone()),
                _ => Err(GraphError::TypeMismatch(row.identifier)),
            };
        }
        proof {
            assert(row@.properties.skip(i as int).drop_first() =~= row@.properties.skip(
                i as int + 1,
            ));
        }
        i += 1;
    }
    proof {
        assert(row@.properties.skip(n as int) =~= Seq::<(Seq<char>, PropView)>::empty());
    }
    Err(GraphError::MissingProperty(row.identifier))
}

} // verus!
