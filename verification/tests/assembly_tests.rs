use graph_backend::assembly::assemble_graph;
use graph_backend::assembly::assemble_single;
use graph_backend::model::GraphError;
use graph_backend::model::NodeRow;
use graph_backend::model::PropertyValue;
use graph_backend::model::RelationshipRow;
use graph_backend::model::uri_of_row;

fn node_row(identifier: i64, labels: &[&str], uri: &str) -> NodeRow {
    NodeRow {
        identifier,
        labels: labels.iter().map(|l| l.to_string()).collect(),
        properties: vec![("uri".to_string(), PropertyValue::Text(uri.to_string()))],
    }
}

fn bare_row(identifier: i64) -> NodeRow {
    NodeRow { identifier, labels: Vec::new(), properties: Vec::new() }
}

fn rel_row(identifier: i64, start: i64, end: i64, t: &str) -> RelationshipRow {
    RelationshipRow {
        identifier,
        start_identifier: start,
        end_identifier: end,
        relationship_type: t.to_string(),
    }
}

#[test]
fn uri_property_is_found() {
    let row = node_row(1, &["Person"], "uriA");
    assert_eq!(uri_of_row(&row), Ok("uriA".to_string()));
}

#[test]
fn uri_property_first_binding_wins() {
    let mut row = node_row(1, &[], "first");
    row.properties.push(("uri".to_string(), PropertyValue::Text("second".to_string())));
    assert_eq!(uri_of_row(&row), Ok("first".to_string()));
}

#[test]
fn missing_uri_is_reported_with_the_node_identifier() {
    assert_eq!(uri_of_row(&bare_row(7)), Err(GraphError::MissingProperty(7)));
}

#[test]
fn non_text_uri_is_a_type_mismatch() {
    let row = NodeRow {
        identifier: 3,
        labels: Vec::new(),
        properties: vec![("uri".to_string(), PropertyValue::Integer(5))],
    };
    assert_eq!(uri_of_row(&row), Err(GraphError::TypeMismatch(3)));
}

#[test]
fn single_node_without_relationships() {
    let node = assemble_single(&node_row(1, &["Person"], "uriA"), &Vec::new()).unwrap();
    assert_eq!(node.id, 1);
    assert_eq!(node.uri, "uriA");
    assert_eq!(node.labels, vec!["Person".to_string()]);
    assert!(node.relationships.is_empty());
    assert_eq!(node.number_of_neighbors, 0);
}

#[test]
fn single_node_collects_incident_relationships() {
    let rels = vec![rel_row(10, 1, 2, "KNOWS"), rel_row(11, 3, 1, "LIKES")];
    let node = assemble_single(&node_row(1, &[], "uriA"), &rels).unwrap();
    assert_eq!(node.number_of_neighbors, 2);
    assert_eq!(node.relationships.len(), 2);
    assert_eq!(node.relationships[0].id, 10);
    assert_eq!(node.relationships[1].id, 11);
}

#[test]
fn single_node_missing_uri_fails_assembly() {
    let res = assemble_single(&bare_row(4), &vec![rel_row(10, 4, 4, "KNOWS")]);
    assert_eq!(res.unwrap_err(), GraphError::MissingProperty(4));
}

#[test]
fn single_node_rejects_a_row_touching_neither_side() {
    let rels = vec![rel_row(10, 1, 2, "KNOWS"), rel_row(11, 5, 6, "KNOWS")];
    let res = assemble_single(&node_row(1, &[], "uriA"), &rels);
    assert_eq!(res.unwrap_err(), GraphError::DanglingRelationship(11));
}

#[test]
fn duplicate_relationship_rows_are_deduplicated() {
    let rels = vec![rel_row(10, 1, 2, "KNOWS"), rel_row(10, 1, 2, "KNOWS")];
    let node = assemble_single(&node_row(1, &[], "uriA"), &rels).unwrap();
    assert_eq!(node.relationships.len(), 1);
    assert_eq!(node.number_of_neighbors, 1);
}

#[test]
fn self_loop_appears_once() {
    let rels = vec![rel_row(10, 1, 1, "KNOWS")];
    let node = assemble_single(&node_row(1, &[], "uriA"), &rels).unwrap();
    assert_eq!(node.relationships.len(), 1);
    assert_eq!(node.number_of_neighbors, 1);
}

#[test]
fn whole_graph_gives_the_edge_to_both_endpoints() {
    let nodes = vec![node_row(1, &["Person"], "uriA"), node_row(2, &["Person"], "uriB")];
    let rels = vec![rel_row(10, 1, 2, "KNOWS")];
    let out = assemble_graph(&nodes, &rels).unwrap();
    assert_eq!(out.len(), 2);
    for node in &out {
        assert_eq!(node.relationships.len(), 1);
        assert_eq!(node.number_of_neighbors, 1);
        assert_eq!(node.relationships[0].id, 10);
        assert_eq!(node.relationships[0].start_id, 1);
        assert_eq!(node.relationships[0].end_id, 2);
        assert_eq!(node.relationships[0].relationship_type, "KNOWS");
    }
}

#[test]
fn whole_graph_output_is_sorted_by_identifier() {
    let nodes = vec![node_row(3, &[], "c"), node_row(1, &[], "a"), node_row(2, &[], "b")];
    let out = assemble_graph(&nodes, &Vec::new()).unwrap();
    let ids: Vec<i64> = out.iter().map(|n| n.id).collect();
    assert_eq!(ids, vec![1, 2, 3]);
}

#[test]
fn whole_graph_adjacency_iterates_in_the_total_order() {
    let nodes = vec![node_row(1, &[], "a"), node_row(2, &[], "b")];
    let rels = vec![rel_row(12, 2, 1, "B"), rel_row(10, 1, 2, "A"), rel_row(11, 1, 1, "C")];
    let out = assemble_graph(&nodes, &rels).unwrap();
    let ids: Vec<i64> = out[0].relationships.iter().map(|r| r.id).collect();
    assert_eq!(ids, vec![10, 11, 12]);
    assert_eq!(out[0].number_of_neighbors, 3);
    let ids: Vec<i64> = out[1].relationships.iter().map(|r| r.id).collect();
    assert_eq!(ids, vec![10, 12]);
    assert_eq!(out[1].number_of_neighbors, 2);
}

#[test]
fn whole_graph_is_independent_of_arrival_order() {
    let nodes1 = vec![node_row(2, &[], "b"), node_row(1, &[], "a")];
    let nodes2 = vec![node_row(1, &[], "a"), node_row(2, &[], "b")];
    let rels1 = vec![rel_row(10, 1, 2, "A"), rel_row(11, 2, 1, "B")];
    let rels2 = vec![rel_row(11, 2, 1, "B"), rel_row(10, 1, 2, "A")];
    let out1 = assemble_graph(&nodes1, &rels1).unwrap();
    let out2 = assemble_graph(&nodes2, &rels2).unwrap();
    assert_eq!(out1, out2);
}

#[test]
fn whole_graph_missing_uri_fails_with_no_partial_result() {
    let nodes = vec![node_row(1, &[], "a"), bare_row(2)];
    let res = assemble_graph(&nodes, &Vec::new());
    assert_eq!(res.unwrap_err(), GraphError::MissingProperty(2));
}

#[test]
fn whole_graph_dangling_start_fails() {
    let nodes = vec![node_row(1, &[], "a")];
    let rels = vec![rel_row(10, 99, 1, "KNOWS")];
    let res = assemble_graph(&nodes, &rels);
    assert_eq!(res.unwrap_err(), GraphError::DanglingRelationship(10));
}

#[test]
fn whole_graph_dangling_end_fails() {
    let nodes = vec![node_row(1, &[], "a")];
    let rels = vec![rel_row(10, 1, 99, "KNOWS")];
    let res = assemble_graph(&nodes, &rels);
    assert_eq!(res.unwrap_err(), GraphError::DanglingRelationship(10));
}

#[test]
fn whole_graph_later_node_row_wins() {
    let nodes = vec![node_row(1, &["Old"], "old"), node_row(1, &["New"], "new")];
    let out = assemble_graph(&nodes, &Vec::new()).unwrap();
    assert_eq!(out.len(), 1);
    assert_eq!(out[0].uri, "new");
    assert_eq!(out[0].labels, vec!["New".to_string()]);
}

#[test]
fn whole_graph_of_nothing_is_empty() {
    let out = assemble_graph(&Vec::new(), &Vec::new()).unwrap();
    assert!(out.is_empty());
}

#[test]
fn isolated_node_has_empty_adjacency() {
    let nodes = vec![node_row(1, &[], "a"), node_row(2, &[], "b")];
    let rels = vec![rel_row(10, 2, 2, "SELF")];
    let out = assemble_graph(&nodes, &rels).unwrap();
    assert!(out[0].relationships.is_empty());
    assert_eq!(out[0].number_of_neighbors, 0);
    assert_eq!(out[1].relationships.len(), 1);
    assert_eq!(out[1].number_of_neighbors, 1);
}
