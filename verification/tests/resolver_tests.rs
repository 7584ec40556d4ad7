use graph_backend::model::GraphError;
use graph_backend::model::NodeRow;
use graph_backend::model::PropertyValue;
use graph_backend::model::RelationshipRow;
use graph_backend::resolver::create_node_query;
use graph_backend::resolver::create_relationship_query;
use graph_backend::resolver::created_node_id;
use graph_backend::resolver::delete_count;
use graph_backend::resolver::delete_node_query;
use graph_backend::resolver::entity_uri;
use graph_backend::resolver::fetch_all_nodes_query;
use graph_backend::resolver::fetch_all_relationships_query;
use graph_backend::resolver::fetch_node_from_rows;
use graph_backend::resolver::fetch_node_query;
use graph_backend::resolver::fetch_node_relationships_query;
use graph_backend::resolver::fresh_entity_uri;
use graph_backend::resolver::is_safe_identifier;
use graph_backend::resolver::relationship_from_rows;
use graph_backend::resolver::u32_to_decimal;

fn node_row(identifier: i64, labels: &[&str], uri: &str) -> NodeRow {
    NodeRow {
        identifier,
        labels: labels.iter().map(|l| l.to_string()).collect(),
        properties: vec![("uri".to_string(), PropertyValue::Text(uri.to_string()))],
    }
}

fn rel_row(identifier: i64, start: i64, end: i64, t: &str) -> RelationshipRow {
    RelationshipRow {
        identifier,
        start_identifier: start,
        end_identifier: end,
        relationship_type: t.to_string(),
    }
}

#[test]
fn decimal_rendering_is_exact() {
    assert_eq!(u32_to_decimal(0), "0");
    assert_eq!(u32_to_decimal(7), "7");
    assert_eq!(u32_to_decimal(10), "10");
    assert_eq!(u32_to_decimal(12345), "12345");
    assert_eq!(u32_to_decimal(u32::MAX), "4294967295");
}

#[test]
fn entity_uri_renders_the_template() {
    assert_eq!(entity_uri(42), "http://example.com/entity/42");
    assert_eq!(entity_uri(0), "http://example.com/entity/0");
}

#[test]
fn fresh_entity_uri_is_a_rendered_template() {
    let uri = fresh_entity_uri();
    let suffix = uri.strip_prefix("http://example.com/entity/").unwrap();
    assert!(!suffix.is_empty());
    assert!(suffix.chars().all(|c| c.is_ascii_digit()));
    assert!(suffix.parse::<u32>().is_ok());
}

#[test]
fn safe_identifiers_are_recognised() {
    assert!(is_safe_identifier("Person"));
    assert!(is_safe_identifier("KNOWS"));
    assert!(is_safe_identifier("_private9"));
    assert!(!is_safe_identifier(""));
    assert!(!is_safe_identifier("9lives"));
    assert!(!is_safe_identifier("has space"));
    assert!(!is_safe_identifier("semi;colon"));
    assert!(!is_safe_identifier("a) DETACH DELETE (n"));
}

#[test]
fn node_creation_query_interpolates_the_label() {
    let q = create_node_query("Person").unwrap();
    assert_eq!(q, "CREATE (n:Person { uri: $uri }) RETURN ID(n)");
}

#[test]
fn node_creation_query_rejects_unsafe_labels() {
    let res = create_node_query("Person) DETACH DELETE (n");
    assert_eq!(res.unwrap_err(), GraphError::InvalidIdentifier);
}

#[test]
fn relationship_creation_query_interpolates_the_type() {
    let q = create_relationship_query("KNOWS").unwrap();
    assert_eq!(q, "MATCH (start{uri:$start}), (end{uri:$end}) CREATE (start)-[r:KNOWS]->(end) RETURN r");
}

#[test]
fn relationship_creation_query_rejects_unsafe_types() {
    let res = create_relationship_query("KNOWS]->(x), (n)-[r2:OOPS");
    assert_eq!(res.unwrap_err(), GraphError::InvalidIdentifier);
}

#[test]
fn query_catalogue_matches_the_gateway_contract() {
    assert_eq!(fetch_node_query(), "MATCH (n) WHERE ID(n) = $id RETURN n");
    assert_eq!(
        fetch_node_relationships_query(),
        "MATCH (n)-[r]->(d) WHERE ID(n) = $id OR ID(d) = $id RETURN r"
    );
    assert_eq!(fetch_all_nodes_query(), "MATCH (n) RETURN n");
    assert_eq!(fetch_all_relationships_query(), "MATCH (n)-[r]->(d) RETURN r");
    assert_eq!(delete_node_query(), "MATCH (n{uri: $uri}) DETACH DELETE n");
}

#[test]
fn fetch_of_zero_rows_is_not_found() {
    let res = fetch_node_from_rows(&Vec::new(), &Vec::new());
    assert_eq!(res.unwrap_err(), GraphError::NotFound);
}

#[test]
fn refetch_yields_a_structurally_equal_node() {
    let rows = vec![node_row(1, &["Person"], "uriA")];
    let rels = vec![rel_row(10, 1, 2, "KNOWS")];
    let first = fetch_node_from_rows(&rows, &rels).unwrap();
    let second = fetch_node_from_rows(&rows, &rels).unwrap();
    assert_eq!(first, second);
}

#[test]
fn created_node_reads_back_the_first_identifier() {
    assert_eq!(created_node_id(&vec![17, 99]), Ok(17));
    assert_eq!(created_node_id(&Vec::new()), Err(GraphError::NotFound));
}

#[test]
fn relationship_creation_takes_the_first_row() {
    let rows = vec![rel_row(10, 1, 2, "KNOWS")];
    let r = relationship_from_rows(&rows).unwrap();
    assert_eq!(r.id, 10);
    assert_eq!(r.start_id, 1);
    assert_eq!(r.end_id, 2);
    assert_eq!(r.relationship_type, "KNOWS");
}

#[test]
fn deletion_count_is_zero_or_one() {
    assert_eq!(delete_count(0), 0);
    assert_eq!(delete_count(1), 1);
    assert_eq!(delete_count(5), 1);
}

#[test]
fn scenario_created_person_node_is_empty_and_labeled() {
    // Creation flow: mint a URI, create the node, read back its identifier,
    // then fetch it; the database returns one node row and no relationships.
    let uri = fresh_entity_uri();
    let id = created_node_id(&vec![5]).unwrap();
    let rows = vec![node_row(id, &["Person"], &uri)];
    let node = fetch_node_from_rows(&rows, &Vec::new()).unwrap();
    assert!(!node.uri.is_empty());
    assert_eq!(node.labels, vec!["Person".to_string()]);
    assert!(node.relationships.is_empty());
    assert_eq!(node.number_of_neighbors, 0);
}

#[test]
fn scenario_relationship_between_two_nodes_is_seen_by_both() {
    let a = node_row(1, &["Person"], "uriA");
    let b = node_row(2, &["Person"], "uriB");
    let created = relationship_from_rows(&vec![rel_row(10, 1, 2, "KNOWS")]).unwrap();
    assert_eq!(created.start_id, a.identifier);
    assert_eq!(created.end_id, b.identifier);
    assert_eq!(created.relationship_type, "KNOWS");
    let rels = vec![rel_row(10, 1, 2, "KNOWS")];
    let fetched_a = fetch_node_from_rows(&vec![a], &rels).unwrap();
    assert_eq!(fetched_a.number_of_neighbors, 1);
    assert_eq!(fetched_a.relationships[0], created);
    let fetched_b = fetch_node_from_rows(&vec![b], &rels).unwrap();
    assert_eq!(fetched_b.number_of_neighbors, 1);
    assert_eq!(fetched_b.relationships[0], created);
}

#[test]
fn scenario_self_loop_counts_once() {
    let a = node_row(1, &["Person"], "uriA");
    let rels = vec![rel_row(10, 1, 1, "KNOWS")];
    let fetched = fetch_node_from_rows(&vec![a], &rels).unwrap();
    assert_eq!(fetched.relationships.len(), 1);
    assert_eq!(fetched.number_of_neighbors, 1);
}

#[test]
fn scenario_relationship_with_unknown_start_uri_is_not_found() {
    // The creation query matches both endpoints by URI; an unknown start URI
    // matches nothing, so the gateway returns zero rows.
    let res = relationship_from_rows(&Vec::new());
    assert_eq!(res.unwrap_err(), GraphError::NotFound);
}
