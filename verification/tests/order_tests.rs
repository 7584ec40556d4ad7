use graph_backend::model::NodeRelationship;
use graph_backend::order::insert_relationship;
use graph_backend::order::rel_eq_exec;
use graph_backend::order::rel_lt_exec;
use graph_backend::order::str_lt;

fn rel(id: i64, start_id: i64, end_id: i64, relationship_type: &str) -> NodeRelationship {
    NodeRelationship { id, start_id, end_id, relationship_type: relationship_type.to_owned() }
}

#[test]
fn str_lt_orders_lexicographically() {
    assert!(str_lt("abc", "abd"));
    assert!(!str_lt("abd", "abc"));
    assert!(str_lt("ab", "abc"));
    assert!(!str_lt("abc", "ab"));
    assert!(str_lt("", "a"));
    assert!(!str_lt("a", ""));
    assert!(!str_lt("same", "same"));
    assert!(str_lt("KNOWS", "LIKES"));
}

#[test]
fn rel_order_is_by_id_then_start_then_end_then_type() {
    assert!(rel_lt_exec(&rel(1, 9, 9, "Z"), &rel(2, 0, 0, "A")));
    assert!(rel_lt_exec(&rel(1, 1, 9, "Z"), &rel(1, 2, 0, "A")));
    assert!(rel_lt_exec(&rel(1, 1, 1, "Z"), &rel(1, 1, 2, "A")));
    assert!(rel_lt_exec(&rel(1, 1, 1, "A"), &rel(1, 1, 1, "B")));
    assert!(!rel_lt_exec(&rel(1, 1, 1, "A"), &rel(1, 1, 1, "A")));
}

#[test]
fn rel_eq_compares_all_fields() {
    assert!(rel_eq_exec(&rel(1, 2, 3, "KNOWS"), &rel(1, 2, 3, "KNOWS")));
    assert!(!rel_eq_exec(&rel(1, 2, 3, "KNOWS"), &rel(1, 2, 3, "LIKES")));
    assert!(!rel_eq_exec(&rel(1, 2, 3, "KNOWS"), &rel(4, 2, 3, "KNOWS")));
}

#[test]
fn insert_keeps_ascending_order_whatever_the_arrival_order() {
    let mut rels: Vec<NodeRelationship> = Vec::new();
    insert_relationship(&mut rels, rel(3, 0, 1, "C"));
    insert_relationship(&mut rels, rel(1, 0, 1, "A"));
    insert_relationship(&mut rels, rel(2, 0, 1, "B"));
    let ids: Vec<i64> = rels.iter().map(|r| r.id).collect();
    assert_eq!(ids, vec![1, 2, 3]);
}

#[test]
fn insert_of_present_relationship_is_a_no_op() {
    let mut rels: Vec<NodeRelationship> = Vec::new();
    insert_relationship(&mut rels, rel(1, 0, 1, "KNOWS"));
    insert_relationship(&mut rels, rel(1, 0, 1, "KNOWS"));
    assert_eq!(rels.len(), 1);
    assert_eq!(rels[0], rel(1, 0, 1, "KNOWS"));
}

#[test]
fn insert_orders_equal_ids_by_remaining_fields() {
    let mut rels: Vec<NodeRelationship> = Vec::new();
    insert_relationship(&mut rels, rel(1, 1, 1, "B"));
    insert_relationship(&mut rels, rel(1, 1, 1, "A"));
    let types: Vec<&str> = rels.iter().map(|r| r.relationship_type.as_str()).collect();
    assert_eq!(types, vec!["A", "B"]);
}
