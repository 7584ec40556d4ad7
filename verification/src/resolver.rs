//! Resolver decision logic: which query text each operation runs, how fresh
//! node URIs are minted, and how pulled rows become results or typed errors.
//!
//! Every database round trip happens outside this crate; the functions here
//! are the pure halves of the resolver operations. A caller runs the query
//! text these functions produce, converts the pulled records into plain rows,
//! and hands them back in.

use vstd::prelude::*;
use vstd::string::StrSliceExecFns;
use vstd::string::StringExecFns;
use crate::assembly::assemble_single;
use crate::assembly::single_err;
use crate::assembly::single_ok;
use crate::model::GraphError;
use crate::model::GraphNode;
use crate::model::NodeRelationship;
use crate::model::NodeRow;
use crate::model::RelationshipRow;
use crate::model::rel_of_row;
use crate::model::to_node_relationship;

verus! {

/// The character for one decimal digit.
pub open spec fn digit_char(d: nat) -> char {
    if d == 0 {
        '0'
    } else if d == 1 {
        '1'
    } else if d == 2 {
        '2'
    } else if d == 3 {
        '3'
    } else if d == 4 {
        '4'
    } else if d == 5 {
        '5'
    } else if d == 6 {
        '6'
    } else if d == 7 {
        '7'
    } else if d == 8 {
        '8'
    } else {
        '9'
    }
}

/// The decimal rendering of a number, most significant digit first, with no
/// leading zero except for the number zero itself.
pub open spec fn dec_digits(v: nat) -> Seq<char>
    decreases v,
{
    if v < 10 {
        seq![digit_char(v)]
    } else {
        dec_digits(v / 10).push(digit_char(v % 10))
    }
}

fn digit_str(d: u32) -> (r: &'static str)
    requires
        d < 10,
    ensures
        r@ == seq![digit_char(d as nat)],
{
    let r: &'static str = if d == 0 {
        "0"
    } else if d == 1 {
        "1"
    } else if d == 2 {
        "2"
    } else if d == 3 {
        "3"
    } else if d == 4 {
        "4"
    } else if d == 5 {
        "5"
    } else if d == 6 {
        "6"
    } else if d == 7 {
        "7"
    } else if d == 8 {
        "8"
    } else {
        "9"
    };
    proof {
        reveal_strlit("0");
        reveal_strlit("1");
        reveal_strlit("2");
        reveal_strlit("3");
        reveal_strlit("4");
        reveal_strlit("5");
        reveal_strlit("6");
        reveal_strlit("7");
        reveal_strlit("8");
        reveal_strlit("9");
        assert(r@ =~= seq![digit_char(d as nat)]);
    }
    r
}

/// Renders a number in decimal.
pub fn u32_to_decimal(v: u32) -> (r: String)
    ensures
        r@ == dec_digits(v as nat),
    decreases v,
{
    if v < 10 {
        digit_str(v).to_owned()
    } else {
        let mut s = u32_to_decimal(v / 10);
        s.append(digit_str(v % 10));
        proof {
            assert(s@ =~= dec_digits((v / 10) as nat).push(digit_char((v % 10) as nat)));
        }
        s
    }
}

/// The URI minted for a fresh node from a random value, rendered into the
/// entity URI template.
pub open spec fn entity_uri_text(v: nat) -> Seq<char> {
    "http://example.com/entity/"@ + dec_digits(v)
}

/// Renders a value into the entity URI template.
pub fn entity_uri(value: u32) -> (r: String)
    ensures
        r@ == entity_uri_text(value as nat),
{
    let mut s: String = "http://example.com/entity/".to_owned();
    let d = u32_to_decimal(value);
    s.append(d.as_str());
    s
}

/// Relies on `rand::random::<u32>()`: draws a value from thread-local
/// randomness. Nothing is promised of which value comes back.
#[verifier::external_body]
fn random_u32() -> u32 {
    rand::random::<u32>()
}

/// Mints the URI for a node about to be created: a pseudo-random unsigned
/// 32-bit value rendered into the entity URI template. Collisions with
/// existing URIs are not checked.
pub fn fresh_entity_uri() -> (r: String)
    ensures
        exists|v: u32| r@ == entity_uri_text(v as nat),
{
    let value = random_u32();
    let r = entity_uri(value);
    proof {
        assert(r@ == entity_uri_text(value as nat));
    }
    r
}

/// A character that may start a safe identifier: an ASCII letter or `_`.
pub open spec fn is_ident_start(c: char) -> bool {
    ||| ('a' as u32) <= (c as u32) && (c as u32) <= ('z' as u32)
    ||| ('A' as u32) <= (c as u32) && (c as u32) <= ('Z' as u32)
    ||| c == '_'
}

/// A character that may continue a safe identifier: an ASCII letter, digit,
/// or `_`.
pub open spec fn is_ident_char(c: char) -> bool {
    is_ident_start(c) || ('0' as u32) <= (c as u32) && (c as u32) <= ('9' as u32)
}

/// A string safe to interpolate into query text at the label or
/// relationship-type position: nonempty, starting with a letter or `_`, all
/// characters in the identifier alphabet.
pub open spec fn safe_identifier(s: Seq<char>) -> bool {
    &&& s.len() > 0
    &&& is_ident_start(s[0])
    &&& forall|i: int| 0 <= i < s.len() ==> is_ident_char(#[trigger] s[i])
}

/// Decides whether a string is a safe identifier.
pub fn is_safe_identifier(s: &str) -> (r: bool)
    ensures
        r == safe_identifier(s@),
{
    let n = s.unicode_len();
    if n == 0 {
        return false;
    }
    let c0 = s.get_char(0);
    let start_ok = ((c0 as u32) >= ('a' as u32) && (c0 as u32) <= ('z' as u32)) || ((c0 as u32)
        >= ('A' as u32) && (c0 as u32) <= ('Z' as u32)) || c0 == '_';
    if !start_ok {
        return false;
    }
    let mut i: usize = 0;
    while i < n
        invariant
            i <= n,
            n == s@.len(),
            n > 0,
            is_ident_start(s@[0]),
            forall|k: int| 0 <= k < i ==> is_ident_char(#[trigger] s@[k]),
        decreases n - i,
    {
        let c = s.get_char(i);
        let ok = ((c as u32) >= ('a' as u32) && (c as u32) <= ('z' as u32)) || ((c as u32) >= (
        'A' as u32) && (c as u32) <= ('Z' as u32)) || ((c as u32) >= ('0' as u32) && (c as u32)
            <= ('9' as u32)) || c == '_';
        if !ok {
            proof {
                assert(!is_ident_char(s@[i as int]));
            }
            return false;
        }
        i += 1;
    }
    true
}

/// The node-creation query for a label; `$uri` is bound by the caller.
pub open spec fn create_node_query_text(label: Seq<char>) -> Seq<char> {
    "CREATE (n:"@ + label + " { uri: $uri }) RETURN ID(n)"@
}

/// Builds the node-creation query for a label. The label position cannot be
/// bound as a query parameter, so the label is validated against the safe
/// identifier alphabet before it is interpolated into the query text.
pub fn create_node_query(label: &str) -> (res: Result<String, GraphError>)
    ensures
        match res {
            Ok(q) => safe_identifier(label@) && q@ == create_node_query_text(label@),
            Err(e) => !safe_identifier(label@) && e == GraphError::InvalidIdentifier,
        },
{
    if !is_safe_identifier(label) {
        return Err(GraphError::InvalidIdentifier);
    }
    let mut q: String = "CREATE (n:".to_owned();
    q.append(label);
    q.append(" { uri: $uri }) RETURN ID(n)");
    Ok(q)
}

/// The relationship-creation query for a relationship type; `$start` and
/// `$end` are bound by the caller.
pub open spec fn create_relationship_query_text(rel_type: Seq<char>) -> Seq<char> {
    "MATCH (start{uri:$start}), (end{uri:$end}) CREATE (start)-[r:"@ + rel_type
        + "]->(end) RETURN r"@
}

/// Builds the relationship-creation query for a relationship type, validated
/// against the safe identifier alphabet exactly as labels are.
pub fn create_relationship_query(rel_type: &str) -> (res: Result<String, GraphError>)
    ensures
        match res {
            Ok(q) => safe_identifier(rel_type@) && q@ == create_relationship_query_text(rel_type@),
            Err(e) => !safe_identifier(rel_type@) && e == GraphError::InvalidIdentifier,
        },
{
    if !is_safe_identifier(rel_type) {
        return Err(GraphError::InvalidIdentifier);
    }
    let mut q: String = "MATCH (start{uri:$start}), (end{uri:$end}) CREATE (start)-[r:".to_owned();
    q.append(rel_type);
    q.append("]->(end) RETURN r");
    Ok(q)
}

/// Query text for fetching one node by identifier; `$id` is bound by the
/// caller.
pub fn fetch_node_query() -> (q: &'static str)
    ensures
        q@ == "MATCH (n) WHERE ID(n) = $id RETURN n"@,
{
    "MATCH (n) WHERE ID(n) = $id RETURN n"
}

/// Query text for fetching every relationship touching one node; `$id` is
/// bound by the caller.
pub fn fetch_node_relationships_query() -> (q: &'static str)
    ensures
        q@ == "MATCH (n)-[r]->(d) WHERE ID(n) = $id OR ID(d) = $id RETURN r"@,
{
    "MATCH (n)-[r]->(d) WHERE ID(n) = $id OR ID(d) = $id RETURN r"
}

/// Query text for fetching every node.
pub fn fetch_all_nodes_query() -> (q: &'static str)
    ensures
        q@ == "MATCH (n) RETURN n"@,
{
    "MATCH (n) RETURN n"
}

/// Query text for fetching every relationship.
pub fn fetch_all_relationships_query() -> (q: &'static str)
    ensures
        q@ == "MATCH (n)-[r]->(d) RETURN r"@,
{
    "MATCH (n)-[r]->(d) RETURN r"
}

/// Query text for detaching and deleting one node by URI; `$uri` is bound by
/// the caller.
pub fn delete_node_query() -> (q: &'static str)
    ensures
        q@ == "MATCH (n{uri: $uri}) DETACH DELETE n"@,
{
    "MATCH (n{uri: $uri}) DETACH DELETE n"
}

/// Turns the rows pulled for a single-node fetch into the node: fails with
/// `NotFound` when the node query returned zero rows, and otherwise
/// assembles the first node row with the relationship rows in single-node
/// mode.
pub fn fetch_node_from_rows(node_rows: &Vec<NodeRow>, rel_rows: &Vec<RelationshipRow>) -> (res:
    Result<GraphNode, GraphError>)
    ensures
        match res {
            Ok(node) => node_rows@.len() > 0 && single_ok(node_rows@[0], rel_rows@, node),
            Err(e) => {
                ||| (node_rows@.len() == 0 && e == GraphError::NotFound)
                ||| (node_rows@.len() > 0 && single_err(node_rows@[0], rel_rows@, e))
            },
        },
{
    if node_rows.len() == 0 {
        return Err(GraphError::NotFound);
    }
    assemble_single(&node_rows[0], rel_rows)
}

/// Turns the rows pulled for a relationship creation into the relationship:
/// fails with `NotFound` when the query matched no endpoint pair and so
/// returned zero rows.
pub fn relationship_from_rows(rows: &Vec<RelationshipRow>) -> (res: Result<
    NodeRelationship,
    GraphError,
>)
    ensures
        match res {
            Ok(r) => rows@.len() > 0 && r@ == rel_of_row(rows@[0]@),
            Err(e) => rows@.len() == 0 && e == GraphError::NotFound,
        },
{
    if rows.len() == 0 {
        return Err(GraphError::NotFound);
    }
    Ok(to_node_relationship(&rows[0]))
}

/// Reads back the identifier assigned to a freshly created node: fails with
/// `NotFound` when the creation query returned no row to read it from.
pub fn created_node_id(ids: &Vec<i64>) -> (res: Result<i64, GraphError>)
    ensures
        match res {
            Ok(id) => ids@.len() > 0 && id == ids@[0],
            Err(e) => ids@.len() == 0 && e == GraphError::NotFound,
        },
{
    if ids.len() == 0 {
        return Err(GraphError::NotFound);
    }
    Ok(ids[0])
}

/// The count a node deletion reports: one node removed when the detach-delete
/// query matched, zero otherwise.
pub fn delete_count(nodes_deleted: u64) -> (r: usize)
    ensures
        r == (if nodes_deleted == 0 {
            0int
        } else {
            1int
        }),
{
    if nodes_deleted == 0 {
        0
    } else {
        1
    }
}

} // verus!
