//! The total order on relationships and the sorted-set operations built on it.
//!
//! A node's adjacency view is a sequence of relationships kept strictly
//! ascending under the order (id, start_id, end_id, relationship_type); strict
//! sortedness makes the sequence a set and fixes its iteration order, so
//! assembled output is deterministic.

use vstd::prelude::*;
use vstd::string::StrSliceExecFns;
use crate::model::NodeRelationship;
use crate::model::RelView;

verus! {

/// Lexicographic order on character sequences, by code point.
pub open spec fn seq_lt(a: Seq<char>, b: Seq<char>) -> bool
    decreases a.len(),
{
    if b.len() == 0 {
        false
    } else if a.len() == 0 {
        true
    } else if (a[0] as u32) < (b[0] as u32) {
        true
    } else if a[0] == b[0] {
        seq_lt(a.drop_first(), b.drop_first())
    } else {
        false
    }
}

/// Casting to a code point is injective: two characters with the same code
/// point are the same character.
proof fn lemma_char_eq_from_u32(a: char, b: char)
    requires
        a as u32 == b as u32,
    ensures
        a == b,
{
    vstd::utf8::char_u32_cast(a, a as u32);
    vstd::utf8::char_u32_cast(b, b as u32);
}

pub proof fn lemma_seq_lt_irreflexive(a: Seq<char>)
    ensures
        !seq_lt(a, a),
    decreases a.len(),
{
    if a.len() > 0 {
        lemma_seq_lt_irreflexive(a.drop_first());
    }
}

pub proof fn lemma_seq_lt_trichotomy(a: Seq<char>, b: Seq<char>)
    ensures
        seq_lt(a, b) || seq_lt(b, a) || a == b,
    decreases a.len(),
{
    if a.len() == 0 && b.len() == 0 {
        assert(a =~= b);
    } else if a.len() > 0 && b.len() > 0 {
        if !((a[0] as u32) < (b[0] as u32)) && !((b[0] as u32) < (a[0] as u32)) {
            lemma_char_eq_from_u32(a[0], b[0]);
            lemma_seq_lt_trichotomy(a.drop_first(), b.drop_first());
            if a.drop_first() == b.drop_first() {
                assert(a.drop_first().len() == b.drop_first().len());
                assert(a.len() == b.len());
                assert forall|k: int| 0 <= k < a.len() implies a[k] == b[k] by {
                    if k > 0 {
                        assert(a[k] == a.drop_first()[k - 1]);
                        assert(b[k] == b.drop_first()[k - 1]);
                    }
                }
                assert(a =~= b);
            }
        }
    }
}

pub proof fn lemma_seq_lt_asymmetric(a: Seq<char>, b: Seq<char>)
    ensures
        !(seq_lt(a, b) && seq_lt(b, a)),
    decreases a.len(),
{
    if a.len() > 0 && b.len() > 0 && a[0] == b[0] {
        lemma_seq_lt_asymmetric(a.drop_first(), b.drop_first());
    }
}

pub proof fn lemma_seq_lt_transitive(a: Seq<char>, b: Seq<char>, c: Seq<char>)
    ensures
        seq_lt(a, b) && seq_lt(b, c) ==> seq_lt(a, c),
    decreases a.len(),
{
    if seq_lt(a, b) && seq_lt(b, c) {
        if a.len() > 0 && b.len() > 0 && c.len() > 0 {
            if a[0] == b[0] && b[0] == c[0] {
                lemma_seq_lt_transitive(a.drop_first(), b.drop_first(), c.drop_first());
            }
        }
    }
}

/// The total order on relationships: first by `id`, then `start_id`, then
/// `end_id`, then lexicographically by `relationship_type`.
pub open spec fn rel_lt(a: RelView, b: RelView) -> bool {
    if a.id != b.id {
        a.id < b.id
    } else if a.start_id != b.start_id {
        a.start_id < b.start_id
    } else if a.end_id != b.end_id {
        a.end_id < b.end_id
    } else {
        seq_lt(a.relationship_type, b.relationship_type)
    }
}

pub proof fn lemma_rel_lt_irreflexive(a: RelView)
    ensures
        !rel_lt(a, a),
{
    lemma_seq_lt_irreflexive(a.relationship_type);
}

pub proof fn lemma_rel_lt_trichotomy(a: RelView, b: RelView)
    ensures
        rel_lt(a, b) || rel_lt(b, a) || a == b,
{
    if a.id == b.id && a.start_id == b.start_id && a.end_id == b.end_id {
        lemma_seq_lt_trichotomy(a.relationship_type, b.relationship_type);
    }
}

pub proof fn lemma_rel_lt_asymmetric(a: RelView, b: RelView)
    ensures
        !(rel_lt(a, b) && rel_lt(b, a)),
{
    lemma_seq_lt_asymmetric(a.relationship_type, b.relationship_type);
}

pub proof fn lemma_rel_lt_transitive(a: RelView, b: RelView, c: RelView)
    ensures
        rel_lt(a, b) && rel_lt(b, c) ==> rel_lt(a, c),
{
    lemma_seq_lt_transitive(a.relationship_type, b.relationship_type, c.relationship_type);
}

/// The views of a sequence of relationship values.
pub open spec fn rel_views(s: Seq<NodeRelationship>) -> Seq<RelView> {
    s.map_values(|x: NodeRelationship| x@)
}

/// Strictly ascending in the relationship order; a strictly sorted sequence
/// has no duplicates, so it represents a set.
pub open spec fn sorted_rels(s: Seq<RelView>) -> bool {
    forall|i: int, j: int| 0 <= i < j < s.len() ==> rel_lt(s[i], s[j])
}

/// Two strictly sorted sequences with the same elements are equal: the order
/// admits exactly one sorted arrangement of a set.
pub proof fn lemma_sorted_rels_unique(a: Seq<RelView>, b: Seq<RelView>)
    requires
        sorted_rels(a),
        sorted_rels(b),
        a.to_set() == b.to_set(),
    ensures
        a == b,
    decreases a.len(),
{
    if a.len() == 0 {
        if b.len() > 0 {
            assert(b.to_set().contains(b[0]));
            assert(a.to_set().contains(b[0]));
        }
        assert(a =~= b);
    } else {
        assert(a.to_set().contains(a[0]));
        assert(b.to_set().contains(a[0]));
        assert(b.to_set().contains(b[0]));
        assert(a.to_set().contains(b[0]));
        let i = choose|i: int| 0 <= i < b.len() && b[i] == a[0];
        let j = choose|j: int| 0 <= j < a.len() && a[j] == b[0];
        if i > 0 {
            assert(rel_lt(b[0], b[i]));
            if j > 0 {
                assert(rel_lt(a[0], a[j]));
                lemma_rel_lt_asymmetric(a[0], b[0]);
                assert(false);
            }
            lemma_rel_lt_irreflexive(a[0]);
            assert(false);
        }
        assert(a[0] == b[0]);
        assert(a.drop_first().to_set() =~= b.drop_first().to_set()) by {
            assert forall|x: RelView| a.drop_first().to_set().contains(x) implies b.drop_first()
                .to_set().contains(x) by {
                let k = choose|k: int| 0 <= k < a.drop_first().len() && a.drop_first()[k] == x;
                assert(a[k + 1] == x);
                assert(rel_lt(a[0], x));
                assert(a.to_set().contains(x));
                assert(b.to_set().contains(x));
                let m = choose|m: int| 0 <= m < b.len() && b[m] == x;
                if m == 0 {
                    lemma_rel_lt_irreflexive(x);
                    assert(false);
                }
                assert(b.drop_first()[m - 1] == x);
                assert(b.drop_first().contains(x));
            }
            assert forall|x: RelView| b.drop_first().to_set().contains(x) implies a.drop_first()
                .to_set().contains(x) by {
                let k = choose|k: int| 0 <= k < b.drop_first().len() && b.drop_first()[k] == x;
                assert(b[k + 1] == x);
                assert(rel_lt(b[0], x));
                assert(b.to_set().contains(x));
                assert(a.to_set().contains(x));
                let m = choose|m: int| 0 <= m < a.len() && a[m] == x;
                if m == 0 {
                    lemma_rel_lt_irreflexive(x);
                    assert(false);
                }
                assert(a.drop_first()[m - 1] == x);
                assert(a.drop_first().contains(x));
            }
        }
        lemma_sorted_rels_unique(a.drop_first(), b.drop_first());
        assert forall|k: int| 0 <= k < a.len() implies a[k] == b[k] by {
            if k > 0 {
                assert(a[k] == a.drop_first()[k - 1]);
                assert(b[k] == b.drop_first()[k - 1]);
            }
        }
        assert(a.len() == 1 + a.drop_first().len());
        assert(b.len() == 1 + b.drop_first().len());
        assert(a =~= b);
    }
}

/// Whether `r` comes strictly before `s` in the relationship order.
/// Decides `rel_lt` on the views.
pub fn rel_lt_exec(a: &NodeRelationship, b: &NodeRelationship) -> (r: bool)
    ensures
        r == rel_lt(a@, b@),
{
    if a.id != b.id {
        a.id < b.id
    } else if a.start_id != b.start_id {
        a.start_id < b.start_id
    } else if a.end_id != b.end_id {
        a.end_id < b.end_id
    } else {
        str_lt(a.relationship_type.as_str(), b.relationship_type.as_str())
    }
}

/// Whether two relationship values are equal, field by field.
pub fn rel_eq_exec(a: &NodeRelationship, b: &NodeRelationship) -> (r: bool)
    ensures
        r == (a@ == b@),
{
    let r = a.id == b.id && a.start_id == b.start_id && a.end_id == b.end_id
        && a.relationship_type == b.relationship_type;
    proof {
        if r {
            assert(a@ =~= b@);
        }
    }
    r
}

/// Decides the lexicographic code-point order on two strings.
pub fn str_lt(a: &str, b: &str) -> (r: bool)
    ensures
        r == seq_lt(a@, b@),
{
    let alen = a.unicode_len();
    let blen = b.unicode_len();
    let mut i: usize = 0;
    proof {
        assert(a@.skip(0) =~= a@);
        assert(b@.skip(0) =~= b@);
    }
    while i < alen && i < blen
        invariant
            alen == a@.len(),
            blen == b@.len(),
            i <= alen,
            i <= blen,
            seq_lt(a@, b@) == seq_lt(a@.skip(i as int), b@.skip(i as int)),
        decreases alen - i,
    {
        let ca = a.get_char(i);
        let cb = b.get_char(i);
        proof {
            assert(a@.skip(i as int)[0] == a@[i as int]);
            assert(b@.skip(i as int)[0] == b@[i as int]);
        }
        if (ca as u32) < (cb as u32) {
            return true;
        }
        if (cb as u32) < (ca as u32) {
            return false;
        }
        proof {
            lemma_char_eq_from_u32(ca, cb);
            assert(a@.skip(i as int).drop_first() =~= a@.skip(i as int + 1));
            assert(b@.skip(i as int).drop_first() =~= b@.skip(i as int + 1));
        }
        i += 1;
    }
    proof {
        if alen <= blen {
            assert(a@.skip(i as int) =~= Seq::<char>::empty());
        }
        if blen <= alen {
            assert(b@.skip(i as int) =~= Seq::<char>::empty());
        }
    }
    alen < blen
}

/// Inserts `r` into a strictly sorted adjacency sequence, keeping it strictly
/// sorted. Inserting a value that is already present leaves the sequence
/// unchanged: the adjacency view has set semantics, so re-inserting an
/// identifier-equal relationship is a no-op with respect to cardinality.
pub fn insert_relationship(rels: &mut Vec<NodeRelationship>, r: NodeRelationship)
    requires
        sorted_rels(rel_views(old(rels)@)),
    ensures
        sorted_rels(rel_views(final(rels)@)),
        rel_views(final(rels)@).to_set() == rel_views(old(rels)@).to_set().insert(r@),
        rel_views(old(rels)@).to_set().contains(r@) ==> final(rels)@ == old(rels)@,
        !rel_views(old(rels)@).to_set().contains(r@) ==> final(rels)@.len() == old(rels)@.len()
            + 1,
{
    let n = rels.len();
    let mut i: usize = 0;
    while i < n
        invariant
            i <= n,
            n == rels@.len(),
            rels@ == old(rels)@,
            sorted_rels(rel_views(rels@)),
            forall|k: int| 0 <= k < i ==> rel_lt(rel_views(rels@)[k], r@),
        decreases n - i,
    {
        if !rel_lt_exec(&rels[i], &r) {
            if rel_eq_exec(&rels[i], &r) {
                proof {
                    let vs = rel_views(rels@);
                    assert(vs[i as int] == r@);
                    assert(vs.to_set().contains(r@));
                    assert(vs.to_set().insert(r@) =~= vs.to_set());
                }
                return;
            }
            proof {
                let vs = rel_views(rels@);
                lemma_rel_lt_trichotomy(vs[i as int], r@);
                assert forall|k: int| i <= k < vs.len() implies rel_lt(r@, vs[k]) by {
                    if k > i {
                        assert(rel_lt(vs[i as int], vs[k]));
                        lemma_rel_lt_transitive(r@, vs[i as int], vs[k]);
                    }
                }
            }
            let ghost before = rels@;
            rels.insert(i, r);
            proof {
                lemma_insert_keeps_order(before, i as int, r);
            }
            return;
        }
        i += 1;
    }
    let ghost before = rels@;
    rels.push(r);
    proof {
        assert(rels@ =~= before.insert(n as int, r));
        lemma_insert_keeps_order(before, n as int, r);
    }
}

/// Inserting a fresh value at the boundary between the elements below it and
/// the elements above it keeps the sequence strictly sorted and adds exactly
/// that value to the element set.
proof fn lemma_insert_keeps_order(s: Seq<NodeRelationship>, i: int, r: NodeRelationship)
    requires
        0 <= i <= s.len(),
        sorted_rels(rel_views(s)),
        forall|k: int| 0 <= k < i ==> rel_lt(rel_views(s)[k], r@),
        forall|k: int| i <= k < s.len() ==> rel_lt(r@, rel_views(s)[k]),
    ensures
        sorted_rels(rel_views(s.insert(i, r))),
        rel_views(s.insert(i, r)).to_set() == rel_views(s).to_set().insert(r@),
        !rel_views(s).to_set().contains(r@),
        s.insert(i, r).len() == s.len() + 1,
{
    let vs = rel_views(s);
    let t = s.insert(i, r);
    let vt = rel_views(t);
    assert(vt =~= vs.insert(i, r@)) by {
        s.insert_ensures(i, r);
        vs.insert_ensures(i, r@);
        assert forall|k: int| 0 <= k < vt.len() implies vt[k] == vs.insert(i, r@)[k] by {
            assert(vt[k] == t[k]@);
        }
    }
    vs.insert_ensures(i, r@);
    assert forall|p: int, q: int| 0 <= p < q < vt.len() implies rel_lt(vt[p], vt[q]) by {
        if p < i && q < i {
            assert(vt[p] == vs[p] && vt[q] == vs[q]);
        } else if p < i && q == i {
            assert(vt[p] == vs[p] && vt[q] == r@);
        } else if p < i && q > i {
            assert(vt[p] == vs[p] && vt[q] == vs[q - 1]);
        } else if p == i {
            assert(vt[p] == r@ && vt[q] == vs[q - 1]);
        } else {
            assert(vt[p] == vs[p - 1] && vt[q] == vs[q - 1]);
        }
    }
    assert forall|k: int| 0 <= k < vs.len() implies vs[k] != r@ by {
        lemma_rel_lt_irreflexive(r@);
        if k < i {
            assert(rel_lt(vs[k], r@));
        } else {
            assert(rel_lt(r@, vs[k]));
        }
    }
    assert(!vs.to_set().contains(r@));
    assert(vt.to_set() =~= vs.to_set().insert(r@)) by {
        assert forall|x: RelView| vt.to_set().contains(x) implies vs.to_set().insert(r@).contains(
            x,
        ) by {
            let k = choose|k: int| 0 <= k < vt.len() && vt[k] == x;
            if k < i {
                assert(vs[k] == x);
                assert(vs.contains(x));
            } else if k == i {
                assert(x == r@);
            } else {
                assert(vs[k - 1] == x);
                assert(vs.contains(x));
            }
        }
        assert forall|x: RelView| vs.to_set().insert(r@).contains(x) implies vt.to_set().contains(
            x,
        ) by {
            if x == r@ {
                assert(vt[i] == x);
                assert(vt.contains(x));
            } else {
                let k = choose|k: int| 0 <= k < vs.len() && vs[k] == x;
                if k < i {
                    assert(vt[k] == x);
                } else {
                    assert(vt[k + 1] == x);
                }
                assert(vt.contains(x));
            }
        }
    }
}

} // verus!
