//! Document keys and queries of the ArangoDB backend.
use vstd::prelude::*;
use crate::stdtext::{alphanumeric, is_alphanumeric};
use crate::storage::ConditionOp;
use crate::storage::query_text::{
    filter_text, limit_text, order_text, order_view, push_filter, push_limit, push_order,
};
use crate::text::{collect_chars, nat_text, push_u64_text, texts_view};

verus! {

/// A character allowed in a document key: alphanumeric, `_` or `-`.
pub open spec fn key_char(c: char) -> bool {
    alphanumeric(c) || c == '_' || c == '-'
}

/// `s` with every character that a key does not allow replaced by `_`.
pub open spec fn sanitized(s: Seq<char>) -> Seq<char> {
    s.map_values(|c: char| if key_char(c) { c } else { '_' })
}

/// A document key made from `s` (see [`sanitized`]).
pub fn sanitize_key(s: &str) -> (r: String)
    ensures
        r@ == sanitized(s@),
{
    let v = collect_chars(s);
    let mut out = String::new();
    let mut i: usize = 0;
    while i < v.len()
        invariant
            i <= v.len(),
            v@ == s@,
            out@ == sanitized(s@).take(i as int),
        decreases v.len() - i,
    {
        let c = v[i];
        if is_alphanumeric(c) || c == '_' || c == '-' {
            out.append(s.substring_char(i, i + 1));
        } else {
            out.append("_");
        }
        proof {
            reveal_strlit("_");
        }
        assert(out@ =~= sanitized(s@).take(i + 1));
        i = i + 1;
    }
    assert(sanitized(s@).take(i as int) =~= sanitized(s@));
    out
}

/// A key keeps the length of its source, and is its own key.
pub proof fn lemma_sanitized(s: Seq<char>)
    ensures
        sanitized(s).len() == s.len(),
        sanitized(sanitized(s)) == sanitized(s),
{
    assert(sanitized(sanitized(s)) =~= sanitized(s));
}

pub open spec fn aql_op(op: ConditionOp) -> Seq<char> {
    match op {
        ConditionOp::Eq => "=="@,
        ConditionOp::Ne => "!="@,
        ConditionOp::Lt => "<"@,
        ConditionOp::Le => "<="@,
        ConditionOp::Gt => ">"@,
        ConditionOp::Ge => ">="@,
    }
}

/// A condition on attribute `f` of `doc`, compared with the quoted value text `v`.
pub open spec fn aql_condition(f: Seq<char>, op: ConditionOp, v: Seq<char>) -> Seq<char> {
    "doc."@ + f + " "@ + aql_op(op) + " '"@ + v + "'"@
}

pub open spec fn aql_clauses(c: Seq<(String, ConditionOp, String)>) -> Seq<Seq<char>> {
    c.map_values(|x: (String, ConditionOp, String)| aql_condition(x.0@, x.1, x.2@))
}

fn aql_op_text(op: ConditionOp) -> (r: &'static str)
    ensures
        r@ == aql_op(op),
{
    match op {
        ConditionOp::Eq => "==",
        ConditionOp::Ne => "!=",
        ConditionOp::Lt => "<",
        ConditionOp::Le => "<=",
        ConditionOp::Gt => ">",
        ConditionOp::Ge => ">=",
    }
}

fn render_aql(c: &Vec<(String, ConditionOp, String)>) -> (r: Vec<String>)
    ensures
        texts_view(r@) == aql_clauses(c@),
{
    let mut out: Vec<String> = Vec::new();
    let mut i: usize = 0;
    while i < c.len()
        invariant
            i <= c.len(),
            texts_view(out@) == aql_clauses(c@).take(i as int),
        decreases c.len() - i,
    {
        let mut t = String::from_str("doc.");
        t.append(c[i].0.as_str());
        t.append(" ");
        t.append(aql_op_text(c[i].1));
        t.append(" '");
        t.append(c[i].2.as_str());
        t.append("'");
        let ghost before = texts_view(out@);
        let ghost tv = t@;
        assert(tv =~= aql_condition(c@[i as int].0@, c@[i as int].1, c@[i as int].2@));
        assert(aql_clauses(c@)[i as int] == tv);
        out.push(t);
        assert(texts_view(out@) =~= before.push(tv));
        assert(aql_clauses(c@).take(i + 1) =~= aql_clauses(c@).take(i as int).push(tv));
        i = i + 1;
    }
    assert(aql_clauses(c@).take(i as int) =~= aql_clauses(c@));
    out
}

/// The AQL that returns the documents of collection `collection` for which
/// every condition holds, in order and up to the limit. Each condition is its
/// attribute, its comparison and its value as text.
pub fn for_aql(
    collection: &str,
    conditions: &Vec<(String, ConditionOp, String)>,
    order_by: &Option<(String, bool)>,
    limit: Option<usize>,
) -> (r: String)
    ensures
        r@ == "FOR doc IN "@ + collection@ + filter_text(
            "FILTER"@,
            aql_clauses(conditions@),
            Seq::empty(),
        ) + order_text("SORT"@, "doc."@, order_view(*order_by)) + limit_text(limit)
            + " RETURN doc"@,
{
    let ands = render_aql(conditions);
    let none: Vec<String> = Vec::new();
    assert(texts_view(none@) =~= Seq::<Seq<char>>::empty());
    let mut q = String::from_str("FOR doc IN ");
    q.append(collection);
    push_filter(&mut q, "FILTER", &ands, &none);
    push_order(&mut q, "SORT", "doc.", order_by);
    push_limit(&mut q, limit);
    q.append(" RETURN doc");
    q
}

/// The AQL that finds the documents of collection `collection` within
/// `hops` steps, along its edge collection, of an `Entity` whose name occurs,
/// ignoring case, in the `$input` parameter.
pub open spec fn graph_match_text(collection: Seq<char>, hops: usize) -> Seq<char> {
    "FOR entity IN Entity\n                FILTER CONTAINS(LOWER($input), LOWER(entity.name))\n                FOR v, e, p IN 1.."@
        + nat_text(hops as nat) + " ANY entity "@ + collection
        + "_edges\n                    FILTER IS_SAME_COLLECTION('"@ + collection
        + "', v)\n                    RETURN DISTINCT v._id_field"@
}

/// The graph-match query (see [`graph_match_text`]).
pub fn graph_match_aql(collection: &str, hops: usize) -> (r: String)
    ensures
        r@ == graph_match_text(collection@, hops),
{
    let mut q = String::from_str(
        "FOR entity IN Entity\n                FILTER CONTAINS(LOWER($input), LOWER(entity.name))\n                FOR v, e, p IN 1..",
    );
    push_u64_text(&mut q, hops as u64);
    q.append(" ANY entity ");
    q.append(collection);
    q.append("_edges\n                    FILTER IS_SAME_COLLECTION('");
    q.append(collection);
    q.append("', v)\n                    RETURN DISTINCT v._id_field");
    q
}

/// The AQL written for a comparison of the language selects what the
/// comparison keeps: for integers within 2^53 in magnitude, the operator
/// written for `a op b` holds of `a` and `b` exactly when `a op b` evaluates
/// to `true`.
pub proof fn lemma_aql_condition_agrees(c: crate::ast::BinOp, a: i64, b: i64)
    requires
        crate::filter_plan::cond_op(c) is Some,
        crate::value::exact_in_f64(a),
        crate::value::exact_in_f64(b),
    ensures
        crate::storage::query_op_holds(aql_op(crate::filter_plan::cond_op(c)->0), a as int, b as int) == (
        crate::value::binop_spec(crate::value::ValueV::Int(a), c, crate::value::ValueV::Int(b))
            == crate::value::BinopOutcomeV::Value(crate::value::ValueV::Bool(true))),
{
    crate::value::lemma_binop_on_integers(a, b);
    crate::storage::lemma_query_ops(a as int, b as int);
}

} // verus!
