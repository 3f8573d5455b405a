//! Queries of the Neo4j backend, in Cypher.
use vstd::prelude::*;
use crate::stdtext::{to_uppercase, uppercase};
use crate::storage::ConditionOp;
use crate::storage::query_text::{
    filter_text, limit_text, order_text, order_view, push_filter, push_limit, push_order,
};
use crate::text::{collect_chars, nat_text, push_u64_text, texts_view};

verus! {

/// The right-hand side of a condition: null, or a value already written as text.
#[derive(Debug, Clone)]
pub enum CypherValue {
    Null,
    Text(String),
}

pub open spec fn cypher_op(op: ConditionOp) -> Seq<char> {
    match op {
        ConditionOp::Eq => "="@,
        ConditionOp::Ne => "<>"@,
        ConditionOp::Lt => "<"@,
        ConditionOp::Le => "<="@,
        ConditionOp::Gt => ">"@,
        ConditionOp::Ge => ">="@,
    }
}

/// A condition on field `f` of node `n`: a null test when the value is null
/// (`=` and `<>` become `IS NULL` and `IS NOT NULL`), else a comparison with
/// the quoted value.
pub open spec fn cypher_condition(f: Seq<char>, op: ConditionOp, v: CypherValue) -> Seq<char> {
    match v {
        CypherValue::Null => match op {
            ConditionOp::Eq => "n."@ + f + " IS NULL"@,
            ConditionOp::Ne => "n."@ + f + " IS NOT NULL"@,
            _ => "n."@ + f + " = null"@,
        },
        CypherValue::Text(t) => "n."@ + f + " "@ + cypher_op(op) + " '"@ + t@ + "'"@,
    }
}

fn op_text(op: ConditionOp) -> (r: &'static str)
    ensures
        r@ == cypher_op(op),
{
    match op {
        ConditionOp::Eq => "=",
        ConditionOp::Ne => "<>",
        ConditionOp::Lt => "<",
        ConditionOp::Le => "<=",
        ConditionOp::Gt => ">",
        ConditionOp::Ge => ">=",
    }
}

/// The condition `field op value` in Cypher (see [`cypher_condition`]).
pub fn condition_to_cypher(field: &String, op: ConditionOp, value: &CypherValue) -> (r: String)
    ensures
        r@ == cypher_condition(field@, op, *value),
{
    let mut s = String::from_str("n.");
    s.append(field.as_str());
    match value {
        CypherValue::Null => {
            match op {
                ConditionOp::Eq => s.append(" IS NULL"),
                ConditionOp::Ne => s.append(" IS NOT NULL"),
                _ => s.append(" = null"),
            }
        },
        CypherValue::Text(t) => {
            s.append(" ");
            s.append(op_text(op));
            s.append(" '");
            s.append(t.as_str());
            s.append("'");
        },
    }
    assert(s@ =~= cypher_condition(field@, op, *value));
    s
}

pub open spec fn cypher_clauses(c: Seq<(String, ConditionOp, CypherValue)>) -> Seq<Seq<char>> {
    c.map_values(|x: (String, ConditionOp, CypherValue)| cypher_condition(x.0@, x.1, x.2))
}

fn render_cypher(c: &Vec<(String, ConditionOp, CypherValue)>) -> (r: Vec<String>)
    ensures
        texts_view(r@) == cypher_clauses(c@),
{
    let mut out: Vec<String> = Vec::new();
    let mut i: usize = 0;
    while i < c.len()
        invariant
            i <= c.len(),
            texts_view(out@) == cypher_clauses(c@).take(i as int),
        decreases c.len() - i,
    {
        let text = condition_to_cypher(&c[i].0, c[i].1, &c[i].2);
        let ghost before = texts_view(out@);
        let ghost tv = text@;
        assert(cypher_clauses(c@)[i as int] == tv);
        out.push(text);
        assert(texts_view(out@) =~= before.push(tv));
        assert(cypher_clauses(c@).take(i + 1) =~= cypher_clauses(c@).take(i as int).push(tv));
        assert(texts_view(out@) =~= cypher_clauses(c@).take(i + 1));
        i = i + 1;
    }
    assert(cypher_clauses(c@).take(i as int) =~= cypher_clauses(c@));
    out
}

/// The Cypher that returns the nodes labelled `label` for which every
/// condition holds and, where there are alternatives, one of them does; then
/// the order and the limit.
pub fn match_cypher(
    label: &str,
    conditions: &Vec<(String, ConditionOp, CypherValue)>,
    or_conditions: &Vec<(String, ConditionOp, CypherValue)>,
    order_by: &Option<(String, bool)>,
    limit: Option<usize>,
) -> (r: String)
    ensures
        r@ == "MATCH (n:"@ + label@ + ")"@ + filter_text(
            "WHERE"@,
            cypher_clauses(conditions@),
            cypher_clauses(or_conditions@),
        ) + " RETURN n"@ + order_text("ORDER BY"@, "n."@, order_view(*order_by)) + limit_text(
            limit,
        ),
{
    let ands = render_cypher(conditions);
    let ors = render_cypher(or_conditions);
    let mut q = String::from_str("MATCH (n:");
    q.append(label);
    q.append(")");
    push_filter(&mut q, "WHERE", &ands, &ors);
    q.append(" RETURN n");
    push_order(&mut q, "ORDER BY", "n.", order_by);
    push_limit(&mut q, limit);
    q
}

/// `s` with spaces and hyphens turned into underscores.
pub open spec fn underscored(s: Seq<char>) -> Seq<char> {
    s.map_values(|c: char| if c == ' ' || c == '-' { '_' } else { c })
}

/// The relationship type for a predicate: its uppercase form, with spaces and
/// hyphens turned into underscores.
pub fn relation_type(predicate: &str) -> (r: String)
    ensures
        r@ == underscored(uppercase(predicate@)),
{
    let up = to_uppercase(predicate);
    let v = collect_chars(up.as_str());
    let mut out = String::new();
    let mut i: usize = 0;
    while i < v.len()
        invariant
            i <= v.len(),
            v@ == up@,
            out@ == underscored(up@).take(i as int),
        decreases v.len() - i,
    {
        let c = v[i];
        if c == ' ' || c == '-' {
            out.append("_");
            proof {
                reveal_strlit("_");
            }
        } else {
            out.append(up.as_str().substring_char(i, i + 1));
        }
        assert(out@ =~= underscored(up@).take(i + 1));
        i = i + 1;
    }
    assert(underscored(up@).take(i as int) =~= underscored(up@));
    out
}

/// The Cypher that stores a subject/predicate/object triple of a fact
/// labelled `label`: both ends become `Entity` nodes (made once, keeping
/// their first id), joined by a `rel` relationship, and each is linked to the
/// fact by `HAS_FACT`. The values come in as parameters.
pub open spec fn triple_text(label: Seq<char>, rel: Seq<char>) -> Seq<char> {
    "MERGE (s:Entity {name: $subject}) ON CREATE SET s._id = $sub_id ON MATCH SET s._id = coalesce(s._id, $sub_id) MERGE (o:Entity {name: $object}) ON CREATE SET o._id = $obj_id ON MATCH SET o._id = coalesce(o._id, $obj_id) MERGE (s)-[r:"@
        + rel + "]->(o) SET r.predicate = $predicate WITH s, o MATCH (f:"@ + label
        + " {_id: $fact_id}) MERGE (s)-[:HAS_FACT]->(f) MERGE (o)-[:HAS_FACT]->(f)"@
}

/// The statement that stores the triple of a fact (see [`triple_text`]), when
/// its subject, predicate and object are all non-empty texts; the
/// relationship is named after the predicate (see [`relation_type`]).
pub fn triple_cypher(
    label: &str,
    subject: &Option<String>,
    predicate: &Option<String>,
    object: &Option<String>,
) -> (r: Option<String>)
    ensures
        r is Some <==> (subject matches Some(s) && s@.len() > 0) && (predicate matches Some(p)
            && p@.len() > 0) && (object matches Some(o) && o@.len() > 0),
        r matches Some(q) ==> predicate matches Some(p) && q@ == triple_text(
            label@,
            underscored(uppercase(p@)),
        ),
{
    match (subject, predicate, object) {
        (Some(s), Some(p), Some(o)) => {
            if s.as_str().unicode_len() == 0 || p.as_str().unicode_len() == 0
                || o.as_str().unicode_len() == 0 {
                return None;
            }
            let rel = relation_type(p.as_str());
            let mut q = String::from_str(
                "MERGE (s:Entity {name: $subject}) ON CREATE SET s._id = $sub_id ON MATCH SET s._id = coalesce(s._id, $sub_id) MERGE (o:Entity {name: $object}) ON CREATE SET o._id = $obj_id ON MATCH SET o._id = coalesce(o._id, $obj_id) MERGE (s)-[r:",
            );
            q.append(rel.as_str());
            q.append("]->(o) SET r.predicate = $predicate WITH s, o MATCH (f:");
            q.append(label);
            q.append(" {_id: $fact_id}) MERGE (s)-[:HAS_FACT]->(f) MERGE (o)-[:HAS_FACT]->(f)");
            Some(q)
        },
        _ => None,
    }
}

/// The Cypher that finds the ids of nodes labelled `label` within `hops`
/// steps of an `Entity` whose name occurs, ignoring case, in the `$input`
/// parameter.
pub open spec fn graph_match_text(label: Seq<char>, hops: usize) -> Seq<char> {
    "MATCH (e:Entity) WHERE toLower($input) CONTAINS toLower(e.name) MATCH (e)-[*1.."@ + nat_text(
        hops as nat,
    ) + "]-(related) WHERE related:"@ + label + " RETURN DISTINCT related._id AS id"@
}

/// The graph-match statement (see [`graph_match_text`]).
pub fn graph_match_cypher(label: &str, hops: usize) -> (r: String)
    ensures
        r@ == graph_match_text(label@, hops),
{
    let mut q = String::from_str(
        "MATCH (e:Entity) WHERE toLower($input) CONTAINS toLower(e.name) MATCH (e)-[*1..",
    );
    push_u64_text(&mut q, hops as u64);
    q.append("]-(related) WHERE related:");
    q.append(label);
    q.append(" RETURN DISTINCT related._id AS id");
    q
}

/// The Cypher that stores a record as a node labelled `label`: the node with
/// the record's `$id` is made if missing, then given the id and each field,
/// every value passed as the parameter named after its field.
pub open spec fn merge_node_text(label: Seq<char>, keys: Seq<Seq<char>>) -> Seq<char> {
    "MERGE (n:"@ + label + " {_id: $id}) SET n += {_id: $id"@ + props_text(keys) + "}"@
}

/// `, key: $key` for each key, in order.
pub open spec fn props_text(keys: Seq<Seq<char>>) -> Seq<char>
    decreases keys.len(),
{
    if keys.len() == 0 {
        Seq::empty()
    } else {
        props_text(keys.drop_last()) + ", "@ + keys.last() + ": $"@ + keys.last()
    }
}

/// The statement that stores a record with the given field names (see [`merge_node_text`]).
pub fn merge_node_cypher(label: &str, keys: &Vec<String>) -> (r: String)
    ensures
        r@ == merge_node_text(label@, texts_view(keys@)),
{
    let ghost kv = texts_view(keys@);
    let mut q = String::from_str("MERGE (n:");
    q.append(label);
    q.append(" {_id: $id}) SET n += {_id: $id");
    let ghost head = q@;
    let mut i: usize = 0;
    assert(kv.take(0) =~= Seq::<Seq<char>>::empty());
    assert(q@ =~= head + props_text(kv.take(0)));
    while i < keys.len()
        invariant
            i <= keys.len(),
            kv == texts_view(keys@),
            q@ == head + props_text(kv.take(i as int)),
        decreases keys.len() - i,
    {
        assert(kv.take(i + 1).drop_last() =~= kv.take(i as int));
        assert(kv[i as int] == keys@[i as int]@);
        q.append(", ");
        q.append(keys[i].as_str());
        q.append(": $");
        q.append(keys[i].as_str());
        i = i + 1;
        assert(q@ =~= head + props_text(kv.take(i as int)));
    }
    assert(kv.take(i as int) =~= kv);
    q.append("}");
    q
}

/// The Cypher written for a comparison of the language selects what the
/// comparison keeps: for integers within 2^53 in magnitude, the operator
/// written for `a op b` holds of `a` and `b` exactly when `a op b` evaluates
/// to `true`.
pub proof fn lemma_cypher_condition_agrees(c: crate::ast::BinOp, a: i64, b: i64)
    requires
        crate::filter_plan::cond_op(c) is Some,
        crate::value::exact_in_f64(a),
        crate::value::exact_in_f64(b),
    ensures
        crate::storage::query_op_holds(cypher_op(crate::filter_plan::cond_op(c)->0), a as int, b as int) == (
        crate::value::binop_spec(crate::value::ValueV::Int(a), c, crate::value::ValueV::Int(b))
            == crate::value::BinopOutcomeV::Value(crate::value::ValueV::Bool(true))),
{
    crate::value::lemma_binop_on_integers(a, b);
    crate::storage::lemma_query_ops(a as int, b as int);
}

} // verus!
