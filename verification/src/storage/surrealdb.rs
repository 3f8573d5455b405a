//! Record keys, identifiers and queries of the SurrealDB backend.
use vstd::prelude::*;
use crate::stdtext::{alphanumeric, is_alphanumeric, uppercase};
use crate::storage::neo4j::{relation_type, underscored};
use crate::storage::ConditionOp;
use crate::storage::query_text::{
    filter_text, limit_text, order_text, order_view, push_filter, push_limit, push_order,
};
use crate::text::{collect_chars, join, join_texts, nat_text, push_u64_text, texts_view};

verus! {

/// A character allowed in a record key: alphanumeric or `_`.
pub open spec fn key_char(c: char) -> bool {
    alphanumeric(c) || c == '_'
}

/// `s` with every character that a key does not allow replaced by `_`.
pub open spec fn sanitized(s: Seq<char>) -> Seq<char> {
    s.map_values(|c: char| if key_char(c) { c } else { '_' })
}

/// A record key made from `s` (see [`sanitized`]).
pub fn sanitize_key(s: &str) -> (r: String)
    ensures
        r@ == sanitized(s@),
{
    let v = collect_chars(s);
    let mut out = String::new();
    let mut i: usize = 0;
    while i < v.len()
        invariant
            i <= v.len(),
            v@ == s@,
            out@ == sanitized(s@).take(i as int),
        decreases v.len() - i,
    {
        let c = v[i];
        if is_alphanumeric(c) || c == '_' {
            out.append(s.substring_char(i, i + 1));
        } else {
            out.append("_");
        }
        proof {
            reveal_strlit("_");
        }
        assert(out@ =~= sanitized(s@).take(i + 1));
        i = i + 1;
    }
    assert(sanitized(s@).take(i as int) =~= sanitized(s@));
    out
}

/// A key keeps the length of its source, and is its own key.
pub proof fn lemma_sanitized(s: Seq<char>)
    ensures
        sanitized(s).len() == s.len(),
        sanitized(sanitized(s)) == sanitized(s),
{
    assert(sanitized(sanitized(s)) =~= sanitized(s));
}

/// A record identifier quoted with backticks.
pub fn surreal_id(id: &str) -> (r: String)
    ensures
        r@ == "`"@ + id@ + "`"@,
{
    let mut s = String::from_str("`");
    s.append(id);
    s.append("`");
    s
}

pub open spec fn surreal_op(op: ConditionOp) -> Seq<char> {
    match op {
        ConditionOp::Eq => "="@,
        ConditionOp::Ne => "!="@,
        ConditionOp::Lt => "<"@,
        ConditionOp::Le => "<="@,
        ConditionOp::Gt => ">"@,
        ConditionOp::Ge => ">="@,
    }
}

/// A condition on field `f`, compared with the value written as SurrealQL `v`.
pub open spec fn surreal_condition(f: Seq<char>, op: ConditionOp, v: Seq<char>) -> Seq<char> {
    f + " "@ + surreal_op(op) + " "@ + v
}

pub open spec fn surreal_clauses(c: Seq<(String, ConditionOp, String)>) -> Seq<Seq<char>> {
    c.map_values(|x: (String, ConditionOp, String)| surreal_condition(x.0@, x.1, x.2@))
}

fn surreal_op_text(op: ConditionOp) -> (r: &'static str)
    ensures
        r@ == surreal_op(op),
{
    match op {
        ConditionOp::Eq => "=",
        ConditionOp::Ne => "!=",
        ConditionOp::Lt => "<",
        ConditionOp::Le => "<=",
        ConditionOp::Gt => ">",
        ConditionOp::Ge => ">=",
    }
}

fn render_surreal(c: &Vec<(String, ConditionOp, String)>) -> (r: Vec<String>)
    ensures
        texts_view(r@) == surreal_clauses(c@),
{
    let mut out: Vec<String> = Vec::new();
    let mut i: usize = 0;
    while i < c.len()
        invariant
            i <= c.len(),
            texts_view(out@) == surreal_clauses(c@).take(i as int),
        decreases c.len() - i,
    {
        let mut t = c[i].0.clone();
        t.append(" ");
        t.append(surreal_op_text(c[i].1));
        t.append(" ");
        t.append(c[i].2.as_str());
        let ghost before = texts_view(out@);
        let ghost tv = t@;
        assert(tv =~= surreal_condition(c@[i as int].0@, c@[i as int].1, c@[i as int].2@));
        assert(surreal_clauses(c@)[i as int] == tv);
        out.push(t);
        assert(texts_view(out@) =~= before.push(tv));
        assert(surreal_clauses(c@).take(i + 1) =~= surreal_clauses(c@).take(i as int).push(tv));
        i = i + 1;
    }
    assert(surreal_clauses(c@).take(i as int) =~= surreal_clauses(c@));
    out
}

/// The SurrealQL that selects the records of table `table` for which every
/// condition holds, in order and up to the limit. Each condition is its
/// field, its comparison and its value written as SurrealQL.
pub fn select_surql(
    table: &str,
    conditions: &Vec<(String, ConditionOp, String)>,
    order_by: &Option<(String, bool)>,
    limit: Option<usize>,
) -> (r: String)
    ensures
        r@ == "SELECT * FROM "@ + table@ + filter_text(
            "WHERE"@,
            surreal_clauses(conditions@),
            Seq::empty(),
        ) + order_text("ORDER BY"@, ""@, order_view(*order_by)) + limit_text(limit) + ";"@,
{
    let ands = render_surreal(conditions);
    let none: Vec<String> = Vec::new();
    assert(texts_view(none@) =~= Seq::<Seq<char>>::empty());
    let mut q = String::from_str("SELECT * FROM ");
    q.append(table);
    push_filter(&mut q, "WHERE", &ands, &none);
    push_order(&mut q, "ORDER BY", "", order_by);
    push_limit(&mut q, limit);
    q.append(";");
    q
}

/// The text `s` as a SurrealQL string: in single quotes, each quote inside
/// preceded by a backslash.
pub open spec fn surreal_string(s: Seq<char>) -> Seq<char> {
    seq!['\''] + escaped(s) + seq!['\'']
}

pub open spec fn escaped(s: Seq<char>) -> Seq<char>
    decreases s.len(),
{
    if s.len() == 0 {
        Seq::empty()
    } else {
        escaped(s.drop_last()) + if s.last() == '\'' {
            seq!['\\', '\'']
        } else {
            seq![s.last()]
        }
    }
}

/// A text value as a SurrealQL string (see [`surreal_string`]).
pub fn surreal_text(s: &str) -> (r: String)
    ensures
        r@ == surreal_string(s@),
{
    let v = collect_chars(s);
    let mut out = String::from_str("'");
    proof {
        reveal_strlit("'");
    }
    let mut i: usize = 0;
    while i < v.len()
        invariant
            i <= v.len(),
            v@ == s@,
            out@ == seq!['\''] + escaped(s@.take(i as int)),
        decreases v.len() - i,
    {
        assert(s@.take(i + 1).drop_last() =~= s@.take(i as int));
        if v[i] == '\'' {
            out.append("\\'");
            proof {
                reveal_strlit("\\'");
            }
        } else {
            out.append(s.substring_char(i, i + 1));
        }
        i = i + 1;
        assert(out@ =~= seq!['\''] + escaped(s@.take(i as int)));
    }
    assert(s@.take(i as int) =~= s@);
    out.append("'");
    out
}

/// The SurrealQL that stores a record: its fields set on record `id` of
/// table `table`, each field given as its name and its value written as
/// SurrealQL.
pub open spec fn update_text(table: Seq<char>, id: Seq<char>, fields: Seq<(String, String)>) -> Seq<
    char,
> {
    "UPDATE "@ + table + ":"@ + ("`"@ + id + "`"@) + " SET "@ + join(
        fields.map_values(|f: (String, String)| f.0@ + " = "@ + f.1@),
        ", "@,
    ) + ";"@
}

/// The statement that stores a record (see [`update_text`]).
pub fn update_surql(table: &str, id: &str, fields: &Vec<(String, String)>) -> (r: String)
    ensures
        r@ == update_text(table@, id@, fields@),
{
    let ghost want = fields@.map_values(|f: (String, String)| f.0@ + " = "@ + f.1@);
    let mut sets: Vec<String> = Vec::new();
    let mut i: usize = 0;
    while i < fields.len()
        invariant
            i <= fields.len(),
            want == fields@.map_values(|f: (String, String)| f.0@ + " = "@ + f.1@),
            texts_view(sets@) == want.take(i as int),
        decreases fields.len() - i,
    {
        let mut t = fields[i].0.clone();
        t.append(" = ");
        t.append(fields[i].1.as_str());
        let ghost before = texts_view(sets@);
        let ghost tv = t@;
        assert(want[i as int] == tv);
        sets.push(t);
        assert(texts_view(sets@) =~= before.push(tv));
        assert(want.take(i + 1) =~= want.take(i as int).push(tv));
        i = i + 1;
    }
    assert(want.take(i as int) =~= want);
    let mut q = String::from_str("UPDATE ");
    q.append(table);
    q.append(":");
    let quoted = surreal_id(id);
    q.append(quoted.as_str());
    q.append(" SET ");
    let joined = join_texts(&sets, ", ");
    q.append(joined.as_str());
    q.append(";");
    q
}

/// The SurrealQL that stores the triple of fact `fact_id`: both ends as
/// `Entity` records keyed by their sanitized names, related by the
/// predicate's relationship type.
pub open spec fn triple_text(subject: Seq<char>, predicate: Seq<char>, object: Seq<char>, fact_id: Seq<
    char,
>) -> Seq<char> {
    let sk = sanitized(subject);
    let ok = sanitized(object);
    "UPDATE Entity:"@ + sk + " SET name = '"@ + subject + "'; UPDATE Entity:"@ + ok
        + " SET name = '"@ + object + "'; RELATE Entity:"@ + sk + "->"@ + underscored(
        uppercase(predicate),
    ) + "->Entity:"@ + ok + " SET predicate = '"@ + predicate + "', fact_id = '"@ + fact_id
        + "';"@
}

/// The statement that stores the triple of a fact (see [`triple_text`]),
/// when its subject, predicate and object are all non-empty texts.
pub fn triple_surql(
    subject: &Option<String>,
    predicate: &Option<String>,
    object: &Option<String>,
    fact_id: &str,
) -> (r: Option<String>)
    ensures
        r is Some <==> (subject matches Some(s) && s@.len() > 0) && (predicate matches Some(p)
            && p@.len() > 0) && (object matches Some(o) && o@.len() > 0),
        r matches Some(q) ==> (subject matches Some(s) && predicate matches Some(p)
            && object matches Some(o) && q@ == triple_text(s@, p@, o@, fact_id@)),
{
    match (subject, predicate, object) {
        (Some(s), Some(p), Some(o)) => {
            if s.as_str().unicode_len() == 0 || p.as_str().unicode_len() == 0
                || o.as_str().unicode_len() == 0 {
                return None;
            }
            let sk = sanitize_key(s.as_str());
            let ok = sanitize_key(o.as_str());
            let rel = relation_type(p.as_str());
            let mut q = String::from_str("UPDATE Entity:");
            q.append(sk.as_str());
            q.append(" SET name = '");
            q.append(s.as_str());
            q.append("'; UPDATE Entity:");
            q.append(ok.as_str());
            q.append(" SET name = '");
            q.append(o.as_str());
            q.append("'; RELATE Entity:");
            q.append(sk.as_str());
            q.append("->");
            q.append(rel.as_str());
            q.append("->Entity:");
            q.append(ok.as_str());
            q.append(" SET predicate = '");
            q.append(p.as_str());
            q.append("', fact_id = '");
            q.append(fact_id);
            q.append("';");
            Some(q)
        },
        _ => None,
    }
}

/// The SurrealQL that finds the facts within `hops` steps of an `Entity`
/// whose name shares, ignoring case, any part with `input`.
pub open spec fn graph_match_text(input: Seq<char>, hops: usize) -> Seq<char> {
    "SELECT ->?["@ + nat_text(hops as nat)
        + "]->?.fact_id AS ids FROM Entity WHERE string::lowercase(name) CONTAINSANY string::lowercase('"@
        + input + "');"@
}

/// The graph-match statement (see [`graph_match_text`]).
pub fn graph_match_surql(input: &str, hops: usize) -> (r: String)
    ensures
        r@ == graph_match_text(input@, hops),
{
    let mut q = String::from_str("SELECT ->?[");
    push_u64_text(&mut q, hops as u64);
    q.append(
        "]->?.fact_id AS ids FROM Entity WHERE string::lowercase(name) CONTAINSANY string::lowercase('",
    );
    q.append(input);
    q.append("');");
    q
}

/// The SurrealQL written for a comparison of the language selects what the
/// comparison keeps: for integers within 2^53 in magnitude, the operator
/// written for `a op b` holds of `a` and `b` exactly when `a op b` evaluates
/// to `true`.
pub proof fn lemma_surreal_condition_agrees(c: crate::ast::BinOp, a: i64, b: i64)
    requires
        crate::filter_plan::cond_op(c) is Some,
        crate::value::exact_in_f64(a),
        crate::value::exact_in_f64(b),
    ensures
        crate::storage::query_op_holds(surreal_op(crate::filter_plan::cond_op(c)->0), a as int, b as int) == (
        crate::value::binop_spec(crate::value::ValueV::Int(a), c, crate::value::ValueV::Int(b))
            == crate::value::BinopOutcomeV::Value(crate::value::ValueV::Bool(true))),
{
    crate::value::lemma_binop_on_integers(a, b);
    crate::storage::lemma_query_ops(a as int, b as int);
}

} // verus!
