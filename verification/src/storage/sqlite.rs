//! Column types and queries of the SQLite backend.
use vstd::prelude::*;
use crate::storage::ConditionOp;
use crate::storage::query_text::{
    filter_text, limit_text, order_text, order_view, push_filter, push_limit, push_order,
};
use crate::text::{join, join_texts, text_eq, texts_view};

verus! {

/// The SQLite column type for a field type name.
pub open spec fn sql_type_of(t: Seq<char>) -> Seq<char> {
    if t == "int"@ || t == "bool"@ {
        "INTEGER"@
    } else if t == "float"@ || t == "bounded_float"@ {
        "REAL"@
    } else {
        "TEXT"@
    }
}

/// The SQLite column type for a field type name (see [`sql_type_of`]).
pub fn sql_type(synapse_type: &str) -> (r: &'static str)
    ensures
        r@ == sql_type_of(synapse_type@),
{
    if text_eq(synapse_type, "int") || text_eq(synapse_type, "bool") {
        "INTEGER"
    } else if text_eq(synapse_type, "float") || text_eq(synapse_type, "bounded_float") {
        "REAL"
    } else {
        "TEXT"
    }
}

pub open spec fn sql_op(op: ConditionOp) -> Seq<char> {
    match op {
        ConditionOp::Eq => "="@,
        ConditionOp::Ne => "!="@,
        ConditionOp::Lt => "<"@,
        ConditionOp::Le => "<="@,
        ConditionOp::Gt => ">"@,
        ConditionOp::Ge => ">="@,
    }
}

/// A condition on column `f` as SQL, and whether the value is bound to a `?`
/// in it: a null value makes `=` and `<>` into `IS NULL` and `IS NOT NULL`
/// with nothing bound; any other condition compares with a bound value.
pub open spec fn sql_condition(f: Seq<char>, op: ConditionOp, value_is_null: bool) -> (
    Seq<char>,
    bool,
) {
    if value_is_null && op == ConditionOp::Eq {
        (f + " IS NULL"@, false)
    } else if value_is_null && op == ConditionOp::Ne {
        (f + " IS NOT NULL"@, false)
    } else if value_is_null {
        (f + " = ?"@, true)
    } else {
        (f + " "@ + sql_op(op) + " ?"@, true)
    }
}

fn sql_op_text(op: ConditionOp) -> (r: &'static str)
    ensures
        r@ == sql_op(op),
{
    match op {
        ConditionOp::Eq => "=",
        ConditionOp::Ne => "!=",
        ConditionOp::Lt => "<",
        ConditionOp::Le => "<=",
        ConditionOp::Gt => ">",
        ConditionOp::Ge => ">=",
    }
}

/// The condition `field op value` as SQL, and whether the value is to be
/// bound (see [`sql_condition`]).
pub fn condition_to_sql(field: &String, op: ConditionOp, value_is_null: bool) -> (r: (String, bool))
    ensures
        (r.0@, r.1) == sql_condition(field@, op, value_is_null),
{
    let mut s = field.clone();
    if value_is_null {
        match op {
            ConditionOp::Eq => {
                s.append(" IS NULL");
                return (s, false);
            },
            ConditionOp::Ne => {
                s.append(" IS NOT NULL");
                return (s, false);
            },
            _ => {
                s.append(" = ?");
                return (s, true);
            },
        }
    }
    s.append(" ");
    s.append(sql_op_text(op));
    s.append(" ?");
    assert(s@ =~= field@ + " "@ + sql_op(op) + " ?"@);
    (s, true)
}

/// A condition as a column name, a comparison, and whether the value is null.
pub open spec fn sql_clauses(c: Seq<(String, ConditionOp, bool)>) -> Seq<Seq<char>> {
    c.map_values(|x: (String, ConditionOp, bool)| sql_condition(x.0@, x.1, x.2).0)
}

pub open spec fn sql_binds(c: Seq<(String, ConditionOp, bool)>) -> Seq<bool> {
    c.map_values(|x: (String, ConditionOp, bool)| sql_condition(x.0@, x.1, x.2).1)
}

fn render_conditions(c: &Vec<(String, ConditionOp, bool)>, binds: &mut Vec<bool>) -> (r: Vec<String>)
    ensures
        texts_view(r@) == sql_clauses(c@),
        final(binds)@ == old(binds)@ + sql_binds(c@),
{
    let mut out: Vec<String> = Vec::new();
    let ghost b0 = binds@;
    let mut i: usize = 0;
    while i < c.len()
        invariant
            i <= c.len(),
            texts_view(out@) == sql_clauses(c@).take(i as int),
            binds@ == b0 + sql_binds(c@).take(i as int),
        decreases c.len() - i,
    {
        let (text, bound) = condition_to_sql(&c[i].0, c[i].1, c[i].2);
        let ghost before = texts_view(out@);
        let ghost tv = text@;
        assert(sql_clauses(c@)[i as int] == tv);
        out.push(text);
        binds.push(bound);
        assert(texts_view(out@) =~= before.push(tv));
        assert(sql_clauses(c@).take(i + 1) =~= sql_clauses(c@).take(i as int).push(tv));
        assert(texts_view(out@) =~= sql_clauses(c@).take(i + 1));
        assert(binds@ =~= b0 + sql_binds(c@).take(i + 1));
        i = i + 1;
    }
    assert(sql_clauses(c@).take(i as int) =~= sql_clauses(c@));
    assert(sql_binds(c@).take(i as int) =~= sql_binds(c@));
    out
}

/// The SQL that selects the records of table `table`: every condition
/// holds and, where there are alternatives, one of them does; then the order
/// and the limit. Each condition is given as its column, its comparison, and
/// whether its value is null. Also says, for the conditions and then the
/// alternatives in order, which of them bind their value to a `?`.
pub fn select_sql(
    table: &str,
    conditions: &Vec<(String, ConditionOp, bool)>,
    or_conditions: &Vec<(String, ConditionOp, bool)>,
    order_by: &Option<(String, bool)>,
    limit: Option<usize>,
) -> (r: (String, Vec<bool>))
    ensures
        r.0@ == "SELECT * FROM "@ + table@ + filter_text(
            "WHERE"@,
            sql_clauses(conditions@),
            sql_clauses(or_conditions@),
        ) + order_text("ORDER BY"@, ""@, order_view(*order_by)) + limit_text(limit),
        r.1@ == sql_binds(conditions@) + sql_binds(or_conditions@),
{
    let mut binds: Vec<bool> = Vec::new();
    let ands = render_conditions(conditions, &mut binds);
    let ors = render_conditions(or_conditions, &mut binds);
    let mut sql = String::from_str("SELECT * FROM ");
    sql.append(table);
    push_filter(&mut sql, "WHERE", &ands, &ors);
    push_order(&mut sql, "ORDER BY", "", order_by);
    push_limit(&mut sql, limit);
    assert(binds@ =~= sql_binds(conditions@) + sql_binds(or_conditions@));
    (sql, binds)
}

/// The column definitions of the fields, each a name and a field type name.
pub open spec fn column_defs(fields: Seq<(String, String)>) -> Seq<Seq<char>> {
    fields.map_values(|f: (String, String)| f.0@ + " "@ + sql_type_of(f.1@))
}

/// The SQL that creates table `table` if it is missing: a text `_id` key,
/// then one column per field.
pub open spec fn create_table_text(table: Seq<char>, fields: Seq<(String, String)>) -> Seq<char> {
    "CREATE TABLE IF NOT EXISTS "@ + table + " (\n                _id TEXT PRIMARY KEY,\n                "@
        + join(column_defs(fields), ", "@) + "\n            )"@
}

/// The SQL that creates the table of a memory (see [`create_table_text`]).
pub fn create_table_sql(table: &str, fields: &Vec<(String, String)>) -> (r: String)
    ensures
        r@ == create_table_text(table@, fields@),
{
    let mut cols: Vec<String> = Vec::new();
    let mut i: usize = 0;
    while i < fields.len()
        invariant
            i <= fields.len(),
            texts_view(cols@) == column_defs(fields@).take(i as int),
        decreases fields.len() - i,
    {
        let mut c = fields[i].0.clone();
        c.append(" ");
        c.append(sql_type(fields[i].1.as_str()));
        let ghost before = texts_view(cols@);
        let ghost cv = c@;
        assert(column_defs(fields@)[i as int] == cv);
        cols.push(c);
        assert(texts_view(cols@) =~= before.push(cv));
        assert(column_defs(fields@).take(i + 1) =~= column_defs(fields@).take(i as int).push(cv));
        i = i + 1;
    }
    assert(column_defs(fields@).take(i as int) =~= column_defs(fields@));
    let mut sql = String::from_str("CREATE TABLE IF NOT EXISTS ");
    sql.append(table);
    sql.append(" (\n                _id TEXT PRIMARY KEY,\n                ");
    let joined = join_texts(&cols, ", ");
    sql.append(joined.as_str());
    sql.append("\n            )");
    sql
}

/// The SQL that creates the index of `field` on table `table` if it is missing.
pub open spec fn index_text(table: Seq<char>, field: Seq<char>) -> Seq<char> {
    "CREATE INDEX IF NOT EXISTS idx_"@ + table + "_"@ + field + " ON "@ + table + " ("@ + field
        + ")"@
}

/// The SQL that creates each index of table `table` (see [`index_text`]), in order.
pub fn index_sqls(table: &str, indexes: &Vec<String>) -> (r: Vec<String>)
    ensures
        texts_view(r@) == indexes@.map_values(|f: String| index_text(table@, f@)),
{
    let ghost want = indexes@.map_values(|f: String| index_text(table@, f@));
    let mut out: Vec<String> = Vec::new();
    let mut i: usize = 0;
    while i < indexes.len()
        invariant
            i <= indexes.len(),
            want == indexes@.map_values(|f: String| index_text(table@, f@)),
            texts_view(out@) == want.take(i as int),
        decreases indexes.len() - i,
    {
        let f = indexes[i].as_str();
        let mut q = String::from_str("CREATE INDEX IF NOT EXISTS idx_");
        q.append(table);
        q.append("_");
        q.append(f);
        q.append(" ON ");
        q.append(table);
        q.append(" (");
        q.append(f);
        q.append(")");
        let ghost before = texts_view(out@);
        let ghost qv = q@;
        assert(qv =~= index_text(table@, indexes@[i as int]@));
        out.push(q);
        assert(texts_view(out@) =~= before.push(qv));
        assert(want.take(i + 1) =~= want.take(i as int).push(qv));
        i = i + 1;
    }
    assert(want.take(i as int) =~= want);
    out
}

/// The SQL that stores a record in table `table`: its `_id` and the named
/// columns, each value bound to a `?`, replacing a record with the same id.
pub open spec fn insert_text(table: Seq<char>, columns: Seq<Seq<char>>) -> Seq<char> {
    "INSERT OR REPLACE INTO "@ + table + " ("@ + join(seq!["_id"@] + columns, ", "@)
        + ") VALUES ("@ + join(Seq::new(columns.len() + 1, |i: int| "?"@), ", "@) + ")"@
}

/// The SQL that stores a record with the given field columns (see [`insert_text`]).
pub fn insert_sql(table: &str, columns: &Vec<String>) -> (r: String)
    ensures
        r@ == insert_text(table@, texts_view(columns@)),
{
    let mut names: Vec<String> = Vec::new();
    let mut marks: Vec<String> = Vec::new();
    names.push(String::from_str("_id"));
    marks.push(String::from_str("?"));
    let ghost cv = texts_view(columns@);
    let mut i: usize = 0;
    proof {
        reveal_strlit("_id");
        reveal_strlit("?");
    }
    assert(texts_view(names@) =~= seq!["_id"@] + cv.take(0));
    assert(texts_view(marks@) =~= Seq::new(1, |k: int| "?"@));
    while i < columns.len()
        invariant
            i <= columns.len(),
            cv == texts_view(columns@),
            texts_view(names@) == seq!["_id"@] + cv.take(i as int),
            texts_view(marks@) == Seq::new((i + 1) as nat, |k: int| "?"@),
        decreases columns.len() - i,
    {
        let ghost n0 = texts_view(names@);
        let ghost m0 = texts_view(marks@);
        names.push(columns[i].clone());
        marks.push(String::from_str("?"));
        assert(texts_view(names@) =~= n0.push(cv[i as int]));
        assert(cv.take(i + 1) =~= cv.take(i as int).push(cv[i as int]));
        assert(texts_view(names@) =~= seq!["_id"@] + cv.take(i + 1));
        assert(texts_view(marks@) =~= m0.push("?"@));
        assert(texts_view(marks@) =~= Seq::new((i + 2) as nat, |k: int| "?"@));
        i = i + 1;
    }
    assert(cv.take(i as int) =~= cv);
    let mut sql = String::from_str("INSERT OR REPLACE INTO ");
    sql.append(table);
    sql.append(" (");
    let n = join_texts(&names, ", ");
    sql.append(n.as_str());
    sql.append(") VALUES (");
    let m = join_texts(&marks, ", ");
    sql.append(m.as_str());
    sql.append(")");
    sql
}

/// The SQL written for a comparison of the language selects what the
/// comparison keeps: for integers within 2^53 in magnitude, the operator
/// written for `a op b` holds of `a` and `b` exactly when `a op b` evaluates
/// to `true`. A non-null value is
/// compared through one bound `?`.
pub proof fn lemma_sql_condition_agrees(f: Seq<char>, c: crate::ast::BinOp, a: i64, b: i64)
    requires
        crate::filter_plan::cond_op(c) is Some,
        crate::value::exact_in_f64(a),
        crate::value::exact_in_f64(b),
    ensures
        sql_condition(f, crate::filter_plan::cond_op(c)->0, false) == (
            f + " "@ + sql_op(crate::filter_plan::cond_op(c)->0) + " ?"@,
            true,
        ),
        crate::storage::query_op_holds(sql_op(crate::filter_plan::cond_op(c)->0), a as int, b as int) == (
        crate::value::binop_spec(crate::value::ValueV::Int(a), c, crate::value::ValueV::Int(b))
            == crate::value::BinopOutcomeV::Value(crate::value::ValueV::Bool(true))),
{
    crate::value::lemma_binop_on_integers(a, b);
    crate::storage::lemma_query_ops(a as int, b as int);
}

} // verus!
