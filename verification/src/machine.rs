//! The interpreter of handler bodies, as a machine that stops at each piece
//! of outside work.
//!
//! Running a body either finishes, fails, or asks for outside work: a record
//! to store or delete, a fresh id, the time, `f64` arithmetic, the records
//! that conflict with a new one, or a call of a function that storage or a
//! model answers. The caller does the work and runs the body again from its
//! start with the reply added to `replies`; the machine answers its `k`-th
//! request with the `k`-th reply. Running is a function of the body, the
//! definitions and the replies, so each run takes the same path as the last
//! up to the new request.
use vstd::prelude::*;
use crate::ast::{
    args_view, arg_view, expr_view, exprs_view, finit_view, finits_view, lemma_args_view_index,
    lemma_exprs_view_index, qbody_view,
    rules_view, stmt_view, stmts_view, BinOp, CallArg, CallArgV, Expr, ExprV, FieldInit, HandlerDef, Stmt,
    StmtV, UnaryOp, UpdateDef, UpdateRule, UpdateRuleV, unit_secs,
};
use crate::text::{decimal_text, decimal_text_exec, text_eq};
use crate::value::{
    binop, binop_spec, copy_record, copy_value, copy_values, field_get, field_index, group_by,
    grouped, index_spec, index_value, is_truthy, lemma_fields_view_index, lemma_values_view_index,
    lemma_values_view_push, put, record_view, set_field, truthy, value_text, value_text_exec, value_view,
    values_view, BinopOutcome,
    BinopOutcomeV, Record, RecordV, Value, ValueV,
};

verus! {

// ───────────────────────────── requests and replies ─────────────────────────────

/// Outside work that the machine needs done to go on.
#[derive(Debug)]
pub enum Request {
    /// Store the record (reply: anything).
    Store(Record),
    /// Delete the record `id` of memory `memory` (reply: anything).
    Delete { memory: String, id: String },
    /// The stored record `id` of memory `memory` (reply: the record, or
    /// `null`).
    Get { memory: String, id: String },
    /// A fresh record id (reply: a text).
    NewId,
    /// The current time (reply: a timestamp).
    Now,
    /// `left op right` in `f64` arithmetic (reply: its value).
    Float { left: Value, op: BinOp, right: Value },
    /// The stored records of memory `memory` with this subject and predicate
    /// (reply: a list of records).
    Conflicts { memory: String, subject: String, predicate: String },
    /// Whether two texts are at least `threshold` similar (reply: a boolean).
    Similar { a: String, b: String, threshold: String },
    /// Run an inline query in the given scopes (reply: a list of records).
    Query { body: crate::ast::QueryBody, scopes: Vec<Vec<(String, Value)>> },
    /// A call of a function that storage, a model or a named query answers:
    /// `extract` and `summarize` (with the text of their argument), `regex`,
    /// `sql`, `graph_match`, `cypher`, `min` and `max` of floats, a query or
    /// an extern function (reply: its value; `null` for an unknown name).
    Call { name: String, args: Vec<Value> },
}

pub enum RequestV {
    Store(RecordV),
    Delete { memory: Seq<char>, id: Seq<char> },
    Get { memory: Seq<char>, id: Seq<char> },
    NewId,
    Now,
    Float { left: ValueV, op: BinOp, right: ValueV },
    Conflicts { memory: Seq<char>, subject: Seq<char>, predicate: Seq<char> },
    Similar { a: Seq<char>, b: Seq<char>, threshold: Seq<char> },
    Query { body: crate::ast::QueryBodyV, scopes: Seq<Seq<(Seq<char>, ValueV)>> },
    Call { name: Seq<char>, args: Seq<ValueV> },
}

impl View for Request {
    type V = RequestV;

    open spec fn view(&self) -> RequestV {
        match self {
            Request::Store(r) => RequestV::Store(record_view(*r)),
            Request::Delete { memory, id } => RequestV::Delete { memory: memory@, id: id@ },
            Request::Get { memory, id } => RequestV::Get { memory: memory@, id: id@ },
            Request::NewId => RequestV::NewId,
            Request::Now => RequestV::Now,
            Request::Float { left, op, right } => RequestV::Float {
                left: value_view(*left),
                op: *op,
                right: value_view(*right),
            },
            Request::Conflicts { memory, subject, predicate } => RequestV::Conflicts {
                memory: memory@,
                subject: subject@,
                predicate: predicate@,
            },
            Request::Similar { a, b, threshold } => RequestV::Similar {
                a: a@,
                b: b@,
                threshold: threshold@,
            },
            Request::Query { body, scopes } => RequestV::Query {
                body: crate::ast::qbody_view(*body),
                scopes: scopes@.map_values(|x: Vec<(String, Value)>| crate::value::fields_view(x@)),
            },
            Request::Call { name, args } => RequestV::Call { name: name@, args: values_view(args@) },
        }
    }
}

/// The answer to a request: a value, or the error that the work met.
#[derive(Debug)]
pub enum Reply {
    Value(Value),
    Error(String),
}

pub enum ReplyV {
    Value(ValueV),
    Error(Seq<char>),
}

impl View for Reply {
    type V = ReplyV;

    open spec fn view(&self) -> ReplyV {
        match self {
            Reply::Value(v) => ReplyV::Value(value_view(*v)),
            Reply::Error(m) => ReplyV::Error(m@),
        }
    }
}

// ───────────────────────────── context and state ─────────────────────────────

/// What a run reads: the program's handlers by event, its update rules and
/// the invariants of its memories by memory name (a later pair with a name
/// shadows an earlier one), and the replies so far.
pub struct Ctx {
    pub handlers: Vec<(String, HandlerDef)>,
    pub updates: Vec<(String, UpdateDef)>,
    pub invariants: Vec<(String, Vec<Expr>)>,
    pub replies: Vec<Reply>,
}

pub struct CtxV {
    pub handlers: Seq<(Seq<char>, (Seq<Seq<char>>, Seq<StmtV>))>,
    pub updates: Seq<(Seq<char>, Seq<UpdateRuleV>)>,
    pub invariants: Seq<(Seq<char>, Seq<ExprV>)>,
    pub replies: Seq<ReplyV>,
}

impl View for Ctx {
    type V = CtxV;

    open spec fn view(&self) -> CtxV {
        CtxV {
            handlers: self.handlers@.map_values(
                |p: (String, HandlerDef)| (
                    p.0@,
                    (p.1.params@.map_values(|q: crate::ast::Param| q.name@), stmts_view(p.1.body@)),
                ),
            ),
            updates: self.updates@.map_values(
                |p: (String, UpdateDef)| (p.0@, rules_view(p.1.rules@)),
            ),
            invariants: self.invariants@.map_values(
                |p: (String, Vec<Expr>)| (p.0@, exprs_view(p.1@)),
            ),
            replies: self.replies@.map_values(|r: Reply| r@),
        }
    }
}

/// The scopes of variables, innermost last, and how many replies the run
/// has used.
pub struct Machine {
    pub scopes: Vec<Vec<(String, Value)>>,
    pub used: usize,
}

pub struct MachineV {
    pub scopes: Seq<Seq<(Seq<char>, ValueV)>>,
    pub used: int,
}

impl View for Machine {
    type V = MachineV;

    open spec fn view(&self) -> MachineV {
        MachineV {
            scopes: self.scopes@.map_values(
                |s: Vec<(String, Value)>| crate::value::fields_view(s@),
            ),
            used: self.used as int,
        }
    }
}

/// The value that `k` names last in `s`.
pub open spec fn last_named<T>(s: Seq<(Seq<char>, T)>, k: Seq<char>) -> Option<T>
    decreases s.len(),
{
    if s.len() == 0 {
        None
    } else if s.last().0 == k {
        Some(s.last().1)
    } else {
        last_named(s.drop_last(), k)
    }
}

pub proof fn lemma_last_named<T>(s: Seq<(Seq<char>, T)>, k: Seq<char>, i: int)
    requires
        -1 <= i < s.len(),
        i >= 0 ==> s[i].0 == k,
        forall|j: int| i < j < s.len() ==> (#[trigger] s[j]).0 != k,
    ensures
        last_named(s, k) == if i >= 0 {
            Some(s[i].1)
        } else {
            None::<T>
        },
    decreases s.len(),
{
    if s.len() > 0 && i < s.len() - 1 {
        let d = s.drop_last();
        assert forall|j: int| i < j < d.len() implies (#[trigger] d[j]).0 != k by {
            assert(d[j] == s[j]);
        }
        if i >= 0 {
            assert(d[i] == s[i]);
        }
        lemma_last_named(d, k, i);
    }
}

/// The value of variable `n`: from the innermost scope that has it, else
/// `null`.
pub open spec fn lookup(scopes: Seq<Seq<(Seq<char>, ValueV)>>, n: Seq<char>) -> ValueV
    decreases scopes.len(),
{
    if scopes.len() == 0 {
        ValueV::Null
    } else {
        match field_get(scopes.last(), n) {
            Some(v) => v,
            None => lookup(scopes.drop_last(), n),
        }
    }
}

/// The scopes with `n` set to `v` in the innermost one.
pub open spec fn assign(st: MachineV, n: Seq<char>, v: ValueV) -> MachineV {
    if st.scopes.len() == 0 {
        st
    } else {
        MachineV {
            scopes: st.scopes.update(st.scopes.len() - 1, put(st.scopes.last(), n, v)),
            ..st
        }
    }
}

pub open spec fn push_scope(st: MachineV) -> MachineV {
    MachineV { scopes: st.scopes.push(Seq::empty()), ..st }
}

pub open spec fn pop_scope(st: MachineV) -> MachineV {
    if st.scopes.len() == 0 {
        st
    } else {
        MachineV { scopes: st.scopes.drop_last(), ..st }
    }
}

// ───────────────────────────── outcomes ─────────────────────────────

/// What evaluating an expression gives.
pub enum EvalV {
    Val(ValueV),
    Need(RequestV),
    Fail(Seq<char>),
}

/// What running statements gives: go on, a returned value, or a stop.
pub enum FlowV {
    Next,
    Ret(ValueV),
    Need(RequestV),
    Fail(Seq<char>),
}

/// The reply to the next request, or the request itself when it has none.
pub open spec fn answer(req: RequestV, st: MachineV, cx: CtxV) -> (EvalV, MachineV) {
    if 0 <= st.used < cx.replies.len() {
        match cx.replies[st.used] {
            ReplyV::Value(v) => (EvalV::Val(v), MachineV { used: st.used + 1, ..st }),
            ReplyV::Error(m) => (EvalV::Fail(m), MachineV { used: st.used + 1, ..st }),
        }
    } else {
        (EvalV::Need(req), st)
    }
}

pub open spec fn overflow_text() -> Seq<char> {
    "integer overflow"@
}

pub open spec fn too_deep_text() -> Seq<char> {
    "nesting too deep"@
}


/// What evaluating a list gives: the values, or the stop that cut it short.
pub enum EvalsV {
    Vals(Seq<ValueV>),
    Stop(EvalV),
}

pub open spec fn violation_text(memory: Seq<char>) -> Seq<char> {
    "invariant violation in '"@ + memory + "': condition evaluated to false"@
}

pub open spec fn id_not_text() -> Seq<char> {
    "a fresh id must be text"@
}

/// The value of a duration: its seconds (as Rust's `as i64` gives them).
pub open spec fn duration_value(d: crate::ast::Duration) -> EvalV {
    if d.value * unit_secs(d.unit) <= u64::MAX {
        EvalV::Val(ValueV::Int(((d.value * unit_secs(d.unit)) as u64) as i64))
    } else {
        EvalV::Fail(overflow_text())
    }
}

/// A field of what an object evaluated to: `null` for a missing field or an
/// object that is no record.
pub open spec fn field_of(r: EvalV, field: Seq<char>) -> EvalV {
    match r {
        EvalV::Val(ValueV::Record(rec)) => EvalV::Val(
            match field_get(rec.fields, field) {
                Some(v) => v,
                None => ValueV::Null,
            },
        ),
        EvalV::Val(_) => EvalV::Val(ValueV::Null),
        _ => r,
    }
}

/// `-v` and `not v`. A float is negated on its text.
pub open spec fn unary(op: UnaryOp, v: ValueV) -> EvalV {
    match op {
        UnaryOp::Neg => match v {
            ValueV::Int(n) => if n == i64::MIN {
                EvalV::Fail(overflow_text())
            } else {
                EvalV::Val(ValueV::Int((-n) as i64))
            },
            ValueV::Float(s) => EvalV::Val(ValueV::Float(negated(s))),
            _ => EvalV::Val(ValueV::Null),
        },
        UnaryOp::Not => EvalV::Val(ValueV::Bool(!truthy(v))),
    }
}

/// The text of the negated float.
pub open spec fn negated(s: Seq<char>) -> Seq<char> {
    if s.len() > 0 && s[0] == '-' {
        s.drop_first()
    } else {
        seq!['-'] + s
    }
}

/// What a binary operator gives once both sides have values.
pub open spec fn apply_binop(l: ValueV, op: BinOp, r: ValueV, st: MachineV, cx: CtxV) -> (EvalV, MachineV) {
    match binop_spec(l, op, r) {
        BinopOutcomeV::Value(v) => (EvalV::Val(v), st),
        BinopOutcomeV::NeedsFloat => answer(RequestV::Float { left: l, op, right: r }, st, cx),
        BinopOutcomeV::Overflow => (EvalV::Fail(overflow_text()), st),
    }
}

/// The scopes with each pair of `fs` assigned in order.
pub open spec fn bind_all(st: MachineV, fs: Seq<(Seq<char>, ValueV)>) -> MachineV
    decreases fs.len(),
{
    if fs.len() == 0 {
        st
    } else {
        assign(bind_all(st, fs.drop_last()), fs.last().0, fs.last().1)
    }
}

/// The scopes with parameter `k` bound to argument `k + 1`, for each
/// parameter from `k` on that has an argument.
pub open spec fn bind_params(st: MachineV, params: Seq<Seq<char>>, vals: Seq<ValueV>, k: int) -> MachineV
    decreases params.len() - k,
{
    if 0 <= k < params.len() && k + 1 < vals.len() {
        bind_params(assign(st, params[k], vals[k + 1]), params, vals, k + 1)
    } else {
        st
    }
}

/// A record with field `k` set to `v`.
pub open spec fn with_field(r: RecordV, k: Seq<char>, v: ValueV) -> RecordV {
    RecordV { fields: put(r.fields, k, v), ..r }
}

/// Whether update rules hold an `on_conflict` rule.
pub open spec fn has_on_conflict(rules: Seq<UpdateRuleV>) -> bool {
    exists|i: int| 0 <= i < rules.len() && (#[trigger] rules[i]) is OnConflict
}

/// The text of field `k` of a record, if it is text.
pub open spec fn text_field(r: RecordV, k: Seq<char>) -> Option<Seq<char>> {
    match field_get(r.fields, k) {
        Some(ValueV::Str(s)) => Some(s),
        _ => None,
    }
}

/// The threshold text of a `semantic_match` call: its `threshold` argument
/// when that is a float literal (the first such), else `0.7`.
pub open spec fn threshold_of(args: Seq<CallArgV>, i: int) -> Seq<char>
    decreases args.len() - i,
{
    if 0 <= i < args.len() {
        if args[i].name == Some("threshold"@) && args[i].value is Float {
            args[i].value->Float_0
        } else {
            threshold_of(args, i + 1)
        }
    } else {
        "0.7"@
    }
}

/// Stores each record of `vals` from `i` on, and each record in a list among
/// them, in order.
pub open spec fn store_all(vals: Seq<ValueV>, i: int, st: MachineV, cx: CtxV) -> (EvalV, MachineV)
    decreases vals.len() - i, 1int,
{
    if 0 <= i < vals.len() {
        match vals[i] {
            ValueV::Record(r) => {
                let (x, s1) = answer(RequestV::Store(r), st, cx);
                match x {
                    EvalV::Val(_) => store_all(vals, i + 1, s1, cx),
                    _ => (x, s1),
                }
            },
            ValueV::Array(a) => {
                let (x, s1) = store_list(a, 0, st, cx);
                match x {
                    EvalV::Val(_) => store_all(vals, i + 1, s1, cx),
                    _ => (x, s1),
                }
            },
            _ => store_all(vals, i + 1, st, cx),
        }
    } else {
        (EvalV::Val(ValueV::Null), st)
    }
}

/// Stores the records of `a` from `j` on.
pub open spec fn store_list(a: Seq<ValueV>, j: int, st: MachineV, cx: CtxV) -> (EvalV, MachineV)
    decreases a.len() - j,
{
    if 0 <= j < a.len() {
        match a[j] {
            ValueV::Record(r) => {
                let (x, s1) = answer(RequestV::Store(r), st, cx);
                match x {
                    EvalV::Val(_) => store_list(a, j + 1, s1, cx),
                    _ => (x, s1),
                }
            },
            _ => store_list(a, j + 1, st, cx),
        }
    } else {
        (EvalV::Val(ValueV::Null), st)
    }
}

/// `xs |> store_as(name)` from item `i` on: each record (and each record in
/// a list) gets memory `name` and is stored; other items are kept as they
/// are, other items in a list dropped.
pub open spec fn store_as_items(
    name: Seq<char>,
    xs: Seq<ValueV>,
    i: int,
    acc: Seq<ValueV>,
    st: MachineV,
    cx: CtxV,
) -> (EvalV, MachineV)
    decreases xs.len() - i, 1int,
{
    if 0 <= i < xs.len() {
        match xs[i] {
            ValueV::Record(r) => {
                let r2 = RecordV { memory: name, ..r };
                let (x, s1) = answer(RequestV::Store(r2), st, cx);
                match x {
                    EvalV::Val(_) => store_as_items(name, xs, i + 1, acc.push(ValueV::Record(r2)), s1, cx),
                    _ => (x, s1),
                }
            },
            ValueV::Array(sub) => {
                let (x, s1) = store_as_sub(name, sub, 0, acc, st, cx);
                match x {
                    EvalV::Val(ValueV::Array(acc2)) => store_as_items(name, xs, i + 1, acc2, s1, cx),
                    _ => (x, s1),
                }
            },
            other => store_as_items(name, xs, i + 1, acc.push(other), st, cx),
        }
    } else {
        (EvalV::Val(ValueV::Array(acc)), st)
    }
}

pub open spec fn store_as_sub(
    name: Seq<char>,
    sub: Seq<ValueV>,
    j: int,
    acc: Seq<ValueV>,
    st: MachineV,
    cx: CtxV,
) -> (EvalV, MachineV)
    decreases sub.len() - j,
{
    if 0 <= j < sub.len() {
        match sub[j] {
            ValueV::Record(r) => {
                let r2 = RecordV { memory: name, ..r };
                let (x, s1) = answer(RequestV::Store(r2), st, cx);
                match x {
                    EvalV::Val(_) => store_as_sub(name, sub, j + 1, acc.push(ValueV::Record(r2)), s1, cx),
                    _ => (x, s1),
                }
            },
            _ => store_as_sub(name, sub, j + 1, acc, st, cx),
        }
    } else {
        (EvalV::Val(ValueV::Array(acc)), st)
    }
}

/// `xs |> delete_originals()` from item `i` on: each record is deleted.
pub open spec fn delete_items(xs: Seq<ValueV>, i: int, st: MachineV, cx: CtxV) -> (EvalV, MachineV)
    decreases xs.len() - i,
{
    if 0 <= i < xs.len() {
        match xs[i] {
            ValueV::Record(r) => {
                let (x, s1) = answer(RequestV::Delete { memory: r.memory, id: r.id }, st, cx);
                match x {
                    EvalV::Val(_) => delete_items(xs, i + 1, s1, cx),
                    _ => (x, s1),
                }
            },
            _ => delete_items(xs, i + 1, st, cx),
        }
    } else {
        (EvalV::Val(ValueV::Null), st)
    }
}

/// The request of `extract` or `summarize`: the text of the first argument
/// (empty without one).
pub open spec fn model_request(name: Seq<char>, vals: Seq<ValueV>) -> RequestV {
    RequestV::Call {
        name,
        args: seq![ValueV::Str(if vals.len() > 0 { value_text(vals[0]) } else { Seq::empty() })],
    }
}

/// A function applied to piped values (`vals`, the piped value first) that
/// is none of the list functions.
pub open spec fn builtin_with(name: Seq<char>, vals: Seq<ValueV>, st: MachineV, cx: CtxV) -> (EvalV, MachineV) {
    if name == "store"@ {
        store_all(vals, 0, st, cx)
    } else if name == "extract"@ || name == "summarize"@ {
        answer(model_request(name, vals), st, cx)
    } else if name == "len"@ {
        (EvalV::Val(ValueV::Int(
            if vals.len() > 0 && vals[0] is Array {
                (vals[0]->Array_0.len() as i64)
            } else {
                0
            },
        )), st)
    } else {
        (EvalV::Val(if vals.len() > 0 { vals[0] } else { ValueV::Null }), st)
    }
}

/// The names that a pipe treats as list functions.
pub open spec fn list_function(name: Seq<char>) -> bool {
    name == "map"@ || name == "filter"@ || name == "each"@ || name == "group_by"@ || name
        == "store_as"@ || name == "delete_originals"@
}

/// The index of the first argument from `i` on that is a lambda.
pub open spec fn first_lambda(args: Seq<CallArgV>, i: int) -> Option<int>
    decreases args.len() - i,
{
    if 0 <= i < args.len() {
        if args[i].value is Lambda {
            Some(i)
        } else {
            first_lambda(args, i + 1)
        }
    } else {
        None
    }
}

pub proof fn lemma_first_lambda(args: Seq<CallArgV>, i: int)
    ensures
        first_lambda(args, i) matches Some(k) ==> i <= k < args.len() && args[k].value is Lambda,
    decreases args.len() - i,
{
    if 0 <= i < args.len() && !(args[i].value is Lambda) {
        lemma_first_lambda(args, i + 1);
    }
}

/// The name of the first argument when it is an identifier.
pub open spec fn first_ident(args: Seq<CallArgV>) -> Option<Seq<char>> {
    if args.len() > 0 && args[0].value is Ident {
        Some(args[0].value->Ident_0)
    } else {
        None
    }
}

pub open spec fn utf8_len(s: Seq<char>) -> int {
    crate::text::byte_offset(s, s.len() as int)
}

// ───────────────────────────── evaluation ─────────────────────────────

/// Evaluating `e` with nesting depth `f` left.
pub open spec fn ev(f: nat, e: ExprV, st: MachineV, cx: CtxV) -> (EvalV, MachineV)
    decreases f, 0int,
{
    if f == 0 {
        (EvalV::Fail(too_deep_text()), st)
    } else {
        let g = (f - 1) as nat;
        match e {
            ExprV::Int(n) => (EvalV::Val(ValueV::Int(n)), st),
            ExprV::Float(s) => (EvalV::Val(ValueV::Float(decimal_text(s))), st),
            ExprV::Str(s) => (EvalV::Val(ValueV::Str(s)), st),
            ExprV::Bool(b) => (EvalV::Val(ValueV::Bool(b)), st),
            ExprV::Null => (EvalV::Val(ValueV::Null), st),
            ExprV::Duration(d) => (duration_value(d), st),
            ExprV::Ident(n) => (EvalV::Val(lookup(st.scopes, n)), st),
            ExprV::FieldAccess { object, field } => {
                let (r, s1) = ev(g, *object, st, cx);
                (field_of(r, field), s1)
            },
            ExprV::OptionalChain { object, field } => {
                let (r, s1) = ev(g, *object, st, cx);
                (field_of(r, field), s1)
            },
            ExprV::IndexAccess { object, index } => {
                let (r1, s1) = ev(g, *object, st, cx);
                match r1 {
                    EvalV::Val(o) => {
                        let (r2, s2) = ev(g, *index, s1, cx);
                        match r2 {
                            EvalV::Val(i) => (EvalV::Val(index_spec(o, i)), s2),
                            _ => (r2, s2),
                        }
                    },
                    _ => (r1, s1),
                }
            },
            ExprV::Binary { left, op, right } => {
                let (r1, s1) = ev(g, *left, st, cx);
                match r1 {
                    EvalV::Val(l) => {
                        let (r2, s2) = ev(g, *right, s1, cx);
                        match r2 {
                            EvalV::Val(r) => apply_binop(l, op, r, s2, cx),
                            _ => (r2, s2),
                        }
                    },
                    _ => (r1, s1),
                }
            },
            ExprV::Unary { op, operand } => {
                let (r, s1) = ev(g, *operand, st, cx);
                match r {
                    EvalV::Val(v) => (unary(op, v), s1),
                    _ => (r, s1),
                }
            },
            ExprV::Call { func, args } => match *func {
                ExprV::Ident(name) => {
                    let (r, s1) = ev_args(g, args, 0, Seq::empty(), st, cx);
                    match r {
                        EvalsV::Vals(vs) => call(g, name, vs, args, s1, cx),
                        EvalsV::Stop(x) => (x, s1),
                    }
                },
                _ => (EvalV::Val(ValueV::Null), st),
            },
            ExprV::Pipe { left, right } => {
                let (r, s1) = ev(g, *left, st, cx);
                match r {
                    EvalV::Val(lv) => piped(g, *right, lv, s1, cx),
                    _ => (r, s1),
                }
            },
            ExprV::StructInit { name, fields } => {
                let (r, s1) = answer(RequestV::NewId, st, cx);
                match r {
                    EvalV::Val(ValueV::Str(id)) => init_fields(
                        g,
                        fields,
                        0,
                        RecordV { memory: name, id, fields: Seq::empty() },
                        s1,
                        cx,
                    ),
                    EvalV::Val(_) => (EvalV::Fail(id_not_text()), s1),
                    _ => (r, s1),
                }
            },
            ExprV::Lambda { .. } => (EvalV::Val(ValueV::Null), st),
            ExprV::Array(es) => {
                let (r, s1) = ev_exprs(g, es, 0, Seq::empty(), st, cx);
                match r {
                    EvalsV::Vals(vs) => (EvalV::Val(ValueV::Array(vs)), s1),
                    EvalsV::Stop(x) => (x, s1),
                }
            },
            ExprV::InlineQuery(q) => answer(RequestV::Query { body: *q, scopes: st.scopes }, st, cx),
            ExprV::Alias { expr, .. } => ev(g, *expr, st, cx),
        }
    }
}

/// The values of the arguments from `i` on, after `acc`.
pub open spec fn ev_args(
    f: nat,
    args: Seq<CallArgV>,
    i: int,
    acc: Seq<ValueV>,
    st: MachineV,
    cx: CtxV,
) -> (EvalsV, MachineV)
    decreases f, args.len() - i,
{
    if 0 <= i < args.len() {
        let (r, s1) = ev(f, args[i].value, st, cx);
        match r {
            EvalV::Val(v) => ev_args(f, args, i + 1, acc.push(v), s1, cx),
            _ => (EvalsV::Stop(r), s1),
        }
    } else {
        (EvalsV::Vals(acc), st)
    }
}

/// The values of the expressions from `i` on, after `acc`.
pub open spec fn ev_exprs(
    f: nat,
    es: Seq<ExprV>,
    i: int,
    acc: Seq<ValueV>,
    st: MachineV,
    cx: CtxV,
) -> (EvalsV, MachineV)
    decreases f, es.len() - i,
{
    if 0 <= i < es.len() {
        let (r, s1) = ev(f, es[i], st, cx);
        match r {
            EvalV::Val(v) => ev_exprs(f, es, i + 1, acc.push(v), s1, cx),
            _ => (EvalsV::Stop(r), s1),
        }
    } else {
        (EvalsV::Vals(acc), st)
    }
}

/// A record with the fields of a struct literal from `i` on set in order.
pub open spec fn init_fields(
    f: nat,
    fields: Seq<crate::ast::FieldInitV>,
    i: int,
    rec: RecordV,
    st: MachineV,
    cx: CtxV,
) -> (EvalV, MachineV)
    decreases f, fields.len() - i,
{
    if 0 <= i < fields.len() {
        let (r, s1) = ev(f, fields[i].value, st, cx);
        match r {
            EvalV::Val(v) => init_fields(f, fields, i + 1, with_field(rec, fields[i].name, v), s1, cx),
            _ => (r, s1),
        }
    } else {
        (EvalV::Val(ValueV::Record(rec)), st)
    }
}


/// A call of function `name` with argument values `vals` (`args` as
/// written).
pub open spec fn call(
    f: nat,
    name: Seq<char>,
    vals: Seq<ValueV>,
    args: Seq<CallArgV>,
    st: MachineV,
    cx: CtxV,
) -> (EvalV, MachineV)
    decreases f, 0int,
{
    if f == 0 {
        (EvalV::Fail(too_deep_text()), st)
    } else {
        let g = (f - 1) as nat;
        if name == "now"@ {
            answer(RequestV::Now, st, cx)
        } else if name == "store"@ {
            if vals.len() > 0 && vals[0] is Record {
                let rec = vals[0]->Record_0;
                let invs = match last_named(cx.invariants, rec.memory) {
                    Some(x) => x,
                    None => Seq::empty(),
                };
                let (r, s1) = check_invs(g, rec, invs, 0, st, cx);
                match r {
                    EvalV::Val(_) => store_checked(g, rec, s1, cx),
                    _ => (r, s1),
                }
            } else {
                (EvalV::Val(ValueV::Null), st)
            }
        } else if name == "delete"@ {
            if vals.len() > 0 && vals[0] is Record {
                let rec = vals[0]->Record_0;
                let (r, s1) = answer(RequestV::Delete { memory: rec.memory, id: rec.id }, st, cx);
                match r {
                    EvalV::Val(_) => (EvalV::Val(ValueV::Null), s1),
                    _ => (r, s1),
                }
            } else {
                match (lookup(st.scopes, "_update_target"@), lookup(st.scopes, "id"@)) {
                    (ValueV::Str(t), ValueV::Str(i)) => {
                        let (r, s1) = answer(RequestV::Delete { memory: t, id: i }, st, cx);
                        match r {
                            EvalV::Val(_) => (EvalV::Val(ValueV::Null), s1),
                            _ => (r, s1),
                        }
                    },
                    _ => (EvalV::Val(ValueV::Null), st),
                }
            }
        } else if name == "archive"@ {
            match (lookup(st.scopes, "_update_target"@), lookup(st.scopes, "id"@)) {
                (ValueV::Str(t), ValueV::Str(i)) => {
                    let (r, s1) = answer(RequestV::Get { memory: t, id: i }, st, cx);
                    match r {
                        EvalV::Val(ValueV::Record(rec)) => {
                            let (r2, s2) = answer(
                                RequestV::Store(with_field(rec, "_archived"@, ValueV::Bool(true))),
                                s1,
                                cx,
                            );
                            match r2 {
                                EvalV::Val(_) => (EvalV::Val(ValueV::Null), s2),
                                _ => (r2, s2),
                            }
                        },
                        EvalV::Val(_) => (EvalV::Val(ValueV::Null), s1),
                        _ => (r, s1),
                    }
                },
                _ => (EvalV::Val(ValueV::Null), st),
            }
        } else if name == "discard"@ || name == "map"@ || name == "filter"@ || name == "each"@ {
            (EvalV::Val(ValueV::Null), st)
        } else if name == "supersede"@ {
            if vals.len() > 1 && vals[0] is Record && vals[1] is Record {
                let old = vals[0]->Record_0;
                let new = vals[1]->Record_0;
                let (r, s1) = answer(RequestV::Now, st, cx);
                match r {
                    EvalV::Val(t) => {
                        let old2 = with_field(
                            with_field(old, "superseded_by"@, ValueV::Str(new.id)),
                            "valid_until"@,
                            t,
                        );
                        let (r2, s2) = answer(RequestV::Store(old2), s1, cx);
                        match r2 {
                            EvalV::Val(_) => {
                                let (r3, s3) = answer(RequestV::Store(new), s2, cx);
                                match r3 {
                                    EvalV::Val(_) => (EvalV::Val(ValueV::Null), s3),
                                    _ => (r3, s3),
                                }
                            },
                            _ => (r2, s2),
                        }
                    },
                    _ => (r, s1),
                }
            } else {
                (EvalV::Val(ValueV::Null), st)
            }
        } else if name == "len"@ {
            (EvalV::Val(ValueV::Int(
                if vals.len() > 0 && vals[0] is Array {
                    vals[0]->Array_0.len() as i64
                } else if vals.len() > 0 && vals[0] is Str {
                    utf8_len(vals[0]->Str_0) as i64
                } else {
                    0
                },
            )), st)
        } else if name == "min"@ || name == "max"@ {
            if vals.len() > 1 && vals[0] is Int && vals[1] is Int {
                let a = vals[0]->Int_0;
                let b = vals[1]->Int_0;
                (EvalV::Val(ValueV::Int(
                    if (name == "min"@) == (a <= b) {
                        a
                    } else {
                        b
                    },
                )), st)
            } else if vals.len() > 1 && vals[0] is Float && vals[1] is Float {
                answer(RequestV::Call { name, args: vals }, st, cx)
            } else {
                (EvalV::Val(ValueV::Null), st)
            }
        } else if name == "semantic_match"@ {
            if vals.len() > 1 && vals[0] is Str && vals[1] is Str {
                answer(
                    RequestV::Similar {
                        a: vals[0]->Str_0,
                        b: vals[1]->Str_0,
                        threshold: threshold_of(args, 0),
                    },
                    st,
                    cx,
                )
            } else {
                (EvalV::Val(ValueV::Bool(true)), st)
            }
        } else if name == "extract"@ || name == "summarize"@ {
            answer(model_request(name, vals), st, cx)
        } else if name == "emit"@ {
            if vals.len() > 0 && vals[0] is Str {
                match last_named(cx.handlers, vals[0]->Str_0) {
                    Some(h) => {
                        let s0 = bind_params(push_scope(st), h.0, vals, 0);
                        let (r, s1) = stmts(g, h.1, 0, s0, cx);
                        match r {
                            FlowV::Next | FlowV::Ret(_) => (EvalV::Val(ValueV::Null), pop_scope(s1)),
                            FlowV::Need(q) => (EvalV::Need(q), s1),
                            FlowV::Fail(m) => (EvalV::Fail(m), s1),
                        }
                    },
                    None => (EvalV::Val(ValueV::Null), st),
                }
            } else {
                (EvalV::Val(ValueV::Null), st)
            }
        } else {
            answer(RequestV::Call { name, args: vals }, st, cx)
        }
    }
}

/// Checks the invariants of a record from `i` on, each evaluated with the
/// record's fields as variables in a scope of its own.
pub open spec fn check_invs(
    f: nat,
    rec: RecordV,
    invs: Seq<ExprV>,
    i: int,
    st: MachineV,
    cx: CtxV,
) -> (EvalV, MachineV)
    decreases f, invs.len() - i,
{
    if 0 <= i < invs.len() {
        let (r, s1) = ev(f, invs[i], bind_all(push_scope(st), rec.fields), cx);
        match r {
            EvalV::Val(v) => if truthy(v) {
                check_invs(f, rec, invs, i + 1, pop_scope(s1), cx)
            } else {
                (EvalV::Fail(violation_text(rec.memory)), pop_scope(s1))
            },
            _ => (r, s1),
        }
    } else {
        (EvalV::Val(ValueV::Null), st)
    }
}

/// Stores a record whose invariants hold, unless it conflicts with stored
/// ones: with an `on_conflict` rule for its memory and text `subject` and
/// `predicate`, the stored records with the same two (an error finding them
/// counts as none) each get the rule run instead, but the record itself.
pub open spec fn store_checked(f: nat, rec: RecordV, st: MachineV, cx: CtxV) -> (EvalV, MachineV)
    decreases f, 0int,
{
    if f == 0 {
        (EvalV::Fail(too_deep_text()), st)
    } else {
        let g = (f - 1) as nat;
        let store = answer(RequestV::Store(rec), st, cx);
        let plain = match store.0 {
            EvalV::Val(_) => (EvalV::Val(ValueV::Null), store.1),
            _ => store,
        };
        match last_named(cx.updates, rec.memory) {
            Some(rules) => if has_on_conflict(rules) && text_field(rec, "subject"@) is Some
                && text_field(rec, "predicate"@) is Some {
                let q = RequestV::Conflicts {
                    memory: rec.memory,
                    subject: text_field(rec, "subject"@)->Some_0,
                    predicate: text_field(rec, "predicate"@)->Some_0,
                };
                if 0 <= st.used < cx.replies.len() {
                    let s1 = MachineV { used: st.used + 1, ..st };
                    match cx.replies[st.used] {
                        ReplyV::Value(ValueV::Array(olds)) => if olds.len() == 0 {
                            let store2 = answer(RequestV::Store(rec), s1, cx);
                            match store2.0 {
                                EvalV::Val(_) => (EvalV::Val(ValueV::Null), store2.1),
                                _ => store2,
                            }
                        } else {
                            on_conflicts(g, rec, rules, olds, 0, s1, cx)
                        },
                        _ => {
                            let store2 = answer(RequestV::Store(rec), s1, cx);
                            match store2.0 {
                                EvalV::Val(_) => (EvalV::Val(ValueV::Null), store2.1),
                                _ => store2,
                            }
                        },
                    }
                } else {
                    (EvalV::Need(q), st)
                }
            } else {
                plain
            },
            None => plain,
        }
    }
}

/// Runs the `on_conflict` rules for each stored record from `i` on that is
/// not the new one.
pub open spec fn on_conflicts(
    f: nat,
    rec: RecordV,
    rules: Seq<UpdateRuleV>,
    olds: Seq<ValueV>,
    i: int,
    st: MachineV,
    cx: CtxV,
) -> (EvalV, MachineV)
    decreases f, olds.len() - i,
{
    if 0 <= i < olds.len() {
        match olds[i] {
            ValueV::Record(old) => if old.id != rec.id {
                if f == 0 {
                    (EvalV::Fail(too_deep_text()), st)
                } else {
                    let (r, s1) = conflict_rules((f - 1) as nat, rec, old.id, rules, 0, st, cx);
                    match r {
                        EvalV::Val(_) => on_conflicts(f, rec, rules, olds, i + 1, s1, cx),
                        _ => (r, s1),
                    }
                }
            } else {
                on_conflicts(f, rec, rules, olds, i + 1, st, cx)
            },
            _ => on_conflicts(f, rec, rules, olds, i + 1, st, cx),
        }
    } else {
        (EvalV::Val(ValueV::Null), st)
    }
}

/// Runs each `on_conflict` rule from `j` on for the stored record `old_id`
/// and the new record: the stored record is fetched again (a rule is skipped
/// when it is gone) and the rule's body runs in a scope of its own.
pub open spec fn conflict_rules(
    f: nat,
    rec: RecordV,
    old_id: Seq<char>,
    rules: Seq<UpdateRuleV>,
    j: int,
    st: MachineV,
    cx: CtxV,
) -> (EvalV, MachineV)
    decreases f, rules.len() - j,
{
    if 0 <= j < rules.len() {
        match rules[j] {
            UpdateRuleV::OnConflict { old_name, new_name, body } => {
                let (g, s1) = answer(RequestV::Get { memory: rec.memory, id: old_id }, st, cx);
                match g {
                    EvalV::Val(ValueV::Record(old)) => {
                        let s0 = assign(
                            assign(
                                assign(push_scope(s1), "_update_target"@, ValueV::Str(rec.memory)),
                                old_name,
                                ValueV::Record(old),
                            ),
                            new_name,
                            ValueV::Record(rec),
                        );
                        if f == 0 {
                            (EvalV::Fail(too_deep_text()), s1)
                        } else {
                            let (r, s2) = stmts((f - 1) as nat, body, 0, s0, cx);
                            match r {
                                FlowV::Next | FlowV::Ret(_) => conflict_rules(
                                    f,
                                    rec,
                                    old_id,
                                    rules,
                                    j + 1,
                                    pop_scope(s2),
                                    cx,
                                ),
                                FlowV::Need(q) => (EvalV::Need(q), s2),
                                FlowV::Fail(m) => (EvalV::Fail(m), s2),
                            }
                        }
                    },
                    EvalV::Val(_) => conflict_rules(f, rec, old_id, rules, j + 1, s1, cx),
                    _ => (g, s1),
                }
            },
            _ => conflict_rules(f, rec, old_id, rules, j + 1, st, cx),
        }
    } else {
        (EvalV::Val(ValueV::Null), st)
    }
}

/// `lv |> right`: `right` is a function name or a call, applied with the
/// piped value first.
pub open spec fn piped(f: nat, right: ExprV, lv: ValueV, st: MachineV, cx: CtxV) -> (EvalV, MachineV)
    decreases f, 0int,
{
    if f == 0 {
        (EvalV::Fail(too_deep_text()), st)
    } else {
        let g = (f - 1) as nat;
        match right {
            ExprV::Call { func, args } => match *func {
                ExprV::Ident(name) => pipe_to(g, name, lv, args, st, cx),
                _ => (EvalV::Val(ValueV::Null), st),
            },
            ExprV::Ident(name) => pipe_to(g, name, lv, Seq::empty(), st, cx),
            _ => (EvalV::Val(ValueV::Null), st),
        }
    }
}

/// `lv |> name(args)`.
pub open spec fn pipe_to(
    f: nat,
    name: Seq<char>,
    lv: ValueV,
    args: Seq<CallArgV>,
    st: MachineV,
    cx: CtxV,
) -> (EvalV, MachineV)
    decreases f, 0int,
{
    if f == 0 {
        (EvalV::Fail(too_deep_text()), st)
    } else {
        let g = (f - 1) as nat;
        if name == "group_by"@ {
            match lv {
                ValueV::Array(xs) => (EvalV::Val(ValueV::Array(grouped(
                    xs,
                    match first_ident(args) {
                        Some(n) => n,
                        None => "id"@,
                    },
                ))), st),
                _ => (EvalV::Val(lv), st),
            }
        } else if name == "store_as"@ {
            match lv {
                ValueV::Array(xs) => store_as_items(
                    match first_ident(args) {
                        Some(n) => n,
                        None => Seq::empty(),
                    },
                    xs,
                    0,
                    Seq::empty(),
                    st,
                    cx,
                ),
                _ => (EvalV::Val(ValueV::Null), st),
            }
        } else if name == "delete_originals"@ {
            match lv {
                ValueV::Array(xs) => {
                    let (r, s1) = delete_items(xs, 0, st, cx);
                    match r {
                        EvalV::Val(_) => (EvalV::Val(lv), s1),
                        _ => (r, s1),
                    }
                },
                _ => (EvalV::Val(lv), st),
            }
        } else if name == "map"@ || name == "filter"@ || name == "each"@ {
            match first_lambda(args, 0) {
                Some(k) => match lv {
                    ValueV::Array(xs) => {
                        let lam = args[k].value;
                        let param = if lam->Lambda_params.len() > 0 {
                            Some(lam->Lambda_params[0])
                        } else {
                            None
                        };
                        map_items(g, name, param, *lam->Lambda_body, xs, 0, Seq::empty(), st, cx)
                    },
                    _ => (EvalV::Val(lv), st),
                },
                None => (EvalV::Val(lv), st),
            }
        } else {
            let (r, s1) = ev_args(g, args, 0, seq![lv], st, cx);
            match r {
                EvalsV::Vals(vs) => builtin_with(name, vs, s1, cx),
                EvalsV::Stop(x) => (x, s1),
            }
        }
    }
}

/// `map`, `filter` or `each` over the items from `i` on: the lambda's body
/// evaluated with its parameter bound to each item in a scope of its own.
pub open spec fn map_items(
    f: nat,
    mode: Seq<char>,
    param: Option<Seq<char>>,
    body: ExprV,
    xs: Seq<ValueV>,
    i: int,
    acc: Seq<ValueV>,
    st: MachineV,
    cx: CtxV,
) -> (EvalV, MachineV)
    decreases f, xs.len() - i,
{
    if 0 <= i < xs.len() {
        let s0 = match param {
            Some(p) => assign(push_scope(st), p, xs[i]),
            None => push_scope(st),
        };
        let (r, s1) = ev(f, body, s0, cx);
        match r {
            EvalV::Val(v) => {
                let acc2 = if mode == "map"@ {
                    acc.push(v)
                } else if mode == "filter"@ && truthy(v) {
                    acc.push(xs[i])
                } else {
                    acc
                };
                map_items(f, mode, param, body, xs, i + 1, acc2, pop_scope(s1), cx)
            },
            _ => (r, s1),
        }
    } else {
        (EvalV::Val(if mode == "each"@ { ValueV::Null } else { ValueV::Array(acc) }), st)
    }
}

// ───────────────────────────── statements ─────────────────────────────

/// Running the statements from `i` on.
pub open spec fn stmts(f: nat, ss: Seq<StmtV>, i: int, st: MachineV, cx: CtxV) -> (FlowV, MachineV)
    decreases f, ss.len() - i,
{
    if 0 <= i < ss.len() {
        let (r, s1) = stmt(f, ss[i], st, cx);
        match r {
            FlowV::Next => stmts(f, ss, i + 1, s1, cx),
            _ => (r, s1),
        }
    } else {
        (FlowV::Next, st)
    }
}

pub open spec fn lift(r: EvalV) -> FlowV {
    match r {
        EvalV::Val(_) => FlowV::Next,
        EvalV::Need(q) => FlowV::Need(q),
        EvalV::Fail(m) => FlowV::Fail(m),
    }
}

/// Running a block in a scope of its own.
pub open spec fn block(f: nat, body: Seq<StmtV>, st: MachineV, cx: CtxV) -> (FlowV, MachineV)
    decreases f, 0int,
{
    if f == 0 {
        (FlowV::Fail(too_deep_text()), st)
    } else {
        let (r, s1) = stmts((f - 1) as nat, body, 0, push_scope(st), cx);
        match r {
            FlowV::Next | FlowV::Ret(_) => (r, pop_scope(s1)),
            _ => (r, s1),
        }
    }
}

/// Running one statement.
pub open spec fn stmt(f: nat, s: StmtV, st: MachineV, cx: CtxV) -> (FlowV, MachineV)
    decreases f, 0int,
{
    if f == 0 {
        (FlowV::Fail(too_deep_text()), st)
    } else {
        let g = (f - 1) as nat;
        match s {
            StmtV::Let { name, value } => {
                let (r, s1) = ev(g, value, st, cx);
                match r {
                    EvalV::Val(v) => (FlowV::Next, assign(s1, name, v)),
                    _ => (lift(r), s1),
                }
            },
            StmtV::Assign { target, value } => {
                let (r, s1) = ev(g, value, st, cx);
                match r {
                    EvalV::Val(v) => match target {
                        ExprV::Ident(n) => (FlowV::Next, assign(s1, n, v)),
                        ExprV::FieldAccess { object, field } => match *object {
                            ExprV::Ident(o) => match lookup(s1.scopes, o) {
                                ValueV::Record(rec) => (
                                    FlowV::Next,
                                    assign(s1, o, ValueV::Record(with_field(rec, field, v))),
                                ),
                                _ => (FlowV::Next, s1),
                            },
                            _ => (FlowV::Next, s1),
                        },
                        _ => (FlowV::Next, s1),
                    },
                    _ => (lift(r), s1),
                }
            },
            StmtV::If { condition, then_body, else_body } => {
                let (r, s1) = ev(g, condition, st, cx);
                match r {
                    EvalV::Val(c) => if truthy(c) {
                        block(g, then_body, s1, cx)
                    } else {
                        match else_body {
                            Some(b) => block(g, b, s1, cx),
                            None => (FlowV::Next, s1),
                        }
                    },
                    _ => (lift(r), s1),
                }
            },
            StmtV::For { var, iter, body } => {
                let (r, s1) = ev(g, iter, st, cx);
                match r {
                    EvalV::Val(ValueV::Array(xs)) => for_items(g, var, body, xs, 0, s1, cx),
                    EvalV::Val(_) => (FlowV::Next, s1),
                    _ => (lift(r), s1),
                }
            },
            StmtV::Return(o) => match o {
                Some(e) => {
                    let (r, s1) = ev(g, e, st, cx);
                    match r {
                        EvalV::Val(v) => (FlowV::Ret(v), s1),
                        _ => (lift(r), s1),
                    }
                },
                None => (FlowV::Ret(ValueV::Null), st),
            },
            StmtV::Expr(e) => {
                let (r, s1) = ev(g, e, st, cx);
                (lift(r), s1)
            },
        }
    }
}

/// The body of a `for` loop run for each item from `i` on, the variable
/// bound to the item in a scope of its own; a `return` ends the loop.
pub open spec fn for_items(
    f: nat,
    var: Seq<char>,
    body: Seq<StmtV>,
    xs: Seq<ValueV>,
    i: int,
    st: MachineV,
    cx: CtxV,
) -> (FlowV, MachineV)
    decreases f, xs.len() - i,
{
    if 0 <= i < xs.len() {
        if f == 0 {
            (FlowV::Fail(too_deep_text()), st)
        } else {
            let (r, s1) = stmts((f - 1) as nat, body, 0, assign(push_scope(st), var, xs[i]), cx);
            match r {
                FlowV::Next => for_items(f, var, body, xs, i + 1, pop_scope(s1), cx),
                FlowV::Ret(v) => (FlowV::Ret(v), pop_scope(s1)),
                _ => (r, s1),
            }
        }
    } else {
        (FlowV::Next, st)
    }
}


// ───────────────────────────── the executable machine ─────────────────────────────

/// What evaluating an expression gives.
#[derive(Debug)]
pub enum Eval {
    Val(Value),
    Need(Request),
    Fail(String),
}

impl View for Eval {
    type V = EvalV;

    open spec fn view(&self) -> EvalV {
        match self {
            Eval::Val(v) => EvalV::Val(value_view(*v)),
            Eval::Need(q) => EvalV::Need(q@),
            Eval::Fail(m) => EvalV::Fail(m@),
        }
    }
}

/// What running statements gives.
#[derive(Debug)]
pub enum Flow {
    Next,
    Ret(Value),
    Need(Request),
    Fail(String),
}

impl View for Flow {
    type V = FlowV;

    open spec fn view(&self) -> FlowV {
        match self {
            Flow::Next => FlowV::Next,
            Flow::Ret(v) => FlowV::Ret(value_view(*v)),
            Flow::Need(q) => FlowV::Need(q@),
            Flow::Fail(m) => FlowV::Fail(m@),
        }
    }
}

pub enum Evals {
    Vals(Vec<Value>),
    Stop(Eval),
}

impl View for Evals {
    type V = EvalsV;

    open spec fn view(&self) -> EvalsV {
        match self {
            Evals::Vals(v) => EvalsV::Vals(values_view(v@)),
            Evals::Stop(x) => EvalsV::Stop(x@),
        }
    }
}

fn lift_exec(r: Eval) -> (f: Flow)
    ensures
        f@ == lift(r@),
{
    match r {
        Eval::Val(_) => Flow::Next,
        Eval::Need(q) => Flow::Need(q),
        Eval::Fail(m) => Flow::Fail(m),
    }
}

/// The reply to the next request, or the request itself when it has none.
fn answer_exec(req: Request, m: &mut Machine, cx: &Ctx) -> (r: Eval)
    ensures
        (r@, final(m)@) == answer(req@, old(m)@, cx@),
{
    if m.used < cx.replies.len() {
        let k = m.used;
        m.used = m.used + 1;
        match &cx.replies[k] {
            Reply::Value(v) => Eval::Val(copy_value(v)),
            Reply::Error(e) => Eval::Fail(e.clone()),
        }
    } else {
        Eval::Need(req)
    }
}

fn too_deep() -> (r: String)
    ensures
        r@ == too_deep_text(),
{
    String::from_str("nesting too deep")
}

fn overflow() -> (r: String)
    ensures
        r@ == overflow_text(),
{
    String::from_str("integer overflow")
}

/// The value of variable `n` (see [`lookup`]).
pub fn lookup_var(m: &Machine, n: &str) -> (r: Value)
    ensures
        r@ == lookup(m@.scopes, n@),
{
    let ghost sv = m@.scopes;
    let mut k = m.scopes.len();
    assert(sv.take(k as int) =~= sv);
    while k > 0
        invariant
            k <= m.scopes.len(),
            sv == m@.scopes,
            sv.len() == m.scopes@.len(),
            lookup(sv, n@) == lookup(sv.take(k as int), n@),
        decreases k,
    {
        let ghost t = sv.take(k as int);
        assert(t.drop_last() =~= sv.take(k - 1));
        assert(t.last() == crate::value::fields_view(m.scopes@[k - 1]@));
        match field_index(&m.scopes[k - 1], n) {
            Some(i) => {
                proof {
                    lemma_fields_view_index(m.scopes@[k - 1]@);
                }
                return copy_value(&m.scopes[k - 1][i].1);
            },
            None => {},
        }
        k = k - 1;
    }
    assert(sv.take(0) =~= Seq::<Seq<(Seq<char>, ValueV)>>::empty());
    Value::Null
}

/// Sets variable `n` to `v` in the innermost scope (see [`assign`]).
pub fn assign_var(m: &mut Machine, n: &str, v: Value)
    ensures
        final(m)@ == assign(old(m)@, n@, v@),
{
    if m.scopes.len() == 0 {
        return;
    }
    let ghost s0 = m.scopes@;
    let last = m.scopes.pop().unwrap();
    let mut holder = Record { memory: String::new(), id: String::new(), fields: last };
    set_field(&mut holder, n, v);
    m.scopes.push(holder.fields);
    assert(m@.scopes =~= old(m)@.scopes.update(old(m)@.scopes.len() - 1, put(old(m)@.scopes.last(), n@, v@)));
}

pub fn push_scope_exec(m: &mut Machine)
    ensures
        final(m)@ == push_scope(old(m)@),
{
    m.scopes.push(Vec::new());
    assert(crate::value::fields_view(Seq::<(String, Value)>::empty()) =~= Seq::empty());
    assert(m@.scopes =~= old(m)@.scopes.push(Seq::empty()));
}

pub fn pop_scope_exec(m: &mut Machine)
    ensures
        final(m)@ == pop_scope(old(m)@),
{
    if m.scopes.len() > 0 {
        let _ = m.scopes.pop();
        assert(m@.scopes =~= old(m)@.scopes.drop_last());
    }
}


fn utf8_len_exec(s: &str) -> (r: usize)
    ensures
        r == utf8_len(s@),
{
    assert(s@.take(s@.len() as int) =~= s@);
    let b = s.as_bytes();
    b.len()
}

fn duration_exec(d: crate::ast::Duration) -> (r: Eval)
    ensures
        r@ == duration_value(d),
{
    let mul: u64 = match d.unit {
        crate::ast::DurationUnit::Second => 1,
        crate::ast::DurationUnit::Minute => 60,
        crate::ast::DurationUnit::Hour => 3600,
        crate::ast::DurationUnit::Day => 86400,
        crate::ast::DurationUnit::Week => 604800,
    };
    match d.value.checked_mul(mul) {
        Some(secs) => Eval::Val(Value::Int(secs as i64)),
        None => Eval::Fail(overflow()),
    }
}

fn field_of_exec(r: Eval, field: &str) -> (o: Eval)
    ensures
        o@ == field_of(r@, field@),
{
    match r {
        Eval::Val(Value::Record(rec)) => match field_index(&rec.fields, field) {
            Some(i) => {
                proof {
                    lemma_fields_view_index(rec.fields@);
                }
                Eval::Val(copy_value(&rec.fields[i].1))
            },
            None => Eval::Val(Value::Null),
        },
        Eval::Val(_) => Eval::Val(Value::Null),
        other => other,
    }
}

fn negated_exec(s: &String) -> (r: String)
    ensures
        r@ == negated(s@),
{
    let n = s.as_str().unicode_len();
    if n > 0 && s.as_str().get_char(0) == '-' {
        let t = s.as_str().substring_char(1, n);
        assert(t@ =~= s@.drop_first());
        String::from_str(t)
    } else {
        let mut t = String::from_str("-");
        proof {
            reveal_strlit("-");
        }
        t.append(s.as_str());
        assert(t@ =~= seq!['-'] + s@);
        t
    }
}

fn unary_exec(op: UnaryOp, v: &Value) -> (r: Eval)
    ensures
        r@ == unary(op, v@),
{
    match op {
        UnaryOp::Neg => match v {
            Value::Int(n) => if *n == i64::MIN {
                Eval::Fail(overflow())
            } else {
                Eval::Val(Value::Int(-*n))
            },
            Value::Float(s) => Eval::Val(Value::Float(negated_exec(s))),
            _ => Eval::Val(Value::Null),
        },
        UnaryOp::Not => Eval::Val(Value::Bool(!is_truthy(v))),
    }
}

fn apply_binop_exec(l: Value, op: BinOp, r: Value, m: &mut Machine, cx: &Ctx) -> (o: Eval)
    ensures
        (o@, final(m)@) == apply_binop(l@, op, r@, old(m)@, cx@),
{
    match binop(&l, op, &r) {
        BinopOutcome::Value(v) => Eval::Val(v),
        BinopOutcome::NeedsFloat => answer_exec(Request::Float { left: l, op, right: r }, m, cx),
        BinopOutcome::Overflow => Eval::Fail(overflow()),
    }
}

/// Sets field `k` of a record (see [`with_field`]).
fn with_field_exec(mut r: Record, k: &str, v: Value) -> (o: Record)
    ensures
        o@ == with_field(r@, k@, v@),
{
    set_field(&mut r, k, v);
    r
}

fn bind_all_exec(m: &mut Machine, fs: &Vec<(String, Value)>)
    ensures
        final(m)@ == bind_all(old(m)@, crate::value::fields_view(fs@)),
{
    let ghost fv = crate::value::fields_view(fs@);
    proof {
        lemma_fields_view_index(fs@);
    }
    let mut i: usize = 0;
    assert(fv.take(0) =~= Seq::<(Seq<char>, ValueV)>::empty());
    while i < fs.len()
        invariant
            i <= fs.len(),
            fv == crate::value::fields_view(fs@),
            fv.len() == fs@.len(),
            forall|j: int| 0 <= j < fs@.len() ==> fv[j] == crate::value::field_view(#[trigger] fs@[j]),
            m@ == bind_all(old(m)@, fv.take(i as int)),
        decreases fs.len() - i,
    {
        assert(fv.take(i + 1).drop_last() =~= fv.take(i as int));
        let v = copy_value(&fs[i].1);
        assign_var(m, fs[i].0.as_str(), v);
        i = i + 1;
    }
    assert(fv.take(i as int) =~= fv);
}

fn bind_params_exec(m: &mut Machine, params: &Vec<crate::ast::Param>, vals: &Vec<Value>)
    ensures
        final(m)@ == bind_params(
            old(m)@,
            params@.map_values(|q: crate::ast::Param| q.name@),
            values_view(vals@),
            0,
        ),
{
    let ghost ps = params@.map_values(|q: crate::ast::Param| q.name@);
    let ghost vs = values_view(vals@);
    proof {
        lemma_values_view_index(vals@);
    }
    let mut k: usize = 0;
    while k < params.len() && k + 1 < vals.len()
        invariant
            k <= params.len(),
            ps == params@.map_values(|q: crate::ast::Param| q.name@),
            vs == values_view(vals@),
            vs.len() == vals@.len(),
            forall|j: int| 0 <= j < vals@.len() ==> vs[j] == value_view(#[trigger] vals@[j]),
            bind_params(old(m)@, ps, vs, 0) == bind_params(m@, ps, vs, k as int),
        decreases params.len() - k,
    {
        let v = copy_value(&vals[k + 1]);
        assign_var(m, params[k].name.as_str(), v);
        k = k + 1;
    }
}

fn threshold_exec(args: &Vec<CallArg>) -> (r: String)
    ensures
        r@ == threshold_of(args_view(args@), 0),
{
    proof {
        lemma_args_view_index(args@);
    }
    let ghost av = args_view(args@);
    let mut i: usize = 0;
    while i < args.len()
        invariant
            i <= args.len(),
            av == args_view(args@),
            av.len() == args@.len(),
            forall|j: int| 0 <= j < args@.len() ==> av[j] == arg_view(#[trigger] args@[j]),
            threshold_of(av, 0) == threshold_of(av, i as int),
        decreases args.len() - i,
    {
        let named = match &args[i].name {
            Some(n) => text_eq(n.as_str(), "threshold"),
            None => false,
        };
        if named {
            if let Expr::Float(t) = &args[i].value {
                return t.clone();
            }
        }
        i = i + 1;
    }
    String::from_str("0.7")
}

fn first_lambda_exec(args: &Vec<CallArg>) -> (r: Option<usize>)
    ensures
        match r {
            Some(k) => first_lambda(args_view(args@), 0) == Some(k as int) && k < args.len(),
            None => first_lambda(args_view(args@), 0) is None,
        },
{
    proof {
        lemma_args_view_index(args@);
    }
    let ghost av = args_view(args@);
    let mut i: usize = 0;
    while i < args.len()
        invariant
            i <= args.len(),
            av == args_view(args@),
            av.len() == args@.len(),
            forall|j: int| 0 <= j < args@.len() ==> av[j] == arg_view(#[trigger] args@[j]),
            first_lambda(av, 0) == first_lambda(av, i as int),
        decreases args.len() - i,
    {
        if let Expr::Lambda { .. } = &args[i].value {
            return Some(i);
        }
        i = i + 1;
    }
    None
}

fn first_ident_exec(args: &Vec<CallArg>, default: &str) -> (r: String)
    ensures
        r@ == match first_ident(args_view(args@)) {
            Some(n) => n,
            None => default@,
        },
{
    proof {
        lemma_args_view_index(args@);
    }
    if args.len() > 0 {
        if let Expr::Ident(n) = &args[0].value {
            return n.clone();
        }
    }
    String::from_str(default)
}

fn store_list_exec(a: &Vec<Value>, m: &mut Machine, cx: &Ctx) -> (r: Eval)
    ensures
        (r@, final(m)@) == store_list(values_view(a@), 0, old(m)@, cx@),
{
    proof {
        lemma_values_view_index(a@);
    }
    let ghost av = values_view(a@);
    let mut j: usize = 0;
    while j < a.len()
        invariant
            j <= a.len(),
            av == values_view(a@),
            av.len() == a@.len(),
            forall|k: int| 0 <= k < a@.len() ==> av[k] == value_view(#[trigger] a@[k]),
            store_list(av, 0, old(m)@, cx@) == store_list(av, j as int, m@, cx@),
        decreases a.len() - j,
    {
        if let Value::Record(r) = &a[j] {
            let x = answer_exec(Request::Store(copy_record(r)), m, cx);
            match x {
                Eval::Val(_) => {},
                _ => return x,
            }
        }
        j = j + 1;
    }
    Eval::Val(Value::Null)
}

fn store_all_exec(vals: &Vec<Value>, m: &mut Machine, cx: &Ctx) -> (r: Eval)
    ensures
        (r@, final(m)@) == store_all(values_view(vals@), 0, old(m)@, cx@),
{
    proof {
        lemma_values_view_index(vals@);
    }
    let ghost av = values_view(vals@);
    let mut i: usize = 0;
    while i < vals.len()
        invariant
            i <= vals.len(),
            av == values_view(vals@),
            av.len() == vals@.len(),
            forall|k: int| 0 <= k < vals@.len() ==> av[k] == value_view(#[trigger] vals@[k]),
            store_all(av, 0, old(m)@, cx@) == store_all(av, i as int, m@, cx@),
        decreases vals.len() - i,
    {
        match &vals[i] {
            Value::Record(r) => {
                let x = answer_exec(Request::Store(copy_record(r)), m, cx);
                match x {
                    Eval::Val(_) => {},
                    _ => return x,
                }
            },
            Value::Array(a) => {
                let x = store_list_exec(a, m, cx);
                match x {
                    Eval::Val(_) => {},
                    _ => return x,
                }
            },
            _ => {},
        }
        i = i + 1;
    }
    Eval::Val(Value::Null)
}

fn store_as_sub_exec(name: &str, sub: &Vec<Value>, acc: &mut Vec<Value>, m: &mut Machine, cx: &Ctx) -> (r: Option<Eval>)
    ensures
        match store_as_sub(name@, values_view(sub@), 0, values_view(old(acc)@), old(m)@, cx@) {
            (EvalV::Val(ValueV::Array(a)), s) => r is None && values_view(final(acc)@) == a && final(m)@ == s,
            (x, s) => r matches Some(e) && e@ == x && final(m)@ == s,
        },
{
    proof {
        lemma_values_view_index(sub@);
    }
    let ghost av = values_view(sub@);
    let mut j: usize = 0;
    while j < sub.len()
        invariant
            j <= sub.len(),
            av == values_view(sub@),
            av.len() == sub@.len(),
            forall|k: int| 0 <= k < sub@.len() ==> av[k] == value_view(#[trigger] sub@[k]),
            store_as_sub(name@, av, 0, values_view(old(acc)@), old(m)@, cx@) == store_as_sub(
                name@,
                av,
                j as int,
                values_view(acc@),
                m@,
                cx@,
            ),
        decreases sub.len() - j,
    {
        if let Value::Record(r) = &sub[j] {
            let mut r2 = copy_record(r);
            r2.memory = String::from_str(name);
            let x = answer_exec(Request::Store(copy_record(&r2)), m, cx);
            match x {
                Eval::Val(_) => {
                    proof {
                        lemma_values_view_push(acc@, Value::Record(r2));
                    }
                    acc.push(Value::Record(r2));
                },
                _ => return Some(x),
            }
        }
        j = j + 1;
    }
    None
}

fn store_as_exec(name: &str, xs: &Vec<Value>, m: &mut Machine, cx: &Ctx) -> (r: Eval)
    ensures
        (r@, final(m)@) == store_as_items(name@, values_view(xs@), 0, Seq::empty(), old(m)@, cx@),
{
    proof {
        lemma_values_view_index(xs@);
    }
    let ghost av = values_view(xs@);
    let mut acc: Vec<Value> = Vec::new();
    assert(values_view(acc@) =~= Seq::<ValueV>::empty());
    let mut i: usize = 0;
    while i < xs.len()
        invariant
            i <= xs.len(),
            av == values_view(xs@),
            av.len() == xs@.len(),
            forall|k: int| 0 <= k < xs@.len() ==> av[k] == value_view(#[trigger] xs@[k]),
            store_as_items(name@, av, 0, Seq::empty(), old(m)@, cx@) == store_as_items(
                name@,
                av,
                i as int,
                values_view(acc@),
                m@,
                cx@,
            ),
        decreases xs.len() - i,
    {
        match &xs[i] {
            Value::Record(r) => {
                let mut r2 = copy_record(r);
                r2.memory = String::from_str(name);
                let x = answer_exec(Request::Store(copy_record(&r2)), m, cx);
                match x {
                    Eval::Val(_) => {
                        proof {
                            lemma_values_view_push(acc@, Value::Record(r2));
                        }
                        acc.push(Value::Record(r2));
                    },
                    _ => return x,
                }
            },
            Value::Array(sub) => {
                match store_as_sub_exec(name, sub, &mut acc, m, cx) {
                    None => {},
                    Some(x) => return x,
                }
            },
            other => {
                let c = copy_value(other);
                proof {
                    lemma_values_view_push(acc@, c);
                }
                acc.push(c);
            },
        }
        i = i + 1;
    }
    Eval::Val(Value::Array(acc))
}

fn delete_items_exec(xs: &Vec<Value>, m: &mut Machine, cx: &Ctx) -> (r: Eval)
    ensures
        (r@, final(m)@) == delete_items(values_view(xs@), 0, old(m)@, cx@),
{
    proof {
        lemma_values_view_index(xs@);
    }
    let ghost av = values_view(xs@);
    let mut i: usize = 0;
    while i < xs.len()
        invariant
            i <= xs.len(),
            av == values_view(xs@),
            av.len() == xs@.len(),
            forall|k: int| 0 <= k < xs@.len() ==> av[k] == value_view(#[trigger] xs@[k]),
            delete_items(av, 0, old(m)@, cx@) == delete_items(av, i as int, m@, cx@),
        decreases xs.len() - i,
    {
        if let Value::Record(r) = &xs[i] {
            let x = answer_exec(Request::Delete { memory: r.memory.clone(), id: r.id.clone() }, m, cx);
            match x {
                Eval::Val(_) => {},
                _ => return x,
            }
        }
        i = i + 1;
    }
    Eval::Val(Value::Null)
}

fn model_request_exec(name: &str, vals: &Vec<Value>) -> (r: Request)
    ensures
        r@ == model_request(name@, values_view(vals@)),
{
    proof {
        lemma_values_view_index(vals@);
    }
    let text = if vals.len() > 0 {
        value_text_exec(&vals[0])
    } else {
        let e = String::new();
        assert(e@ =~= Seq::<char>::empty());
        e
    };
    let ghost tv = text@;
    let mut args: Vec<Value> = Vec::new();
    args.push(Value::Str(text));
    assert(values_view(args@) =~= seq![ValueV::Str(tv)]) by {
        lemma_values_view_push(Seq::<Value>::empty(), args@[0]);
        assert(args@ =~= Seq::<Value>::empty().push(args@[0]));
        assert(values_view(Seq::<Value>::empty()) =~= Seq::<ValueV>::empty());
    }
    Request::Call { name: String::from_str(name), args }
}

fn builtin_with_exec(name: &str, vals: Vec<Value>, m: &mut Machine, cx: &Ctx) -> (r: Eval)
    ensures
        (r@, final(m)@) == builtin_with(name@, values_view(vals@), old(m)@, cx@),
{
    proof {
        lemma_values_view_index(vals@);
    }
    if text_eq(name, "store") {
        store_all_exec(&vals, m, cx)
    } else if text_eq(name, "extract") || text_eq(name, "summarize") {
        answer_exec(model_request_exec(name, &vals), m, cx)
    } else if text_eq(name, "len") {
        let n: i64 = if vals.len() > 0 {
            match &vals[0] {
                Value::Array(a) => {
                    proof {
                        lemma_values_view_index(a@);
                    }
                    a.len() as i64
                },
                _ => 0,
            }
        } else {
            0
        };
        Eval::Val(Value::Int(n))
    } else if vals.len() > 0 {
        Eval::Val(copy_value(&vals[0]))
    } else {
        Eval::Val(Value::Null)
    }
}


pub proof fn lemma_finits_view_index(s: Seq<FieldInit>)
    ensures
        finits_view(s).len() == s.len(),
        forall|i: int| 0 <= i < s.len() ==> finits_view(s)[i] == finit_view(#[trigger] s[i]),
    decreases s.len(),
{
    if s.len() > 0 {
        let d = s.subrange(0, s.len() - 1);
        lemma_finits_view_index(d);
        assert forall|i: int| 0 <= i < s.len() implies finits_view(s)[i] == finit_view(
            #[trigger] s[i],
        ) by {
            if i < s.len() - 1 {
                assert(d[i] == s[i]);
            }
        }
    }
}

pub proof fn lemma_stmts_view_index(s: Seq<Stmt>)
    ensures
        stmts_view(s).len() == s.len(),
        forall|i: int| 0 <= i < s.len() ==> stmts_view(s)[i] == stmt_view(#[trigger] s[i]),
    decreases s.len(),
{
    if s.len() > 0 {
        let d = s.subrange(0, s.len() - 1);
        lemma_stmts_view_index(d);
        assert forall|i: int| 0 <= i < s.len() implies stmts_view(s)[i] == stmt_view(
            #[trigger] s[i],
        ) by {
            if i < s.len() - 1 {
                assert(d[i] == s[i]);
            }
        }
    }
}

fn copy_scopes(m: &Machine) -> (r: Vec<Vec<(String, Value)>>)
    ensures
        r@.map_values(|x: Vec<(String, Value)>| crate::value::fields_view(x@)) == m@.scopes,
{
    let mut out: Vec<Vec<(String, Value)>> = Vec::new();
    let mut k: usize = 0;
    while k < m.scopes.len()
        invariant
            k <= m.scopes.len(),
            out@.len() == k,
            forall|j: int| 0 <= j < k ==> crate::value::fields_view((#[trigger] out@[j])@) == m@.scopes[j],
        decreases m.scopes.len() - k,
    {
        let sc = copy_record_fields(&m.scopes[k]);
        let ghost before = out@;
        out.push(sc);
        assert forall|j: int| 0 <= j < k + 1 implies crate::value::fields_view((#[trigger] out@[j])@) == m@.scopes[j] by {
            if j < k {
                assert(out@[j] == before[j]);
            }
        }
        k = k + 1;
    }
    assert(out@.map_values(|x: Vec<(String, Value)>| crate::value::fields_view(x@)) =~= m@.scopes);
    out
}

fn copy_record_fields(f: &Vec<(String, Value)>) -> (r: Vec<(String, Value)>)
    ensures
        crate::value::fields_view(r@) == crate::value::fields_view(f@),
{
    let mut out: Vec<(String, Value)> = Vec::new();
    let mut i: usize = 0;
    proof {
        lemma_fields_view_index(f@);
    }
    assert(crate::value::fields_view(out@) =~= crate::value::fields_view(f@).take(0));
    while i < f.len()
        invariant
            i <= f.len(),
            crate::value::fields_view(f@).len() == f@.len(),
            forall|j: int| 0 <= j < f@.len() ==> crate::value::fields_view(f@)[j] == crate::value::field_view(#[trigger] f@[j]),
            crate::value::fields_view(out@) == crate::value::fields_view(f@).take(i as int),
        decreases f.len() - i,
    {
        let x = (f[i].0.clone(), copy_value(&f[i].1));
        proof {
            crate::value::lemma_fields_view_push(out@, x);
        }
        out.push(x);
        assert(crate::value::fields_view(out@) =~= crate::value::fields_view(f@).take(i + 1));
        i = i + 1;
    }
    assert(crate::value::fields_view(f@).take(i as int) =~= crate::value::fields_view(f@));
    out
}

/// Evaluates an expression (see [`ev`]).
#[verifier::rlimit(60)]
pub fn eval_exec(f: u64, e: &Expr, m: &mut Machine, cx: &Ctx) -> (r: Eval)
    ensures
        (r@, final(m)@) == ev(f as nat, expr_view(*e), old(m)@, cx@),
    decreases f, 0int,
{
    if f == 0 {
        return Eval::Fail(too_deep());
    }
    let g = f - 1;
    match e {
        Expr::Int(n) => Eval::Val(Value::Int(*n)),
        Expr::Float(s) => Eval::Val(Value::Float(decimal_text_exec(s))),
        Expr::Str(s) => Eval::Val(Value::Str(s.clone())),
        Expr::Bool(b) => Eval::Val(Value::Bool(*b)),
        Expr::Null => Eval::Val(Value::Null),
        Expr::Duration(d) => duration_exec(*d),
        Expr::Ident(n) => Eval::Val(lookup_var(m, n.as_str())),
        Expr::FieldAccess { object, field } => {
            let r = eval_exec(g, &**object, m, cx);
            field_of_exec(r, field.as_str())
        },
        Expr::OptionalChain { object, field } => {
            let r = eval_exec(g, &**object, m, cx);
            field_of_exec(r, field.as_str())
        },
        Expr::IndexAccess { object, index } => {
            let r1 = eval_exec(g, &**object, m, cx);
            match r1 {
                Eval::Val(o) => {
                    let r2 = eval_exec(g, &**index, m, cx);
                    match r2 {
                        Eval::Val(i) => Eval::Val(index_value(&o, &i)),
                        _ => r2,
                    }
                },
                _ => r1,
            }
        },
        Expr::Binary { left, op, right } => {
            let r1 = eval_exec(g, &**left, m, cx);
            match r1 {
                Eval::Val(l) => {
                    let r2 = eval_exec(g, &**right, m, cx);
                    match r2 {
                        Eval::Val(r) => apply_binop_exec(l, *op, r, m, cx),
                        _ => r2,
                    }
                },
                _ => r1,
            }
        },
        Expr::Unary { op, operand } => {
            let r = eval_exec(g, &**operand, m, cx);
            match r {
                Eval::Val(v) => unary_exec(*op, &v),
                _ => r,
            }
        },
        Expr::Call { func, args } => match &**func {
            Expr::Ident(name) => {
                assert(expr_view(**func) == ExprV::Ident(name@));
                let acc: Vec<Value> = Vec::new();
                assert(values_view(acc@) =~= Seq::<ValueV>::empty());
                let r = eval_args_exec(g, args, 0, acc, m, cx);
                match r {
                    Evals::Vals(vs) => call_exec(g, name.as_str(), vs, args, m, cx),
                    Evals::Stop(x) => x,
                }
            },
            _ => {
                assert(!(expr_view(**func) is Ident));
                Eval::Val(Value::Null)
            },
        },
        Expr::Pipe { left, right } => {
            let r = eval_exec(g, &**left, m, cx);
            match r {
                Eval::Val(lv) => piped_exec(g, &**right, lv, m, cx),
                _ => r,
            }
        },
        Expr::StructInit { name, fields } => {
            let r = answer_exec(Request::NewId, m, cx);
            match r {
                Eval::Val(Value::Str(id)) => {
                    let rec = Record { memory: name.clone(), id, fields: Vec::new() };
                    assert(crate::value::fields_view(rec.fields@) =~= Seq::empty());
                    init_fields_exec(g, fields, 0, rec, m, cx)
                },
                Eval::Val(_) => Eval::Fail(String::from_str("a fresh id must be text")),
                _ => r,
            }
        },
        Expr::Lambda { .. } => Eval::Val(Value::Null),
        Expr::Array(es) => {
            let acc: Vec<Value> = Vec::new();
            assert(values_view(acc@) =~= Seq::<ValueV>::empty());
            let r = eval_exprs_exec(g, es, 0, acc, m, cx);
            match r {
                Evals::Vals(vs) => Eval::Val(Value::Array(vs)),
                Evals::Stop(x) => x,
            }
        },
        Expr::InlineQuery(q) => {
            let body = crate::ast_copy::copy_query_body(&**q);
            let scopes = copy_scopes(m);
            answer_exec(Request::Query { body, scopes }, m, cx)
        },
        Expr::Alias { expr, .. } => eval_exec(g, &**expr, m, cx),
    }
}

fn eval_args_exec(
    f: u64,
    args: &Vec<CallArg>,
    i: usize,
    acc: Vec<Value>,
    m: &mut Machine,
    cx: &Ctx,
) -> (r: Evals)
    requires
        i <= args.len(),
    ensures
        (r@, final(m)@) == ev_args(f as nat, args_view(args@), i as int, values_view(acc@), old(m)@, cx@),
    decreases f, args.len() - i,
{
    proof {
        lemma_args_view_index(args@);
    }
    if i < args.len() {
        let r = eval_exec(f, &args[i].value, m, cx);
        match r {
            Eval::Val(v) => {
                let mut acc2 = acc;
                proof {
                    lemma_values_view_push(acc2@, v);
                }
                acc2.push(v);
                eval_args_exec(f, args, i + 1, acc2, m, cx)
            },
            _ => Evals::Stop(r),
        }
    } else {
        Evals::Vals(acc)
    }
}

fn eval_exprs_exec(
    f: u64,
    es: &Vec<Expr>,
    i: usize,
    acc: Vec<Value>,
    m: &mut Machine,
    cx: &Ctx,
) -> (r: Evals)
    requires
        i <= es.len(),
    ensures
        (r@, final(m)@) == ev_exprs(f as nat, exprs_view(es@), i as int, values_view(acc@), old(m)@, cx@),
    decreases f, es.len() - i,
{
    proof {
        lemma_exprs_view_index(es@);
    }
    if i < es.len() {
        let r = eval_exec(f, &es[i], m, cx);
        match r {
            Eval::Val(v) => {
                let mut acc2 = acc;
                proof {
                    lemma_values_view_push(acc2@, v);
                }
                acc2.push(v);
                eval_exprs_exec(f, es, i + 1, acc2, m, cx)
            },
            _ => Evals::Stop(r),
        }
    } else {
        Evals::Vals(acc)
    }
}

fn init_fields_exec(
    f: u64,
    fields: &Vec<FieldInit>,
    i: usize,
    rec: Record,
    m: &mut Machine,
    cx: &Ctx,
) -> (r: Eval)
    requires
        i <= fields.len(),
    ensures
        (r@, final(m)@) == init_fields(f as nat, finits_view(fields@), i as int, rec@, old(m)@, cx@),
    decreases f, fields.len() - i,
{
    proof {
        lemma_finits_view_index(fields@);
    }
    if i < fields.len() {
        let r = eval_exec(f, &fields[i].value, m, cx);
        match r {
            Eval::Val(v) => {
                let rec2 = with_field_exec(rec, fields[i].name.as_str(), v);
                init_fields_exec(f, fields, i + 1, rec2, m, cx)
            },
            _ => r,
        }
    } else {
        Eval::Val(Value::Record(rec))
    }
}


fn find_handler(cx: &Ctx, k: &str) -> (r: Option<usize>)
    ensures
        match r {
            Some(i) => i < cx.handlers.len() && last_named(cx@.handlers, k@) == Some(cx@.handlers[i as int].1),
            None => last_named(cx@.handlers, k@) is None,
        },
{
    let r = crate::strmap::last_with_key(&cx.handlers, k);
    proof {
        let s = cx@.handlers;
        match r {
            Some(i) => {
                assert forall|j: int| i < j < s.len() implies (#[trigger] s[j]).0 != k@ by {
                    assert(s[j].0 == cx.handlers@[j].0@);
                }
                lemma_last_named(s, k@, i as int);
            },
            None => {
                assert forall|j: int| -1 < j < s.len() implies (#[trigger] s[j]).0 != k@ by {
                    assert(s[j].0 == cx.handlers@[j].0@);
                }
                lemma_last_named(s, k@, -1);
            },
        }
    }
    r
}

fn find_update(cx: &Ctx, k: &str) -> (r: Option<usize>)
    ensures
        match r {
            Some(i) => i < cx.updates.len() && last_named(cx@.updates, k@) == Some(cx@.updates[i as int].1),
            None => last_named(cx@.updates, k@) is None,
        },
{
    let r = crate::strmap::last_with_key(&cx.updates, k);
    proof {
        let s = cx@.updates;
        match r {
            Some(i) => {
                assert forall|j: int| i < j < s.len() implies (#[trigger] s[j]).0 != k@ by {
                    assert(s[j].0 == cx.updates@[j].0@);
                }
                lemma_last_named(s, k@, i as int);
            },
            None => {
                assert forall|j: int| -1 < j < s.len() implies (#[trigger] s[j]).0 != k@ by {
                    assert(s[j].0 == cx.updates@[j].0@);
                }
                lemma_last_named(s, k@, -1);
            },
        }
    }
    r
}

fn find_invariants(cx: &Ctx, k: &str) -> (r: Option<usize>)
    ensures
        match r {
            Some(i) => i < cx.invariants.len() && last_named(cx@.invariants, k@) == Some(cx@.invariants[i as int].1),
            None => last_named(cx@.invariants, k@) is None,
        },
{
    let r = crate::strmap::last_with_key(&cx.invariants, k);
    proof {
        let s = cx@.invariants;
        match r {
            Some(i) => {
                assert forall|j: int| i < j < s.len() implies (#[trigger] s[j]).0 != k@ by {
                    assert(s[j].0 == cx.invariants@[j].0@);
                }
                lemma_last_named(s, k@, i as int);
            },
            None => {
                assert forall|j: int| -1 < j < s.len() implies (#[trigger] s[j]).0 != k@ by {
                    assert(s[j].0 == cx.invariants@[j].0@);
                }
                lemma_last_named(s, k@, -1);
            },
        }
    }
    r
}

fn has_on_conflict_exec(rules: &Vec<UpdateRule>) -> (r: bool)
    ensures
        r == has_on_conflict(rules_view(rules@)),
{
    let mut i: usize = 0;
    while i < rules.len()
        invariant
            i <= rules.len(),
            forall|j: int| 0 <= j < i ==> !(#[trigger] rules_view(rules@)[j] is OnConflict),
        decreases rules.len() - i,
    {
        if let UpdateRule::OnConflict { .. } = &rules[i] {
            assert(rules_view(rules@)[i as int] is OnConflict);
            return true;
        }
        i = i + 1;
    }
    false
}

fn text_field_exec(r: &Record, k: &str) -> (o: Option<String>)
    ensures
        match o {
            Some(t) => text_field(r@, k@) == Some(t@),
            None => text_field(r@, k@) is None,
        },
{
    match field_index(&r.fields, k) {
        Some(i) => {
            proof {
                lemma_fields_view_index(r.fields@);
            }
            match &r.fields[i].1 {
                Value::Str(t) => Some(t.clone()),
                _ => None,
            }
        },
        None => None,
    }
}

/// A call of function `name` (see [`call`]).
fn call_exec(f: u64, name: &str, vals: Vec<Value>, args: &Vec<CallArg>, m: &mut Machine, cx: &Ctx) -> (r: Eval)
    ensures
        (r@, final(m)@) == call(f as nat, name@, values_view(vals@), args_view(args@), old(m)@, cx@),
    decreases f, 0int,
{
    if f == 0 {
        return Eval::Fail(too_deep());
    }
    let g = f - 1;
    proof {
        lemma_values_view_index(vals@);
    }
    if text_eq(name, "now") {
        answer_exec(Request::Now, m, cx)
    } else if text_eq(name, "store") {
        if vals.len() > 0 {
            if let Value::Record(rec) = &vals[0] {
                let r = match find_invariants(cx, rec.memory.as_str()) {
                    Some(k) => check_invs_exec(g, rec, &cx.invariants[k].1, 0, m, cx),
                    None => {
                        let empty: Vec<Expr> = Vec::new();
                        assert(exprs_view(empty@) =~= Seq::<ExprV>::empty());
                        check_invs_exec(g, rec, &empty, 0, m, cx)
                    },
                };
                return match r {
                    Eval::Val(_) => store_checked_exec(g, copy_record(rec), m, cx),
                    _ => r,
                };
            }
        }
        Eval::Val(Value::Null)
    } else if text_eq(name, "delete") {
        if vals.len() > 0 {
            if let Value::Record(rec) = &vals[0] {
                let r = answer_exec(Request::Delete { memory: rec.memory.clone(), id: rec.id.clone() }, m, cx);
                return match r {
                    Eval::Val(_) => Eval::Val(Value::Null),
                    _ => r,
                };
            }
        }
        let t = lookup_var(m, "_update_target");
        let i = lookup_var(m, "id");
        match (t, i) {
            (Value::Str(t), Value::Str(i)) => {
                let r = answer_exec(Request::Delete { memory: t, id: i }, m, cx);
                match r {
                    Eval::Val(_) => Eval::Val(Value::Null),
                    _ => r,
                }
            },
            _ => Eval::Val(Value::Null),
        }
    } else if text_eq(name, "archive") {
        let t = lookup_var(m, "_update_target");
        let i = lookup_var(m, "id");
        match (t, i) {
            (Value::Str(t), Value::Str(i)) => {
                let r = answer_exec(Request::Get { memory: t, id: i }, m, cx);
                match r {
                    Eval::Val(Value::Record(rec)) => {
                        let rec2 = with_field_exec(rec, "_archived", Value::Bool(true));
                        let r2 = answer_exec(Request::Store(rec2), m, cx);
                        match r2 {
                            Eval::Val(_) => Eval::Val(Value::Null),
                            _ => r2,
                        }
                    },
                    Eval::Val(_) => Eval::Val(Value::Null),
                    _ => r,
                }
            },
            _ => Eval::Val(Value::Null),
        }
    } else if text_eq(name, "discard") || text_eq(name, "map") || text_eq(name, "filter") || text_eq(name, "each") {
        Eval::Val(Value::Null)
    } else if text_eq(name, "supersede") {
        if vals.len() > 1 {
            if let (Value::Record(old_rec), Value::Record(new_rec)) = (&vals[0], &vals[1]) {
                let r = answer_exec(Request::Now, m, cx);
                return match r {
                    Eval::Val(t) => {
                        let old2 = with_field_exec(
                            with_field_exec(copy_record(old_rec), "superseded_by", Value::Str(new_rec.id.clone())),
                            "valid_until",
                            t,
                        );
                        let r2 = answer_exec(Request::Store(old2), m, cx);
                        match r2 {
                            Eval::Val(_) => {
                                let r3 = answer_exec(Request::Store(copy_record(new_rec)), m, cx);
                                match r3 {
                                    Eval::Val(_) => Eval::Val(Value::Null),
                                    _ => r3,
                                }
                            },
                            _ => r2,
                        }
                    },
                    _ => r,
                };
            }
        }
        Eval::Val(Value::Null)
    } else if text_eq(name, "len") {
        let n: i64 = if vals.len() > 0 {
            match &vals[0] {
                Value::Array(a) => {
                    proof {
                        lemma_values_view_index(a@);
                    }
                    a.len() as i64
                },
                Value::Str(t) => utf8_len_exec(t.as_str()) as i64,
                _ => 0,
            }
        } else {
            0
        };
        Eval::Val(Value::Int(n))
    } else if text_eq(name, "min") || text_eq(name, "max") {
        if vals.len() > 1 {
            match (&vals[0], &vals[1]) {
                (Value::Int(a), Value::Int(b)) => {
                    let is_min = text_eq(name, "min");
                    return Eval::Val(Value::Int(if is_min == (*a <= *b) { *a } else { *b }));
                },
                (Value::Float(_), Value::Float(_)) => {
                    return answer_exec(Request::Call { name: String::from_str(name), args: vals }, m, cx);
                },
                _ => {},
            }
        }
        Eval::Val(Value::Null)
    } else if text_eq(name, "semantic_match") {
        if vals.len() > 1 {
            if let (Value::Str(a), Value::Str(b)) = (&vals[0], &vals[1]) {
                let threshold = threshold_exec(args);
                return answer_exec(Request::Similar { a: a.clone(), b: b.clone(), threshold }, m, cx);
            }
        }
        Eval::Val(Value::Bool(true))
    } else if text_eq(name, "extract") || text_eq(name, "summarize") {
        answer_exec(model_request_exec(name, &vals), m, cx)
    } else if text_eq(name, "emit") {
        if vals.len() > 0 {
            if let Value::Str(ev_name) = &vals[0] {
                return match find_handler(cx, ev_name.as_str()) {
                    Some(k) => {
                        push_scope_exec(m);
                        bind_params_exec(m, &cx.handlers[k].1.params, &vals);
                        let r = stmts_exec(g, &cx.handlers[k].1.body, 0, m, cx);
                        match r {
                            Flow::Next | Flow::Ret(_) => {
                                pop_scope_exec(m);
                                Eval::Val(Value::Null)
                            },
                            Flow::Need(q) => Eval::Need(q),
                            Flow::Fail(e) => Eval::Fail(e),
                        }
                    },
                    None => Eval::Val(Value::Null),
                };
            }
        }
        Eval::Val(Value::Null)
    } else {
        answer_exec(Request::Call { name: String::from_str(name), args: vals }, m, cx)
    }
}

fn check_invs_exec(f: u64, rec: &Record, invs: &Vec<Expr>, i: usize, m: &mut Machine, cx: &Ctx) -> (r: Eval)
    requires
        i <= invs.len(),
    ensures
        (r@, final(m)@) == check_invs(f as nat, rec@, exprs_view(invs@), i as int, old(m)@, cx@),
    decreases f, invs.len() - i,
{
    proof {
        lemma_exprs_view_index(invs@);
    }
    if i < invs.len() {
        push_scope_exec(m);
        bind_all_exec(m, &rec.fields);
        let r = eval_exec(f, &invs[i], m, cx);
        match r {
            Eval::Val(v) => {
                pop_scope_exec(m);
                if is_truthy(&v) {
                    check_invs_exec(f, rec, invs, i + 1, m, cx)
                } else {
                    let mut msg = String::from_str("invariant violation in '");
                    msg.append(rec.memory.as_str());
                    msg.append("': condition evaluated to false");
                    Eval::Fail(msg)
                }
            },
            _ => r,
        }
    } else {
        Eval::Val(Value::Null)
    }
}

fn store_plain(rec: Record, m: &mut Machine, cx: &Ctx) -> (r: Eval)
    ensures
        ({
            let s = answer(RequestV::Store(rec@), old(m)@, cx@);
            let p = match s.0 {
                EvalV::Val(_) => (EvalV::Val(ValueV::Null), s.1),
                _ => s,
            };
            (r@, final(m)@) == p
        }),
{
    let r = answer_exec(Request::Store(rec), m, cx);
    match r {
        Eval::Val(_) => Eval::Val(Value::Null),
        _ => r,
    }
}

fn store_checked_exec(f: u64, rec: Record, m: &mut Machine, cx: &Ctx) -> (r: Eval)
    ensures
        (r@, final(m)@) == store_checked(f as nat, rec@, old(m)@, cx@),
    decreases f, 0int,
{
    if f == 0 {
        return Eval::Fail(too_deep());
    }
    let g = f - 1;
    match find_update(cx, rec.memory.as_str()) {
        Some(k) => {
            let rules = &cx.updates[k].1.rules;
            if has_on_conflict_exec(rules) {
                match (text_field_exec(&rec, "subject"), text_field_exec(&rec, "predicate")) {
                    (Some(subject), Some(predicate)) => {
                        if m.used < cx.replies.len() {
                            let at = m.used;
                            m.used = m.used + 1;
                            match &cx.replies[at] {
                                Reply::Value(Value::Array(olds)) => {
                                    proof {
                                        lemma_values_view_index(olds@);
                                    }
                                    if olds.len() == 0 {
                                        store_plain(rec, m, cx)
                                    } else {
                                        on_conflicts_exec(g, &rec, rules, olds, 0, m, cx)
                                    }
                                },
                                _ => store_plain(rec, m, cx),
                            }
                        } else {
                            Eval::Need(Request::Conflicts { memory: rec.memory.clone(), subject, predicate })
                        }
                    },
                    _ => store_plain(rec, m, cx),
                }
            } else {
                store_plain(rec, m, cx)
            }
        },
        None => store_plain(rec, m, cx),
    }
}

fn on_conflicts_exec(
    f: u64,
    rec: &Record,
    rules: &Vec<UpdateRule>,
    olds: &Vec<Value>,
    i: usize,
    m: &mut Machine,
    cx: &Ctx,
) -> (r: Eval)
    requires
        i <= olds.len(),
    ensures
        (r@, final(m)@) == on_conflicts(f as nat, rec@, rules_view(rules@), values_view(olds@), i as int, old(m)@, cx@),
    decreases f, olds.len() - i,
{
    proof {
        lemma_values_view_index(olds@);
    }
    if i < olds.len() {
        match &olds[i] {
            Value::Record(old_rec) => {
                if !text_eq(old_rec.id.as_str(), rec.id.as_str()) {
                    if f == 0 {
                        return Eval::Fail(too_deep());
                    }
                    let r = conflict_rules_exec(f - 1, rec, &old_rec.id, rules, 0, m, cx);
                    match r {
                        Eval::Val(_) => on_conflicts_exec(f, rec, rules, olds, i + 1, m, cx),
                        _ => r,
                    }
                } else {
                    on_conflicts_exec(f, rec, rules, olds, i + 1, m, cx)
                }
            },
            _ => on_conflicts_exec(f, rec, rules, olds, i + 1, m, cx),
        }
    } else {
        Eval::Val(Value::Null)
    }
}

fn conflict_rules_exec(
    f: u64,
    rec: &Record,
    old_id: &String,
    rules: &Vec<UpdateRule>,
    j: usize,
    m: &mut Machine,
    cx: &Ctx,
) -> (r: Eval)
    requires
        j <= rules.len(),
    ensures
        (r@, final(m)@) == conflict_rules(f as nat, rec@, old_id@, rules_view(rules@), j as int, old(m)@, cx@),
    decreases f, rules.len() - j,
{
    if j < rules.len() {
        match &rules[j] {
            UpdateRule::OnConflict { old_name, new_name, body } => {
                let g = answer_exec(Request::Get { memory: rec.memory.clone(), id: old_id.clone() }, m, cx);
                match g {
                    Eval::Val(Value::Record(old_rec)) => {
                        if f == 0 {
                            return Eval::Fail(too_deep());
                        }
                        push_scope_exec(m);
                        assign_var(m, "_update_target", Value::Str(rec.memory.clone()));
                        assign_var(m, old_name.as_str(), Value::Record(old_rec));
                        assign_var(m, new_name.as_str(), Value::Record(copy_record(rec)));
                        let r = stmts_exec(f - 1, body, 0, m, cx);
                        match r {
                            Flow::Next | Flow::Ret(_) => {
                                pop_scope_exec(m);
                                conflict_rules_exec(f, rec, old_id, rules, j + 1, m, cx)
                            },
                            Flow::Need(q) => Eval::Need(q),
                            Flow::Fail(e) => Eval::Fail(e),
                        }
                    },
                    Eval::Val(_) => conflict_rules_exec(f, rec, old_id, rules, j + 1, m, cx),
                    _ => g,
                }
            },
            _ => conflict_rules_exec(f, rec, old_id, rules, j + 1, m, cx),
        }
    } else {
        Eval::Val(Value::Null)
    }
}

/// `lv |> right` (see [`piped`]).
fn piped_exec(f: u64, right: &Expr, lv: Value, m: &mut Machine, cx: &Ctx) -> (r: Eval)
    ensures
        (r@, final(m)@) == piped(f as nat, expr_view(*right), lv@, old(m)@, cx@),
    decreases f, 0int,
{
    if f == 0 {
        return Eval::Fail(too_deep());
    }
    let g = f - 1;
    match right {
        Expr::Call { func, args } => match &**func {
            Expr::Ident(name) => {
                assert(expr_view(**func) == ExprV::Ident(name@));
                pipe_to_exec(g, name.as_str(), lv, args, m, cx)
            },
            _ => {
                assert(!(expr_view(**func) is Ident));
                Eval::Val(Value::Null)
            },
        },
        Expr::Ident(name) => {
            let empty: Vec<CallArg> = Vec::new();
            assert(args_view(empty@) =~= Seq::<CallArgV>::empty());
            pipe_to_exec(g, name.as_str(), lv, &empty, m, cx)
        },
        _ => Eval::Val(Value::Null),
    }
}

#[verifier::rlimit(100)]
fn pipe_to_exec(f: u64, name: &str, lv: Value, args: &Vec<CallArg>, m: &mut Machine, cx: &Ctx) -> (r: Eval)
    ensures
        (r@, final(m)@) == pipe_to(f as nat, name@, lv@, args_view(args@), old(m)@, cx@),
    decreases f, 0int,
{
    if f == 0 {
        return Eval::Fail(too_deep());
    }
    let g = f - 1;
    let ghost lvv = lv@;
    let ghost av = args_view(args@);
    let ghost spec_r = pipe_to(f as nat, name@, lvv, av, m@, cx@);
    proof {
        lemma_args_view_index(args@);
    }
    if text_eq(name, "group_by") {
        match lv {
            Value::Array(xs) => {
                let field = first_ident_exec(args, "id");
                let res = Eval::Val(Value::Array(group_by(&xs, field.as_str())));
                assert(res@ == spec_r.0);
                res
            },
            _ => Eval::Val(lv),
        }
    } else if text_eq(name, "store_as") {
        match lv {
            Value::Array(xs) => {
                let memory = first_ident_exec(args, "");
                proof {
                    reveal_strlit("");
                }
                assert(memory@ == match first_ident(av) { Some(n) => n, None => Seq::<char>::empty() });
                store_as_exec(memory.as_str(), &xs, m, cx)
            },
            _ => Eval::Val(Value::Null),
        }
    } else if text_eq(name, "delete_originals") {
        match &lv {
            Value::Array(xs) => {
                let r = delete_items_exec(xs, m, cx);
                match r {
                    Eval::Val(_) => Eval::Val(lv),
                    _ => r,
                }
            },
            _ => Eval::Val(lv),
        }
    } else if text_eq(name, "map") || text_eq(name, "filter") || text_eq(name, "each") {
        proof {
            lemma_first_lambda(av, 0);
        }
        match first_lambda_exec(args) {
            Some(k) => match &lv {
                Value::Array(xs) => match &args[k].value {
                    Expr::Lambda { params, body } => {
                        let param: Option<&str> = if params.len() > 0 {
                            Some(params[0].as_str())
                        } else {
                            None
                        };
                        assert(av[k as int].value == expr_view(args@[k as int].value));
                        assert(expr_view(args@[k as int].value) == ExprV::Lambda {
                            params: crate::ast::strs_view(params@),
                            body: Box::new(expr_view(**body)),
                        });
                        let acc: Vec<Value> = Vec::new();
                        assert(values_view(acc@) =~= Seq::<ValueV>::empty());
                        map_items_exec(g, name, param, &**body, xs, 0, acc, m, cx)
                    },
                    _ => {
                        assert(av[k as int].value == expr_view(args@[k as int].value));
                        assert(false);
                        Eval::Val(lv)
                    },
                },
                _ => Eval::Val(lv),
            },
            None => Eval::Val(lv),
        }
    } else {
        let mut first: Vec<Value> = Vec::new();
        proof {
            lemma_values_view_push(first@, lv);
            assert(values_view(first@) =~= Seq::<ValueV>::empty());
        }
        first.push(lv);
        assert(values_view(first@) =~= seq![lvv]);
        let r = eval_args_exec(g, args, 0, first, m, cx);
        match r {
            Evals::Vals(vs) => builtin_with_exec(name, vs, m, cx),
            Evals::Stop(x) => x,
        }
    }
}

fn map_items_exec(
    f: u64,
    mode: &str,
    param: Option<&str>,
    body: &Expr,
    xs: &Vec<Value>,
    i: usize,
    acc: Vec<Value>,
    m: &mut Machine,
    cx: &Ctx,
) -> (r: Eval)
    requires
        i <= xs.len(),
    ensures
        (r@, final(m)@) == map_items(
            f as nat,
            mode@,
            match param {
                Some(p) => Some(p@),
                None => None,
            },
            expr_view(*body),
            values_view(xs@),
            i as int,
            values_view(acc@),
            old(m)@,
            cx@,
        ),
    decreases f, xs.len() - i,
{
    proof {
        lemma_values_view_index(xs@);
    }
    if i < xs.len() {
        push_scope_exec(m);
        match param {
            Some(p) => assign_var(m, p, copy_value(&xs[i])),
            None => {},
        }
        let r = eval_exec(f, body, m, cx);
        match r {
            Eval::Val(v) => {
                let mut acc2 = acc;
                if text_eq(mode, "map") {
                    proof {
                        lemma_values_view_push(acc2@, v);
                    }
                    acc2.push(v);
                } else if text_eq(mode, "filter") && is_truthy(&v) {
                    let c = copy_value(&xs[i]);
                    proof {
                        lemma_values_view_push(acc2@, c);
                    }
                    acc2.push(c);
                }
                pop_scope_exec(m);
                map_items_exec(f, mode, param, body, xs, i + 1, acc2, m, cx)
            },
            _ => r,
        }
    } else if text_eq(mode, "each") {
        Eval::Val(Value::Null)
    } else {
        Eval::Val(Value::Array(acc))
    }
}

/// Runs statements from `i` on (see [`stmts`]).
pub fn stmts_exec(f: u64, ss: &Vec<Stmt>, i: usize, m: &mut Machine, cx: &Ctx) -> (r: Flow)
    requires
        i <= ss.len(),
    ensures
        (r@, final(m)@) == stmts(f as nat, stmts_view(ss@), i as int, old(m)@, cx@),
    decreases f, ss.len() - i,
{
    proof {
        lemma_stmts_view_index(ss@);
    }
    if i < ss.len() {
        let r = stmt_exec(f, &ss[i], m, cx);
        match r {
            Flow::Next => stmts_exec(f, ss, i + 1, m, cx),
            _ => r,
        }
    } else {
        Flow::Next
    }
}

fn block_exec(f: u64, body: &Vec<Stmt>, m: &mut Machine, cx: &Ctx) -> (r: Flow)
    ensures
        (r@, final(m)@) == block(f as nat, stmts_view(body@), old(m)@, cx@),
    decreases f, 0int,
{
    if f == 0 {
        return Flow::Fail(too_deep());
    }
    push_scope_exec(m);
    let r = stmts_exec(f - 1, body, 0, m, cx);
    match r {
        Flow::Next | Flow::Ret(_) => {
            pop_scope_exec(m);
            r
        },
        _ => r,
    }
}

#[verifier::rlimit(100)]
fn stmt_exec(f: u64, st: &Stmt, m: &mut Machine, cx: &Ctx) -> (r: Flow)
    ensures
        (r@, final(m)@) == stmt(f as nat, stmt_view(*st), old(m)@, cx@),
    decreases f, 0int,
{
    if f == 0 {
        return Flow::Fail(too_deep());
    }
    let g = f - 1;
    match st {
        Stmt::Let { name, value } => {
            let r = eval_exec(g, value, m, cx);
            match r {
                Eval::Val(v) => {
                    assign_var(m, name.as_str(), v);
                    Flow::Next
                },
                _ => lift_exec(r),
            }
        },
        Stmt::Assign { target, value } => {
            let r = eval_exec(g, value, m, cx);
            match r {
                Eval::Val(v) => {
                    match target {
                        Expr::Ident(n) => assign_var(m, n.as_str(), v),
                        Expr::FieldAccess { object, field } => match &**object {
                            Expr::Ident(o) => match {
                                assert(expr_view(**object) == ExprV::Ident(o@));
                                lookup_var(m, o.as_str())
                            } {
                                Value::Record(rec) => {
                                    let rec2 = with_field_exec(rec, field.as_str(), v);
                                    assign_var(m, o.as_str(), Value::Record(rec2));
                                },
                                _ => {},
                            },
                            _ => {
                                assert(!(expr_view(**object) is Ident));
                            },
                        },
                        _ => {},
                    }
                    Flow::Next
                },
                _ => lift_exec(r),
            }
        },
        Stmt::If { condition, then_body, else_body } => {
            let r = eval_exec(g, condition, m, cx);
            match r {
                Eval::Val(c) => if is_truthy(&c) {
                    block_exec(g, then_body, m, cx)
                } else {
                    match else_body {
                        Some(b) => block_exec(g, b, m, cx),
                        None => Flow::Next,
                    }
                },
                _ => lift_exec(r),
            }
        },
        Stmt::For { var, iter, body } => {
            let r = eval_exec(g, iter, m, cx);
            match r {
                Eval::Val(Value::Array(xs)) => for_items_exec(g, var.as_str(), body, &xs, 0, m, cx),
                Eval::Val(_) => Flow::Next,
                _ => lift_exec(r),
            }
        },
        Stmt::Return(o) => match o {
            Some(e) => {
                let r = eval_exec(g, e, m, cx);
                match r {
                    Eval::Val(v) => Flow::Ret(v),
                    _ => lift_exec(r),
                }
            },
            None => Flow::Ret(Value::Null),
        },
        Stmt::Expr(e) => {
            let r = eval_exec(g, e, m, cx);
            lift_exec(r)
        },
    }
}

fn for_items_exec(
    f: u64,
    var: &str,
    body: &Vec<Stmt>,
    xs: &Vec<Value>,
    i: usize,
    m: &mut Machine,
    cx: &Ctx,
) -> (r: Flow)
    requires
        i <= xs.len(),
    ensures
        (r@, final(m)@) == for_items(f as nat, var@, stmts_view(body@), values_view(xs@), i as int, old(m)@, cx@),
    decreases f, xs.len() - i,
{
    proof {
        lemma_values_view_index(xs@);
    }
    if i < xs.len() {
        if f == 0 {
            return Flow::Fail(too_deep());
        }
        push_scope_exec(m);
        assign_var(m, var, copy_value(&xs[i]));
        let r = stmts_exec(f - 1, body, 0, m, cx);
        match r {
            Flow::Next => {
                pop_scope_exec(m);
                for_items_exec(f, var, body, xs, i + 1, m, cx)
            },
            Flow::Ret(v) => {
                pop_scope_exec(m);
                Flow::Ret(v)
            },
            _ => r,
        }
    } else {
        Flow::Next
    }
}


// ───────────────────────────── runs ─────────────────────────────

/// How a run from the start ends.
#[derive(Debug)]
pub enum RunOutcome {
    /// The body finished; the value of its `return`, if it returned.
    Done(Option<Value>),
    /// The body needs this outside work done; run it again with the reply.
    Need(Request),
    /// The body failed with this message.
    Fail(String),
}

pub enum RunOutcomeV {
    Done(Option<ValueV>),
    Need(RequestV),
    Fail(Seq<char>),
}

impl View for RunOutcome {
    type V = RunOutcomeV;

    open spec fn view(&self) -> RunOutcomeV {
        match self {
            RunOutcome::Done(Some(v)) => RunOutcomeV::Done(Some(value_view(*v))),
            RunOutcome::Done(None) => RunOutcomeV::Done(None),
            RunOutcome::Need(q) => RunOutcomeV::Need(q@),
            RunOutcome::Fail(m) => RunOutcomeV::Fail(m@),
        }
    }
}

/// Running `body` from its start with one scope holding `vars` and nesting
/// depth `depth`, the replies of `cx` answering its requests in order.
pub open spec fn run_spec(
    body: Seq<StmtV>,
    vars: Seq<(Seq<char>, ValueV)>,
    cx: CtxV,
    depth: nat,
) -> RunOutcomeV {
    let (r, _) = stmts(depth, body, 0, MachineV { scopes: seq![vars], used: 0 }, cx);
    match r {
        FlowV::Next => RunOutcomeV::Done(None),
        FlowV::Ret(v) => RunOutcomeV::Done(Some(v)),
        FlowV::Need(q) => RunOutcomeV::Need(q),
        FlowV::Fail(m) => RunOutcomeV::Fail(m),
    }
}

/// Runs `body` from its start (see [`run_spec`]).
pub fn run_body(body: &Vec<Stmt>, vars: Vec<(String, Value)>, cx: &Ctx, depth: u64) -> (r: RunOutcome)
    ensures
        r@ == run_spec(stmts_view(body@), crate::value::fields_view(vars@), cx@, depth as nat),
{
    let ghost vv = crate::value::fields_view(vars@);
    let mut scopes: Vec<Vec<(String, Value)>> = Vec::new();
    scopes.push(vars);
    let mut m = Machine { scopes, used: 0 };
    assert(m@.scopes =~= seq![vv]);
    match stmts_exec(depth, body, 0, &mut m, cx) {
        Flow::Next => RunOutcome::Done(None),
        Flow::Ret(v) => RunOutcome::Done(Some(v)),
        Flow::Need(q) => RunOutcome::Need(q),
        Flow::Fail(e) => RunOutcome::Fail(e),
    }
}

/// Evaluating `e` in the scopes `scopes` (innermost last), the replies of
/// `cx` answering its requests in order.
pub open spec fn eval_spec(e: ExprV, scopes: Seq<Seq<(Seq<char>, ValueV)>>, cx: CtxV, depth: nat) -> RunOutcomeV {
    let (r, _) = ev(depth, e, MachineV { scopes, used: 0 }, cx);
    match r {
        EvalV::Val(v) => RunOutcomeV::Done(Some(v)),
        EvalV::Need(q) => RunOutcomeV::Need(q),
        EvalV::Fail(m) => RunOutcomeV::Fail(m),
    }
}

/// Evaluates one expression from the start (see [`eval_spec`]); for the
/// values of a query that runs in a handler's scopes.
pub fn eval_in(e: &Expr, scopes: Vec<Vec<(String, Value)>>, cx: &Ctx, depth: u64) -> (r: RunOutcome)
    ensures
        r@ == eval_spec(
            expr_view(*e),
            scopes@.map_values(|x: Vec<(String, Value)>| crate::value::fields_view(x@)),
            cx@,
            depth as nat,
        ),
{
    let mut m = Machine { scopes, used: 0 };
    match eval_exec(depth, e, &mut m, cx) {
        Eval::Val(v) => RunOutcome::Done(Some(v)),
        Eval::Need(q) => RunOutcome::Need(q),
        Eval::Fail(msg) => RunOutcome::Fail(msg),
    }
}

/// The variables a handler starts with: each parameter that `payload`
/// names (the last pair with the name), in the order of the parameters.
pub open spec fn handler_vars(
    params: Seq<Seq<char>>,
    payload: Seq<(Seq<char>, ValueV)>,
) -> Seq<(Seq<char>, ValueV)>
    decreases params.len(),
{
    if params.len() == 0 {
        Seq::empty()
    } else {
        let before = handler_vars(params.drop_last(), payload);
        match field_get(payload, params.last()) {
            Some(v) => put(before, params.last(), v),
            None => before,
        }
    }
}

/// Binds a handler's parameters from an event's payload (see
/// [`handler_vars`]).
pub fn bind_payload(params: &Vec<crate::ast::Param>, payload: &Vec<(String, Value)>) -> (r: Vec<(String, Value)>)
    ensures
        crate::value::fields_view(r@) == handler_vars(
            params@.map_values(|q: crate::ast::Param| q.name@),
            crate::value::fields_view(payload@),
        ),
{
    let ghost ps = params@.map_values(|q: crate::ast::Param| q.name@);
    let mut holder = Record { memory: String::new(), id: String::new(), fields: Vec::new() };
    let mut k: usize = 0;
    assert(crate::value::fields_view(holder.fields@) =~= Seq::empty());
    assert(ps.take(0) =~= Seq::<Seq<char>>::empty());
    while k < params.len()
        invariant
            k <= params.len(),
            ps == params@.map_values(|q: crate::ast::Param| q.name@),
            crate::value::fields_view(holder.fields@) == handler_vars(ps.take(k as int), crate::value::fields_view(payload@)),
        decreases params.len() - k,
    {
        assert(ps.take(k + 1).drop_last() =~= ps.take(k as int));
        assert(ps.take(k + 1).last() == params@[k as int].name@);
        match field_index(payload, params[k].name.as_str()) {
            Some(i) => {
                proof {
                    lemma_fields_view_index(payload@);
                }
                let v = copy_value(&payload[i].1);
                set_field(&mut holder, params[k].name.as_str(), v);
            },
            None => {},
        }
        k = k + 1;
    }
    assert(ps.take(k as int) =~= ps);
    holder.fields
}

/// Running the handler of `event` on `payload`: `Err` with `unknown event:
/// <event>` when the program has none, else the run of its body from the
/// start, its parameters bound from the payload.
pub fn run_handler(cx: &Ctx, event: &str, payload: &Vec<(String, Value)>, depth: u64) -> (r: Result<RunOutcome, String>)
    ensures
        match last_named(cx@.handlers, event@) {
            Some(h) => r matches Ok(o) && o@ == run_spec(
                h.1,
                handler_vars(h.0, crate::value::fields_view(payload@)),
                cx@,
                depth as nat,
            ),
            None => r matches Err(m) && m@ == "unknown event: "@ + event@,
        },
{
    match find_handler(cx, event) {
        Some(k) => {
            let vars = bind_payload(&cx.handlers[k].1.params, payload);
            Ok(run_body(&cx.handlers[k].1.body, vars, cx, depth))
        },
        None => {
            let mut m = String::from_str("unknown event: ");
            m.append(event);
            Err(m)
        },
    }
}


// ───────────────────────────── the context of a program ─────────────────────────────

/// The memories of `items` with their invariants, namespaces included, in
/// order.
pub open spec fn invariant_pairs(items: Seq<crate::ast::ItemV>) -> Seq<(Seq<char>, Seq<ExprV>)>
    decreases items,
{
    if items.len() == 0 {
        Seq::empty()
    } else {
        invariant_pairs(items.subrange(0, items.len() - 1)) + item_invariants(items[items.len() - 1])
    }
}

pub open spec fn item_invariants(it: crate::ast::ItemV) -> Seq<(Seq<char>, Seq<ExprV>)>
    decreases it,
{
    match it {
        crate::ast::ItemV::Memory { name, invariants, .. } => seq![(name, invariants)],
        crate::ast::ItemV::Namespace { items, .. } => invariant_pairs(items),
        _ => Seq::empty(),
    }
}

fn copy_expr_list(v: &Vec<Expr>) -> (r: Vec<Expr>)
    ensures
        exprs_view(r@) == exprs_view(v@),
{
    proof {
        lemma_exprs_view_index(v@);
    }
    let mut r: Vec<Expr> = Vec::new();
    let mut i: usize = 0;
    assert(exprs_view(r@) =~= exprs_view(v@).take(0));
    while i < v.len()
        invariant
            i <= v.len(),
            exprs_view(v@).len() == v@.len(),
            forall|j: int| 0 <= j < v@.len() ==> exprs_view(v@)[j] == expr_view(#[trigger] v@[j]),
            exprs_view(r@) == exprs_view(v@).take(i as int),
        decreases v.len() - i,
    {
        let x = crate::ast_copy::copy_expr(&v[i]);
        let ghost before = r@;
        r.push(x);
        proof {
            assert(r@.subrange(0, before.len() as int) =~= before);
            assert(exprs_view(r@) == exprs_view(before).push(expr_view(x)));
        }
        assert(exprs_view(r@) =~= exprs_view(v@).take(i + 1));
        i = i + 1;
    }
    assert(exprs_view(v@).take(i as int) =~= exprs_view(v@));
    r
}

fn add_invariants(items: &Vec<crate::ast::Item>, out: &mut Vec<(String, Vec<Expr>)>)
    ensures
        final(out)@.map_values(|p: (String, Vec<Expr>)| (p.0@, exprs_view(p.1@))) == old(out)@.map_values(
            |p: (String, Vec<Expr>)| (p.0@, exprs_view(p.1@)),
        ) + invariant_pairs(crate::ast::items_view(items@)),
    decreases items@,
{
    let ghost o0 = old(out)@.map_values(|p: (String, Vec<Expr>)| (p.0@, exprs_view(p.1@)));
    let mut i: usize = 0;
    assert(items@.take(0) =~= Seq::<crate::ast::Item>::empty());
    assert(crate::ast::items_view(items@.take(0)) =~= Seq::<crate::ast::ItemV>::empty());
    assert(o0 + invariant_pairs(crate::ast::items_view(items@.take(0))) =~= o0);
    while i < items.len()
        invariant
            i <= items.len(),
            o0 == old(out)@.map_values(|p: (String, Vec<Expr>)| (p.0@, exprs_view(p.1@))),
            out@.map_values(|p: (String, Vec<Expr>)| (p.0@, exprs_view(p.1@))) == o0 + invariant_pairs(
                crate::ast::items_view(items@.take(i as int)),
            ),
        decreases items.len() - i,
    {
        let ghost x0 = crate::ast::items_view(items@.take(i as int));
        let ghost y = crate::ast::item_view(items@[i as int]);
        proof {
            crate::ast::lemma_items_view_take(items@, i as int);
            assert(x0.push(y).subrange(0, x0.len() as int) =~= x0);
        }
        let ghost before = out@.map_values(|p: (String, Vec<Expr>)| (p.0@, exprs_view(p.1@)));
        match &items[i] {
            crate::ast::Item::Memory(mdef) => {
                let x = (mdef.name.clone(), copy_expr_list(&mdef.invariants));
                out.push(x);
                assert(out@.map_values(|p: (String, Vec<Expr>)| (p.0@, exprs_view(p.1@))) =~= before + seq![
                    (mdef.name@, exprs_view(mdef.invariants@)),
                ]);
            },
            crate::ast::Item::Namespace(ns) => {
                add_invariants(&ns.items, out);
            },
            _ => {
                assert(before + Seq::<(Seq<char>, Seq<ExprV>)>::empty() =~= before);
            },
        }
        assert(o0 + invariant_pairs(x0.push(y)) =~= o0 + invariant_pairs(x0) + item_invariants(y));
        i = i + 1;
    }
    assert(items@.take(i as int) =~= items@);
}

/// What a run of a program reads: the handlers and update rules of its
/// definitions `d` (see [`crate::definitions::collect_definitions`]), the
/// invariants of its memories (see [`invariant_pairs`]), and no replies yet.
pub fn program_context(items: &Vec<crate::ast::Item>, d: crate::definitions::Definitions) -> (r: Ctx)
    ensures
        r@.invariants == invariant_pairs(crate::ast::items_view(items@)),
        r@.replies.len() == 0,
        r.handlers@ == d.handlers@,
        r.updates@ == d.updates@,
{
    let mut inv: Vec<(String, Vec<Expr>)> = Vec::new();
    assert(inv@.map_values(|p: (String, Vec<Expr>)| (p.0@, exprs_view(p.1@))) =~= Seq::empty());
    add_invariants(items, &mut inv);
    assert(Seq::<(Seq<char>, Seq<ExprV>)>::empty() + invariant_pairs(crate::ast::items_view(items@)) =~= invariant_pairs(crate::ast::items_view(items@)));
    let replies: Vec<Reply> = Vec::new();
    let r = Ctx { handlers: d.handlers, updates: d.updates, invariants: inv, replies };
    assert(r@.replies =~= Seq::empty());
    r
}


// ───────────────────────────── the replay law ─────────────────────────────

/// A run stops to ask for outside work only when it has used every reply,
/// and it never uses more replies than there are.
pub open spec fn replay_ok(used: int, need: bool, cx: CtxV) -> bool {
    &&& 0 <= used <= cx.replies.len()
    &&& need ==> used == cx.replies.len()
}

pub open spec fn fits(st: MachineV, cx: CtxV) -> bool {
    0 <= st.used <= cx.replies.len()
}

proof fn lemma_answer(req: RequestV, st: MachineV, cx: CtxV)
    requires
        fits(st, cx),
    ensures
        replay_ok(answer(req, st, cx).1.used, answer(req, st, cx).0 is Need, cx),
{
}

proof fn lemma_store_list(a: Seq<ValueV>, j: int, st: MachineV, cx: CtxV)
    requires
        fits(st, cx),
    ensures
        replay_ok(store_list(a, j, st, cx).1.used, store_list(a, j, st, cx).0 is Need, cx),
    decreases a.len() - j,
{
    if 0 <= j < a.len() {
        match a[j] {
            ValueV::Record(r) => {
                let (x, s1) = answer(RequestV::Store(r), st, cx);
                lemma_answer(RequestV::Store(r), st, cx);
                if x is Val {
                    lemma_store_list(a, j + 1, s1, cx);
                }
            },
            _ => lemma_store_list(a, j + 1, st, cx),
        }
    }
}

proof fn lemma_store_all(vals: Seq<ValueV>, i: int, st: MachineV, cx: CtxV)
    requires
        fits(st, cx),
    ensures
        replay_ok(store_all(vals, i, st, cx).1.used, store_all(vals, i, st, cx).0 is Need, cx),
    decreases vals.len() - i,
{
    if 0 <= i < vals.len() {
        match vals[i] {
            ValueV::Record(r) => {
                let (x, s1) = answer(RequestV::Store(r), st, cx);
                lemma_answer(RequestV::Store(r), st, cx);
                if x is Val {
                    lemma_store_all(vals, i + 1, s1, cx);
                }
            },
            ValueV::Array(a) => {
                let (x, s1) = store_list(a, 0, st, cx);
                lemma_store_list(a, 0, st, cx);
                if x is Val {
                    lemma_store_all(vals, i + 1, s1, cx);
                }
            },
            _ => lemma_store_all(vals, i + 1, st, cx),
        }
    }
}

proof fn lemma_store_as_sub(name: Seq<char>, sub: Seq<ValueV>, j: int, acc: Seq<ValueV>, st: MachineV, cx: CtxV)
    requires
        fits(st, cx),
    ensures
        replay_ok(
            store_as_sub(name, sub, j, acc, st, cx).1.used,
            store_as_sub(name, sub, j, acc, st, cx).0 is Need,
            cx,
        ),
    decreases sub.len() - j,
{
    if 0 <= j < sub.len() {
        match sub[j] {
            ValueV::Record(r) => {
                let r2 = RecordV { memory: name, ..r };
                let (x, s1) = answer(RequestV::Store(r2), st, cx);
                lemma_answer(RequestV::Store(r2), st, cx);
                if x is Val {
                    lemma_store_as_sub(name, sub, j + 1, acc.push(ValueV::Record(r2)), s1, cx);
                }
            },
            _ => lemma_store_as_sub(name, sub, j + 1, acc, st, cx),
        }
    }
}

proof fn lemma_store_as_items(name: Seq<char>, xs: Seq<ValueV>, i: int, acc: Seq<ValueV>, st: MachineV, cx: CtxV)
    requires
        fits(st, cx),
    ensures
        replay_ok(
            store_as_items(name, xs, i, acc, st, cx).1.used,
            store_as_items(name, xs, i, acc, st, cx).0 is Need,
            cx,
        ),
    decreases xs.len() - i,
{
    if 0 <= i < xs.len() {
        match xs[i] {
            ValueV::Record(r) => {
                let r2 = RecordV { memory: name, ..r };
                let (x, s1) = answer(RequestV::Store(r2), st, cx);
                lemma_answer(RequestV::Store(r2), st, cx);
                if x is Val {
                    lemma_store_as_items(name, xs, i + 1, acc.push(ValueV::Record(r2)), s1, cx);
                }
            },
            ValueV::Array(sub) => {
                let (x, s1) = store_as_sub(name, sub, 0, acc, st, cx);
                lemma_store_as_sub(name, sub, 0, acc, st, cx);
                match x {
                    EvalV::Val(ValueV::Array(acc2)) => lemma_store_as_items(name, xs, i + 1, acc2, s1, cx),
                    _ => {},
                }
            },
            other => lemma_store_as_items(name, xs, i + 1, acc.push(other), st, cx),
        }
    }
}

proof fn lemma_delete_items(xs: Seq<ValueV>, i: int, st: MachineV, cx: CtxV)
    requires
        fits(st, cx),
    ensures
        replay_ok(delete_items(xs, i, st, cx).1.used, delete_items(xs, i, st, cx).0 is Need, cx),
    decreases xs.len() - i,
{
    if 0 <= i < xs.len() {
        match xs[i] {
            ValueV::Record(r) => {
                let q = RequestV::Delete { memory: r.memory, id: r.id };
                let (x, s1) = answer(q, st, cx);
                lemma_answer(q, st, cx);
                if x is Val {
                    lemma_delete_items(xs, i + 1, s1, cx);
                }
            },
            _ => lemma_delete_items(xs, i + 1, st, cx),
        }
    }
}

proof fn lemma_builtin_with(name: Seq<char>, vals: Seq<ValueV>, st: MachineV, cx: CtxV)
    requires
        fits(st, cx),
    ensures
        replay_ok(builtin_with(name, vals, st, cx).1.used, builtin_with(name, vals, st, cx).0 is Need, cx),
{
    lemma_store_all(vals, 0, st, cx);
    lemma_answer(model_request(name, vals), st, cx);
}

proof fn lemma_scopes_keep_used(st: MachineV, n: Seq<char>, v: ValueV, fs: Seq<(Seq<char>, ValueV)>)
    ensures
        assign(st, n, v).used == st.used,
        push_scope(st).used == st.used,
        pop_scope(st).used == st.used,
        bind_all(st, fs).used == st.used,
    decreases fs.len(),
{
    if fs.len() > 0 {
        lemma_scopes_keep_used(st, n, v, fs.drop_last());
        lemma_scopes_keep_used(bind_all(st, fs.drop_last()), fs.last().0, fs.last().1, Seq::empty());
    }
}

proof fn lemma_bind_params_used(st: MachineV, params: Seq<Seq<char>>, vals: Seq<ValueV>, k: int)
    ensures
        bind_params(st, params, vals, k).used == st.used,
    decreases params.len() - k,
{
    if 0 <= k < params.len() && k + 1 < vals.len() {
        lemma_scopes_keep_used(st, params[k], vals[k + 1], Seq::empty());
        lemma_bind_params_used(assign(st, params[k], vals[k + 1]), params, vals, k + 1);
    }
}


pub open spec fn evals_need(r: EvalsV) -> bool {
    r matches EvalsV::Stop(EvalV::Need(_))
}

proof fn lemma_ev(f: nat, e: ExprV, st: MachineV, cx: CtxV)
    requires
        fits(st, cx),
    ensures
        replay_ok(ev(f, e, st, cx).1.used, ev(f, e, st, cx).0 is Need, cx),
    decreases f, 0int,
{
    if f > 0 {
        let g = (f - 1) as nat;
        match e {
            ExprV::FieldAccess { object, .. } => lemma_ev(g, *object, st, cx),
            ExprV::OptionalChain { object, .. } => lemma_ev(g, *object, st, cx),
            ExprV::IndexAccess { object, index } => {
                let (r1, s1) = ev(g, *object, st, cx);
                lemma_ev(g, *object, st, cx);
                if r1 is Val {
                    lemma_ev(g, *index, s1, cx);
                }
            },
            ExprV::Binary { left, op, right } => {
                let (r1, s1) = ev(g, *left, st, cx);
                lemma_ev(g, *left, st, cx);
                if r1 is Val {
                    let (r2, s2) = ev(g, *right, s1, cx);
                    lemma_ev(g, *right, s1, cx);
                    if r2 is Val {
                        lemma_answer(RequestV::Float { left: r1->Val_0, op, right: r2->Val_0 }, s2, cx);
                    }
                }
            },
            ExprV::Unary { operand, .. } => lemma_ev(g, *operand, st, cx),
            ExprV::Call { func, args } => match *func {
                ExprV::Ident(name) => {
                    let (r, s1) = ev_args(g, args, 0, Seq::empty(), st, cx);
                    lemma_ev_args(g, args, 0, Seq::empty(), st, cx);
                    if r is Vals {
                        lemma_call(g, name, r->Vals_0, args, s1, cx);
                    }
                },
                _ => {},
            },
            ExprV::Pipe { left, right } => {
                let (r, s1) = ev(g, *left, st, cx);
                lemma_ev(g, *left, st, cx);
                if r is Val {
                    lemma_piped(g, *right, r->Val_0, s1, cx);
                }
            },
            ExprV::StructInit { name, fields } => {
                let (r, s1) = answer(RequestV::NewId, st, cx);
                lemma_answer(RequestV::NewId, st, cx);
                match r {
                    EvalV::Val(ValueV::Str(id)) => lemma_init_fields(
                        g,
                        fields,
                        0,
                        RecordV { memory: name, id, fields: Seq::empty() },
                        s1,
                        cx,
                    ),
                    _ => {},
                }
            },
            ExprV::Array(es) => lemma_ev_exprs(g, es, 0, Seq::empty(), st, cx),
            ExprV::InlineQuery(q) => lemma_answer(RequestV::Query { body: *q, scopes: st.scopes }, st, cx),
            ExprV::Alias { expr, .. } => lemma_ev(g, *expr, st, cx),
            _ => {},
        }
    }
}

proof fn lemma_ev_args(f: nat, args: Seq<CallArgV>, i: int, acc: Seq<ValueV>, st: MachineV, cx: CtxV)
    requires
        fits(st, cx),
    ensures
        replay_ok(ev_args(f, args, i, acc, st, cx).1.used, evals_need(ev_args(f, args, i, acc, st, cx).0), cx),
    decreases f, args.len() - i,
{
    if 0 <= i < args.len() {
        let (r, s1) = ev(f, args[i].value, st, cx);
        lemma_ev(f, args[i].value, st, cx);
        if r is Val {
            lemma_ev_args(f, args, i + 1, acc.push(r->Val_0), s1, cx);
        }
    }
}

proof fn lemma_ev_exprs(f: nat, es: Seq<ExprV>, i: int, acc: Seq<ValueV>, st: MachineV, cx: CtxV)
    requires
        fits(st, cx),
    ensures
        replay_ok(ev_exprs(f, es, i, acc, st, cx).1.used, evals_need(ev_exprs(f, es, i, acc, st, cx).0), cx),
    decreases f, es.len() - i,
{
    if 0 <= i < es.len() {
        let (r, s1) = ev(f, es[i], st, cx);
        lemma_ev(f, es[i], st, cx);
        if r is Val {
            lemma_ev_exprs(f, es, i + 1, acc.push(r->Val_0), s1, cx);
        }
    }
}

proof fn lemma_init_fields(
    f: nat,
    fields: Seq<crate::ast::FieldInitV>,
    i: int,
    rec: RecordV,
    st: MachineV,
    cx: CtxV,
)
    requires
        fits(st, cx),
    ensures
        replay_ok(init_fields(f, fields, i, rec, st, cx).1.used, init_fields(f, fields, i, rec, st, cx).0 is Need, cx),
    decreases f, fields.len() - i,
{
    if 0 <= i < fields.len() {
        let (r, s1) = ev(f, fields[i].value, st, cx);
        lemma_ev(f, fields[i].value, st, cx);
        if r is Val {
            lemma_init_fields(f, fields, i + 1, with_field(rec, fields[i].name, r->Val_0), s1, cx);
        }
    }
}

proof fn lemma_call(f: nat, name: Seq<char>, vals: Seq<ValueV>, args: Seq<CallArgV>, st: MachineV, cx: CtxV)
    requires
        fits(st, cx),
    ensures
        replay_ok(call(f, name, vals, args, st, cx).1.used, call(f, name, vals, args, st, cx).0 is Need, cx),
    decreases f, 0int,
{
    if f > 0 {
        let g = (f - 1) as nat;
        lemma_answer(RequestV::Now, st, cx);
        lemma_answer(model_request(name, vals), st, cx);
        lemma_answer(RequestV::Call { name, args: vals }, st, cx);
        if name == "store"@ {
            if vals.len() > 0 && vals[0] is Record {
                let rec = vals[0]->Record_0;
                let invs = match last_named(cx.invariants, rec.memory) {
                    Some(x) => x,
                    None => Seq::empty(),
                };
                let (r, s1) = check_invs(g, rec, invs, 0, st, cx);
                lemma_check_invs(g, rec, invs, 0, st, cx);
                if r is Val {
                    lemma_store_checked(g, rec, s1, cx);
                }
            }
        } else if name == "delete"@ {
            if vals.len() > 0 && vals[0] is Record {
                let rec = vals[0]->Record_0;
                lemma_answer(RequestV::Delete { memory: rec.memory, id: rec.id }, st, cx);
            } else {
                match (lookup(st.scopes, "_update_target"@), lookup(st.scopes, "id"@)) {
                    (ValueV::Str(t), ValueV::Str(i)) => lemma_answer(RequestV::Delete { memory: t, id: i }, st, cx),
                    _ => {},
                }
            }
        } else if name == "archive"@ {
            match (lookup(st.scopes, "_update_target"@), lookup(st.scopes, "id"@)) {
                (ValueV::Str(t), ValueV::Str(i)) => {
                    let (r, s1) = answer(RequestV::Get { memory: t, id: i }, st, cx);
                    lemma_answer(RequestV::Get { memory: t, id: i }, st, cx);
                    match r {
                        EvalV::Val(ValueV::Record(rec)) => lemma_answer(
                            RequestV::Store(with_field(rec, "_archived"@, ValueV::Bool(true))),
                            s1,
                            cx,
                        ),
                        _ => {},
                    }
                },
                _ => {},
            }
        } else if name == "supersede"@ {
            if vals.len() > 1 && vals[0] is Record && vals[1] is Record {
                let old = vals[0]->Record_0;
                let new = vals[1]->Record_0;
                let (r, s1) = answer(RequestV::Now, st, cx);
                if r is Val {
                    let t = r->Val_0;
                    let old2 = with_field(with_field(old, "superseded_by"@, ValueV::Str(new.id)), "valid_until"@, t);
                    let (r2, s2) = answer(RequestV::Store(old2), s1, cx);
                    lemma_answer(RequestV::Store(old2), s1, cx);
                    if r2 is Val {
                        lemma_answer(RequestV::Store(new), s2, cx);
                    }
                }
            }
        } else if name == "min"@ || name == "max"@ {
        } else if name == "semantic_match"@ {
            if vals.len() > 1 && vals[0] is Str && vals[1] is Str {
                lemma_answer(
                    RequestV::Similar { a: vals[0]->Str_0, b: vals[1]->Str_0, threshold: threshold_of(args, 0) },
                    st,
                    cx,
                );
            }
        } else if name == "emit"@ {
            if vals.len() > 0 && vals[0] is Str {
                match last_named(cx.handlers, vals[0]->Str_0) {
                    Some(h) => {
                        let s0 = bind_params(push_scope(st), h.0, vals, 0);
                        lemma_scopes_keep_used(st, Seq::empty(), ValueV::Null, Seq::empty());
                        lemma_bind_params_used(push_scope(st), h.0, vals, 0);
                        let (r, s1) = stmts(g, h.1, 0, s0, cx);
                        lemma_stmts(g, h.1, 0, s0, cx);
                        lemma_scopes_keep_used(s1, Seq::empty(), ValueV::Null, Seq::empty());
                    },
                    None => {},
                }
            }
        }
    }
}

proof fn lemma_check_invs(f: nat, rec: RecordV, invs: Seq<ExprV>, i: int, st: MachineV, cx: CtxV)
    requires
        fits(st, cx),
    ensures
        replay_ok(check_invs(f, rec, invs, i, st, cx).1.used, check_invs(f, rec, invs, i, st, cx).0 is Need, cx),
    decreases f, invs.len() - i,
{
    if 0 <= i < invs.len() {
        let s0 = bind_all(push_scope(st), rec.fields);
        lemma_scopes_keep_used(st, Seq::empty(), ValueV::Null, Seq::empty());
        lemma_scopes_keep_used(push_scope(st), Seq::empty(), ValueV::Null, rec.fields);
        let (r, s1) = ev(f, invs[i], s0, cx);
        lemma_ev(f, invs[i], s0, cx);
        lemma_scopes_keep_used(s1, Seq::empty(), ValueV::Null, Seq::empty());
        if r is Val && truthy(r->Val_0) {
            lemma_check_invs(f, rec, invs, i + 1, pop_scope(s1), cx);
        }
    }
}

proof fn lemma_store_checked(f: nat, rec: RecordV, st: MachineV, cx: CtxV)
    requires
        fits(st, cx),
    ensures
        replay_ok(store_checked(f, rec, st, cx).1.used, store_checked(f, rec, st, cx).0 is Need, cx),
    decreases f, 0int,
{
    if f > 0 {
        let g = (f - 1) as nat;
        lemma_answer(RequestV::Store(rec), st, cx);
        if 0 <= st.used < cx.replies.len() {
            let s1 = MachineV { used: st.used + 1, ..st };
            lemma_answer(RequestV::Store(rec), s1, cx);
            match last_named(cx.updates, rec.memory) {
                Some(rules) => match cx.replies[st.used] {
                    ReplyV::Value(ValueV::Array(olds)) => lemma_on_conflicts(g, rec, rules, olds, 0, s1, cx),
                    _ => {},
                },
                None => {},
            }
        }
    }
}

proof fn lemma_on_conflicts(
    f: nat,
    rec: RecordV,
    rules: Seq<UpdateRuleV>,
    olds: Seq<ValueV>,
    i: int,
    st: MachineV,
    cx: CtxV,
)
    requires
        fits(st, cx),
    ensures
        replay_ok(
            on_conflicts(f, rec, rules, olds, i, st, cx).1.used,
            on_conflicts(f, rec, rules, olds, i, st, cx).0 is Need,
            cx,
        ),
    decreases f, olds.len() - i,
{
    if 0 <= i < olds.len() {
        match olds[i] {
            ValueV::Record(old) => if old.id != rec.id {
                if f > 0 {
                    let (r, s1) = conflict_rules((f - 1) as nat, rec, old.id, rules, 0, st, cx);
                    lemma_conflict_rules((f - 1) as nat, rec, old.id, rules, 0, st, cx);
                    if r is Val {
                        lemma_on_conflicts(f, rec, rules, olds, i + 1, s1, cx);
                    }
                }
            } else {
                lemma_on_conflicts(f, rec, rules, olds, i + 1, st, cx);
            },
            _ => lemma_on_conflicts(f, rec, rules, olds, i + 1, st, cx),
        }
    }
}

proof fn lemma_conflict_rules(
    f: nat,
    rec: RecordV,
    old_id: Seq<char>,
    rules: Seq<UpdateRuleV>,
    j: int,
    st: MachineV,
    cx: CtxV,
)
    requires
        fits(st, cx),
    ensures
        replay_ok(
            conflict_rules(f, rec, old_id, rules, j, st, cx).1.used,
            conflict_rules(f, rec, old_id, rules, j, st, cx).0 is Need,
            cx,
        ),
    decreases f, rules.len() - j,
{
    if 0 <= j < rules.len() {
        match rules[j] {
            UpdateRuleV::OnConflict { old_name, new_name, body } => {
                let q = RequestV::Get { memory: rec.memory, id: old_id };
                let (g, s1) = answer(q, st, cx);
                lemma_answer(q, st, cx);
                match g {
                    EvalV::Val(ValueV::Record(old)) => {
                        let s_a = assign(push_scope(s1), "_update_target"@, ValueV::Str(rec.memory));
                        let s_b = assign(s_a, old_name, ValueV::Record(old));
                        let s0 = assign(s_b, new_name, ValueV::Record(rec));
                        lemma_scopes_keep_used(s1, "_update_target"@, ValueV::Str(rec.memory), Seq::empty());
                        lemma_scopes_keep_used(push_scope(s1), "_update_target"@, ValueV::Str(rec.memory), Seq::empty());
                        lemma_scopes_keep_used(s_a, old_name, ValueV::Record(old), Seq::empty());
                        lemma_scopes_keep_used(s_b, new_name, ValueV::Record(rec), Seq::empty());
                        if f > 0 {
                            let (r, s2) = stmts((f - 1) as nat, body, 0, s0, cx);
                            lemma_stmts((f - 1) as nat, body, 0, s0, cx);
                            lemma_scopes_keep_used(s2, Seq::empty(), ValueV::Null, Seq::empty());
                            if r is Next || r is Ret {
                                lemma_conflict_rules(f, rec, old_id, rules, j + 1, pop_scope(s2), cx);
                            }
                        }
                    },
                    EvalV::Val(_) => lemma_conflict_rules(f, rec, old_id, rules, j + 1, s1, cx),
                    _ => {},
                }
            },
            _ => lemma_conflict_rules(f, rec, old_id, rules, j + 1, st, cx),
        }
    }
}

proof fn lemma_piped(f: nat, right: ExprV, lv: ValueV, st: MachineV, cx: CtxV)
    requires
        fits(st, cx),
    ensures
        replay_ok(piped(f, right, lv, st, cx).1.used, piped(f, right, lv, st, cx).0 is Need, cx),
    decreases f, 0int,
{
    if f > 0 {
        let g = (f - 1) as nat;
        match right {
            ExprV::Call { func, args } => match *func {
                ExprV::Ident(name) => lemma_pipe_to(g, name, lv, args, st, cx),
                _ => {},
            },
            ExprV::Ident(name) => lemma_pipe_to(g, name, lv, Seq::empty(), st, cx),
            _ => {},
        }
    }
}

proof fn lemma_pipe_to(f: nat, name: Seq<char>, lv: ValueV, args: Seq<CallArgV>, st: MachineV, cx: CtxV)
    requires
        fits(st, cx),
    ensures
        replay_ok(pipe_to(f, name, lv, args, st, cx).1.used, pipe_to(f, name, lv, args, st, cx).0 is Need, cx),
    decreases f, 0int,
{
    if f > 0 {
        let g = (f - 1) as nat;
        if name == "group_by"@ {
        } else if name == "store_as"@ {
            match lv {
                ValueV::Array(xs) => lemma_store_as_items(
                    match first_ident(args) {
                        Some(n) => n,
                        None => Seq::empty(),
                    },
                    xs,
                    0,
                    Seq::empty(),
                    st,
                    cx,
                ),
                _ => {},
            }
        } else if name == "delete_originals"@ {
            match lv {
                ValueV::Array(xs) => lemma_delete_items(xs, 0, st, cx),
                _ => {},
            }
        } else if name == "map"@ || name == "filter"@ || name == "each"@ {
            match first_lambda(args, 0) {
                Some(k) => match lv {
                    ValueV::Array(xs) => {
                        let lam = args[k].value;
                        let param = if lam->Lambda_params.len() > 0 {
                            Some(lam->Lambda_params[0])
                        } else {
                            None
                        };
                        lemma_map_items(g, name, param, *lam->Lambda_body, xs, 0, Seq::empty(), st, cx);
                    },
                    _ => {},
                },
                None => {},
            }
        } else {
            let (r, s1) = ev_args(g, args, 0, seq![lv], st, cx);
            lemma_ev_args(g, args, 0, seq![lv], st, cx);
            if r is Vals {
                lemma_builtin_with(name, r->Vals_0, s1, cx);
            }
        }
    }
}

proof fn lemma_map_items(
    f: nat,
    mode: Seq<char>,
    param: Option<Seq<char>>,
    body: ExprV,
    xs: Seq<ValueV>,
    i: int,
    acc: Seq<ValueV>,
    st: MachineV,
    cx: CtxV,
)
    requires
        fits(st, cx),
    ensures
        replay_ok(
            map_items(f, mode, param, body, xs, i, acc, st, cx).1.used,
            map_items(f, mode, param, body, xs, i, acc, st, cx).0 is Need,
            cx,
        ),
    decreases f, xs.len() - i,
{
    if 0 <= i < xs.len() {
        let s0 = match param {
            Some(p) => assign(push_scope(st), p, xs[i]),
            None => push_scope(st),
        };
        lemma_scopes_keep_used(st, Seq::empty(), ValueV::Null, Seq::empty());
        match param {
            Some(p) => lemma_scopes_keep_used(push_scope(st), p, xs[i], Seq::empty()),
            None => {},
        }
        let (r, s1) = ev(f, body, s0, cx);
        lemma_ev(f, body, s0, cx);
        lemma_scopes_keep_used(s1, Seq::empty(), ValueV::Null, Seq::empty());
        if r is Val {
            let v = r->Val_0;
            let acc2 = if mode == "map"@ {
                acc.push(v)
            } else if mode == "filter"@ && truthy(v) {
                acc.push(xs[i])
            } else {
                acc
            };
            lemma_map_items(f, mode, param, body, xs, i + 1, acc2, pop_scope(s1), cx);
        }
    }
}

proof fn lemma_stmts(f: nat, ss: Seq<StmtV>, i: int, st: MachineV, cx: CtxV)
    requires
        fits(st, cx),
    ensures
        replay_ok(stmts(f, ss, i, st, cx).1.used, stmts(f, ss, i, st, cx).0 is Need, cx),
    decreases f, ss.len() - i,
{
    if 0 <= i < ss.len() {
        let (r, s1) = stmt(f, ss[i], st, cx);
        lemma_stmt(f, ss[i], st, cx);
        if r is Next {
            lemma_stmts(f, ss, i + 1, s1, cx);
        }
    }
}

proof fn lemma_block(f: nat, body: Seq<StmtV>, st: MachineV, cx: CtxV)
    requires
        fits(st, cx),
    ensures
        replay_ok(block(f, body, st, cx).1.used, block(f, body, st, cx).0 is Need, cx),
    decreases f, 0int,
{
    if f > 0 {
        lemma_scopes_keep_used(st, Seq::empty(), ValueV::Null, Seq::empty());
        let (r, s1) = stmts((f - 1) as nat, body, 0, push_scope(st), cx);
        lemma_stmts((f - 1) as nat, body, 0, push_scope(st), cx);
        lemma_scopes_keep_used(s1, Seq::empty(), ValueV::Null, Seq::empty());
    }
}

proof fn lemma_stmt(f: nat, s: StmtV, st: MachineV, cx: CtxV)
    requires
        fits(st, cx),
    ensures
        replay_ok(stmt(f, s, st, cx).1.used, stmt(f, s, st, cx).0 is Need, cx),
    decreases f, 0int,
{
    if f > 0 {
        let g = (f - 1) as nat;
        match s {
            StmtV::Let { name, value } => {
                let (r, s1) = ev(g, value, st, cx);
                lemma_ev(g, value, st, cx);
                if r is Val {
                    lemma_scopes_keep_used(s1, name, r->Val_0, Seq::empty());
                }
            },
            StmtV::Assign { target, value } => {
                let (r, s1) = ev(g, value, st, cx);
                lemma_ev(g, value, st, cx);
                if r is Val {
                    let v = r->Val_0;
                    match target {
                        ExprV::Ident(n) => lemma_scopes_keep_used(s1, n, v, Seq::empty()),
                        ExprV::FieldAccess { object, field } => match *object {
                            ExprV::Ident(o) => match lookup(s1.scopes, o) {
                                ValueV::Record(rec) => lemma_scopes_keep_used(
                                    s1,
                                    o,
                                    ValueV::Record(with_field(rec, field, v)),
                                    Seq::empty(),
                                ),
                                _ => {},
                            },
                            _ => {},
                        },
                        _ => {},
                    }
                }
            },
            StmtV::If { condition, then_body, else_body } => {
                let (r, s1) = ev(g, condition, st, cx);
                lemma_ev(g, condition, st, cx);
                if r is Val {
                    lemma_block(g, then_body, s1, cx);
                    match else_body {
                        Some(b) => lemma_block(g, b, s1, cx),
                        None => {},
                    }
                }
            },
            StmtV::For { var, iter, body } => {
                let (r, s1) = ev(g, iter, st, cx);
                lemma_ev(g, iter, st, cx);
                match r {
                    EvalV::Val(ValueV::Array(xs)) => lemma_for_items(g, var, body, xs, 0, s1, cx),
                    _ => {},
                }
            },
            StmtV::Return(o) => match o {
                Some(e) => lemma_ev(g, e, st, cx),
                None => {},
            },
            StmtV::Expr(e) => lemma_ev(g, e, st, cx),
        }
    }
}

proof fn lemma_for_items(
    f: nat,
    var: Seq<char>,
    body: Seq<StmtV>,
    xs: Seq<ValueV>,
    i: int,
    st: MachineV,
    cx: CtxV,
)
    requires
        fits(st, cx),
    ensures
        replay_ok(for_items(f, var, body, xs, i, st, cx).1.used, for_items(f, var, body, xs, i, st, cx).0 is Need, cx),
    decreases f, xs.len() - i,
{
    if 0 <= i < xs.len() && f > 0 {
        let s0 = assign(push_scope(st), var, xs[i]);
        lemma_scopes_keep_used(st, var, xs[i], Seq::empty());
        lemma_scopes_keep_used(push_scope(st), var, xs[i], Seq::empty());
        let (r, s1) = stmts((f - 1) as nat, body, 0, s0, cx);
        lemma_stmts((f - 1) as nat, body, 0, s0, cx);
        lemma_scopes_keep_used(s1, Seq::empty(), ValueV::Null, Seq::empty());
        if r is Next {
            lemma_for_items(f, var, body, xs, i + 1, pop_scope(s1), cx);
        }
    }
}

/// The law that running again with a reply rests on: a run from the start
/// that stops for outside work has used every reply so far, so the reply to
/// its request is the next one it will use; and no run uses more replies
/// than there are.
pub proof fn lemma_run_uses_replies_in_order(body: Seq<StmtV>, vars: Seq<(Seq<char>, ValueV)>, cx: CtxV, depth: nat)
    ensures
        ({
            let (r, s) = stmts(depth, body, 0, MachineV { scopes: seq![vars], used: 0 }, cx);
            &&& s.used <= cx.replies.len()
            &&& r is Need ==> s.used == cx.replies.len()
        }),
{
    lemma_stmts(depth, body, 0, MachineV { scopes: seq![vars], used: 0 }, cx);
}


// ───────────────────────────── update rules on a record ─────────────────────────────

/// The record after an update rule ran: each of its fields whose variable
/// now holds a value other than `null` takes that value (fields from `i`
/// on).
pub open spec fn updated_fields(
    fs: Seq<(Seq<char>, ValueV)>,
    i: int,
    scopes: Seq<Seq<(Seq<char>, ValueV)>>,
    acc: Seq<(Seq<char>, ValueV)>,
) -> Seq<(Seq<char>, ValueV)>
    decreases fs.len() - i,
{
    if 0 <= i < fs.len() {
        let v = lookup(scopes, fs[i].0);
        updated_fields(fs, i + 1, scopes, if v is Null { acc } else { put(acc, fs[i].0, v) })
    } else {
        acc
    }
}

/// The variables an update rule starts with for a record: `_update_target`
/// (the memory), the record's fields, then `id`.
pub open spec fn record_vars(target: Seq<char>, rec: RecordV) -> MachineV {
    let st0 = MachineV { scopes: seq![Seq::empty(), Seq::empty()], used: 0 };
    assign(bind_all(assign(st0, "_update_target"@, ValueV::Str(target)), rec.fields), "id"@, ValueV::Str(rec.id))
}

/// Running an `on_access` or `every` rule's body on a stored record of
/// memory `target`: the body runs in a scope with the record's variables,
/// then the record, with each field updated to its variable's value, is
/// stored.
pub open spec fn update_spec(target: Seq<char>, body: Seq<StmtV>, rec: RecordV, cx: CtxV, depth: nat) -> RunOutcomeV {
    let (r, s1) = stmts(depth, body, 0, record_vars(target, rec), cx);
    match r {
        FlowV::Next | FlowV::Ret(_) => {
            let rec2 = RecordV { fields: updated_fields(rec.fields, 0, s1.scopes, rec.fields), ..rec };
            match answer(RequestV::Store(rec2), s1, cx).0 {
                EvalV::Val(_) => RunOutcomeV::Done(None),
                EvalV::Need(q) => RunOutcomeV::Need(q),
                EvalV::Fail(m) => RunOutcomeV::Fail(m),
            }
        },
        FlowV::Need(q) => RunOutcomeV::Need(q),
        FlowV::Fail(m) => RunOutcomeV::Fail(m),
    }
}

/// Runs an update rule's body on a stored record (see [`update_spec`]).
pub fn run_update(target: &str, body: &Vec<Stmt>, rec: &Record, cx: &Ctx, depth: u64) -> (r: RunOutcome)
    ensures
        r@ == update_spec(target@, stmts_view(body@), rec@, cx@, depth as nat),
{
    let mut scopes: Vec<Vec<(String, Value)>> = Vec::new();
    scopes.push(Vec::new());
    scopes.push(Vec::new());
    let mut m = Machine { scopes, used: 0 };
    assert(m@.scopes =~= seq![Seq::<(Seq<char>, ValueV)>::empty(), Seq::<(Seq<char>, ValueV)>::empty()]);
    assign_var(&mut m, "_update_target", Value::Str(String::from_str(target)));
    bind_all_exec(&mut m, &rec.fields);
    assign_var(&mut m, "id", Value::Str(rec.id.clone()));
    match stmts_exec(depth, body, 0, &mut m, cx) {
        Flow::Next | Flow::Ret(_) => {
            let mut rec2 = copy_record(rec);
            let ghost sc = m@.scopes;
            proof {
                lemma_fields_view_index(rec.fields@);
            }
            let mut i: usize = 0;
            while i < rec.fields.len()
                invariant
                    i <= rec.fields.len(),
                    sc == m@.scopes,
                    crate::value::fields_view(rec.fields@).len() == rec.fields@.len(),
                    forall|j: int| 0 <= j < rec.fields@.len() ==> crate::value::fields_view(rec.fields@)[j]
                        == crate::value::field_view(#[trigger] rec.fields@[j]),
                    rec2.memory@ == rec.memory@,
                    rec2.id@ == rec.id@,
                    updated_fields(crate::value::fields_view(rec.fields@), 0, sc, crate::value::fields_view(rec.fields@))
                        == updated_fields(crate::value::fields_view(rec.fields@), i as int, sc, crate::value::fields_view(rec2.fields@)),
                decreases rec.fields.len() - i,
            {
                let v = lookup_var(&m, rec.fields[i].0.as_str());
                match v {
                    Value::Null => {},
                    _ => set_field(&mut rec2, rec.fields[i].0.as_str(), v),
                }
                i = i + 1;
            }
            match answer_exec(Request::Store(rec2), &mut m, cx) {
                Eval::Val(_) => RunOutcome::Done(None),
                Eval::Need(q) => RunOutcome::Need(q),
                Eval::Fail(e) => RunOutcome::Fail(e),
            }
        },
        Flow::Need(q) => RunOutcome::Need(q),
        Flow::Fail(e) => RunOutcome::Fail(e),
    }
}

// ───────────────────────────── laws of the builtins ─────────────────────────────

/// The builtins `min` and `max` on two integers (any further arguments are
/// ignored): `min` gives the one of them that is at most both, `max` the one
/// that is at least both; nothing is asked of the caller and the state is
/// left as it was.
pub proof fn lemma_min_max_of_integers(
    f: nat,
    name: Seq<char>,
    a: i64,
    b: i64,
    rest: Seq<ValueV>,
    args: Seq<CallArgV>,
    st: MachineV,
    cx: CtxV,
)
    requires
        f > 0,
        name == "min"@ || name == "max"@,
    ensures
        ({
            let (r, s) = call(f, name, seq![ValueV::Int(a), ValueV::Int(b)] + rest, args, st, cx);
            &&& s == st
            &&& r matches EvalV::Val(ValueV::Int(x))
            &&& x == a || x == b
            &&& name == "min"@ ==> x <= a && x <= b
            &&& name == "max"@ ==> x >= a && x >= b
        }),
{
    reveal_strlit("now");
    reveal_strlit("store");
    reveal_strlit("delete");
    reveal_strlit("archive");
    reveal_strlit("discard");
    reveal_strlit("map");
    reveal_strlit("filter");
    reveal_strlit("each");
    reveal_strlit("supersede");
    reveal_strlit("len");
    reveal_strlit("min");
    reveal_strlit("max");
    assert("min"@[0] != "now"@[0]);
    assert("min"@ != "now"@);
    assert("min"@.len() != "store"@.len());
    assert("min"@ != "store"@);
    assert("min"@.len() != "delete"@.len());
    assert("min"@ != "delete"@);
    assert("min"@.len() != "archive"@.len());
    assert("min"@ != "archive"@);
    assert("min"@.len() != "discard"@.len());
    assert("min"@ != "discard"@);
    assert("min"@[1] != "map"@[1]);
    assert("min"@ != "map"@);
    assert("min"@.len() != "filter"@.len());
    assert("min"@ != "filter"@);
    assert("min"@.len() != "each"@.len());
    assert("min"@ != "each"@);
    assert("min"@.len() != "supersede"@.len());
    assert("min"@ != "supersede"@);
    assert("min"@[0] != "len"@[0]);
    assert("min"@ != "len"@);
    assert("max"@[0] != "now"@[0]);
    assert("max"@ != "now"@);
    assert("max"@.len() != "store"@.len());
    assert("max"@ != "store"@);
    assert("max"@.len() != "delete"@.len());
    assert("max"@ != "delete"@);
    assert("max"@.len() != "archive"@.len());
    assert("max"@ != "archive"@);
    assert("max"@.len() != "discard"@.len());
    assert("max"@ != "discard"@);
    assert("max"@[2] != "map"@[2]);
    assert("max"@ != "map"@);
    assert("max"@.len() != "filter"@.len());
    assert("max"@ != "filter"@);
    assert("max"@.len() != "each"@.len());
    assert("max"@ != "each"@);
    assert("max"@.len() != "supersede"@.len());
    assert("max"@ != "supersede"@);
    assert("max"@[0] != "len"@[0]);
    assert("max"@ != "len"@);
    assert("max"@[1] != "min"@[1]);
    assert("max"@ != "min"@);
    let vals = seq![ValueV::Int(a), ValueV::Int(b)] + rest;
    assert(vals[0] == ValueV::Int(a) && vals[1] == ValueV::Int(b) && vals.len() > 1);
}

/// Negation and `not`: `-n` on an integer is its additive inverse (which,
/// added to `n`, gives zero; the least integer has none and fails), negating
/// twice gives the integer back, and `not` on a boolean is its opposite.
pub proof fn lemma_unary_operators(n: i64, b: bool)
    ensures
        n != i64::MIN ==> (unary(UnaryOp::Neg, ValueV::Int(n)) matches EvalV::Val(ValueV::Int(m)) && m + n == 0),
        n != i64::MIN ==> (unary(UnaryOp::Neg, ValueV::Int(n)) matches EvalV::Val(ValueV::Int(m))
            && unary(UnaryOp::Neg, ValueV::Int(m)) == EvalV::Val(ValueV::Int(n))),
        n == i64::MIN ==> unary(UnaryOp::Neg, ValueV::Int(n)) is Fail,
        unary(UnaryOp::Not, ValueV::Bool(b)) == EvalV::Val(ValueV::Bool(!b)),
{
}

/// The builtin `len` of a list (any further arguments are ignored) is the
/// number of its items.
pub proof fn lemma_len_of_list(f: nat, xs: Seq<ValueV>, rest: Seq<ValueV>, args: Seq<CallArgV>, st: MachineV, cx: CtxV)
    requires
        f > 0,
        xs.len() <= i64::MAX,
    ensures
        call(f, "len"@, seq![ValueV::Array(xs)] + rest, args, st, cx) == (EvalV::Val(ValueV::Int(xs.len() as i64)), st),
{
    reveal_strlit("now");
    reveal_strlit("store");
    reveal_strlit("delete");
    reveal_strlit("archive");
    reveal_strlit("discard");
    reveal_strlit("map");
    reveal_strlit("filter");
    reveal_strlit("each");
    reveal_strlit("supersede");
    reveal_strlit("len");
    assert("len"@[0] != "now"@[0]);
    assert("len"@ != "now"@);
    assert("len"@.len() != "store"@.len());
    assert("len"@ != "store"@);
    assert("len"@.len() != "delete"@.len());
    assert("len"@ != "delete"@);
    assert("len"@.len() != "archive"@.len());
    assert("len"@ != "archive"@);
    assert("len"@.len() != "discard"@.len());
    assert("len"@ != "discard"@);
    assert("len"@[0] != "map"@[0]);
    assert("len"@ != "map"@);
    assert("len"@.len() != "filter"@.len());
    assert("len"@ != "filter"@);
    assert("len"@.len() != "each"@.len());
    assert("len"@ != "each"@);
    assert("len"@.len() != "supersede"@.len());
    assert("len"@ != "supersede"@);
    let vals = seq![ValueV::Array(xs)] + rest;
    assert(vals[0] == ValueV::Array(xs) && vals.len() > 0);
}

} // verus!
