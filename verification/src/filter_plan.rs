//! What the `where` clause of a query asks of storage.
//!
//! A `where` clause is read as a filter: comparisons of a field with a value,
//! alternatives, and calls that hand the query to a graph match, a Cypher
//! query, a semantic search, a regular expression or raw SQL. Reading the
//! clause decides which parts make up the filter; the values in them are
//! expressions still to be evaluated by whoever runs the query. A written-out
//! pattern is kept only when it is not empty and compiles as a regular
//! expression; [`keeps_regex`] makes the same decision for a pattern that an
//! expression evaluates to.
use vstd::prelude::*;
use crate::ast::{
    arg_view, args_view, expr_view, lemma_args_view_index, opt_expr_view, qbody_view, strs_view,
    BinOp, CallArg, CallArgV, Expr, ExprV, OrderByV, QueryBody, QueryBodyV, SortDir,
};
use crate::ast_copy::copy_strings;
use crate::interpreter::{cypher_param_names, cypher_scope_names};
use crate::storage::ConditionOp;
use crate::text::text_eq;

verus! {

/// A comparison of `field` with the value of `value`.
#[derive(Debug)]
pub struct ConditionPlan {
    pub field: String,
    pub op: ConditionOp,
    pub value: Expr,
}

pub struct ConditionPlanV {
    pub field: Seq<char>,
    pub op: ConditionOp,
    pub value: ExprV,
}

impl View for ConditionPlan {
    type V = ConditionPlanV;

    open spec fn view(&self) -> ConditionPlanV {
        ConditionPlanV { field: self.field@, op: self.op, value: expr_view(self.value) }
    }
}

/// Records within `hops` graph steps of the text that `input` evaluates to
/// (empty text when there is no input or it is not text).
#[derive(Debug)]
pub struct GraphMatchPlan {
    pub input: Option<Expr>,
    pub hops: usize,
}

pub struct GraphMatchPlanV {
    pub input: Option<ExprV>,
    pub hops: usize,
}

/// A Cypher query. Its parameters are the named arguments whose values are
/// text, in order (a later one replaces an earlier one), then each name of
/// `scope_names` not given so far whose variable in scope holds text.
#[derive(Debug)]
pub struct CypherPlan {
    pub query: String,
    pub named: Vec<(String, Expr)>,
    pub scope_names: Vec<String>,
}

pub struct CypherPlanV {
    pub query: Seq<char>,
    pub named: Seq<(Seq<char>, ExprV)>,
    pub scope_names: Seq<Seq<char>>,
}

/// A semantic search for the text that `input` evaluates to, keeping results
/// at least as similar as the number literal `threshold`: the one the call
/// names, else the literal `0.7`.
#[derive(Debug)]
pub struct SemanticPlan {
    pub input: Option<Expr>,
    pub threshold: Expr,
}

pub struct SemanticPlanV {
    pub input: Option<ExprV>,
    pub threshold: ExprV,
}

/// The similarity a semantic search keeps without a `threshold` argument.
pub open spec fn default_threshold() -> ExprV {
    ExprV::Float("0.7"@)
}

/// Whether `regex::Regex::new` accepts `pattern`, with the crate's default
/// limits. The crate's syntax decides it, from the pattern alone.
pub uninterp spec fn regex_compiles(pattern: Seq<char>) -> bool;

/// Calls `regex::Regex::new` on `pattern` and tells whether it returned `Ok`.
/// The contract claims only that the answer is `regex_compiles` of the
/// pattern; which patterns compile is left to the regex crate.
#[verifier::external_body]
fn compiles_as_regex(pattern: &str) -> (r: bool)
    ensures
        r == regex_compiles(pattern@),
{
    regex::Regex::new(pattern).is_ok()
}

/// A pattern is kept for filtering when it is not empty and compiles.
pub fn pattern_kept(pattern: &str, compiles: bool) -> (r: bool)
    ensures
        r == (pattern@.len() > 0 && compiles),
{
    pattern.unicode_len() > 0 && compiles
}

/// Whether a regular-expression filter with `pattern` is kept: the pattern
/// is not empty and compiles.
pub fn keeps_regex(pattern: &str) -> (r: bool)
    ensures
        r == (pattern@.len() > 0 && regex_compiles(pattern@)),
{
    if pattern.unicode_len() == 0 {
        return false;
    }
    let compiles = compiles_as_regex(pattern);
    pattern_kept(pattern, compiles)
}

/// The pattern of a regular-expression filter: written out, or the text that
/// an expression evaluates to.
#[derive(Debug)]
pub enum Pattern {
    Literal(String),
    Evaluated(Expr),
}

pub enum PatternV {
    Literal(Seq<char>),
    Evaluated(ExprV),
}

/// Records whose text field `field` matches `pattern`.
#[derive(Debug)]
pub struct RegexPlan {
    pub field: String,
    pub pattern: Pattern,
}

pub struct RegexPlanV {
    pub field: Seq<char>,
    pub pattern: PatternV,
}

/// The filter that a `where` clause describes. Records must meet every
/// condition, and at least one of the alternatives when there are any.
#[derive(Debug)]
pub struct FilterPlan {
    pub conditions: Vec<ConditionPlan>,
    pub or_conditions: Vec<ConditionPlan>,
    pub graph_match: Option<GraphMatchPlan>,
    pub cypher: Option<CypherPlan>,
    pub semantic: Option<SemanticPlan>,
    pub regex: Vec<RegexPlan>,
    pub raw_sql: Option<String>,
}

pub struct FilterPlanV {
    pub conditions: Seq<ConditionPlanV>,
    pub or_conditions: Seq<ConditionPlanV>,
    pub graph_match: Option<GraphMatchPlanV>,
    pub cypher: Option<CypherPlanV>,
    pub semantic: Option<SemanticPlanV>,
    pub regex: Seq<RegexPlanV>,
    pub raw_sql: Option<Seq<char>>,
}

pub open spec fn conds_view(s: Seq<ConditionPlan>) -> Seq<ConditionPlanV> {
    s.map_values(|c: ConditionPlan| c@)
}

pub open spec fn named_view(s: Seq<(String, Expr)>) -> Seq<(Seq<char>, ExprV)> {
    s.map_values(|p: (String, Expr)| (p.0@, expr_view(p.1)))
}

pub open spec fn pattern_view(p: Pattern) -> PatternV {
    match p {
        Pattern::Literal(s) => PatternV::Literal(s@),
        Pattern::Evaluated(e) => PatternV::Evaluated(expr_view(e)),
    }
}

pub open spec fn regexes_view(s: Seq<RegexPlan>) -> Seq<RegexPlanV> {
    s.map_values(|r: RegexPlan| RegexPlanV { field: r.field@, pattern: pattern_view(r.pattern) })
}

impl View for FilterPlan {
    type V = FilterPlanV;

    open spec fn view(&self) -> FilterPlanV {
        FilterPlanV {
            conditions: conds_view(self.conditions@),
            or_conditions: conds_view(self.or_conditions@),
            graph_match: match self.graph_match {
                Some(g) => Some(GraphMatchPlanV { input: opt_expr_view(g.input), hops: g.hops }),
                None => None,
            },
            cypher: match self.cypher {
                Some(c) => Some(
                    CypherPlanV {
                        query: c.query@,
                        named: named_view(c.named@),
                        scope_names: strs_view(c.scope_names@),
                    },
                ),
                None => None,
            },
            semantic: match self.semantic {
                Some(s) => Some(
                    SemanticPlanV {
                        input: opt_expr_view(s.input),
                        threshold: expr_view(s.threshold),
                    },
                ),
                None => None,
            },
            regex: regexes_view(self.regex@),
            raw_sql: match self.raw_sql {
                Some(q) => Some(q@),
                None => None,
            },
        }
    }
}

// ───────────────────────────── the reading ─────────────────────────────

pub open spec fn empty_plan() -> FilterPlanV {
    FilterPlanV {
        conditions: Seq::empty(),
        or_conditions: Seq::empty(),
        graph_match: None,
        cypher: None,
        semantic: None,
        regex: Seq::empty(),
        raw_sql: None,
    }
}

/// The comparison that a binary operator stands for, if it is one.
pub open spec fn cond_op(op: BinOp) -> Option<ConditionOp> {
    match op {
        BinOp::Eq => Some(ConditionOp::Eq),
        BinOp::Ne => Some(ConditionOp::Ne),
        BinOp::Lt => Some(ConditionOp::Lt),
        BinOp::Le => Some(ConditionOp::Le),
        BinOp::Gt => Some(ConditionOp::Gt),
        BinOp::Ge => Some(ConditionOp::Ge),
        _ => None,
    }
}

/// The value of the first argument, if there is one.
pub open spec fn first_arg(args: Seq<CallArgV>) -> Option<ExprV> {
    if args.len() > 0 {
        Some(args[0].value)
    } else {
        None
    }
}

/// The integer literal of the first argument from `i` on that is named `name`
/// and has one.
pub open spec fn named_int_from(args: Seq<CallArgV>, name: Seq<char>, i: int) -> Option<i64>
    decreases args.len() - i,
{
    if i < 0 || i >= args.len() {
        None
    } else if args[i].name == Some(name) && args[i].value is Int {
        Some(args[i].value->Int_0)
    } else {
        named_int_from(args, name, i + 1)
    }
}

/// The first argument value from `i` on that is named `name` and is a number
/// literal.
pub open spec fn named_number_from(args: Seq<CallArgV>, name: Seq<char>, i: int) -> Option<ExprV>
    decreases args.len() - i,
{
    if i < 0 || i >= args.len() {
        None
    } else if args[i].name == Some(name) && (args[i].value is Int || args[i].value is Float) {
        Some(args[i].value)
    } else {
        named_number_from(args, name, i + 1)
    }
}

/// The named arguments from `i` on, as name and value.
pub open spec fn named_from(args: Seq<CallArgV>, i: int) -> Seq<(Seq<char>, ExprV)>
    decreases args.len() - i,
{
    if i < 0 || i >= args.len() {
        Seq::empty()
    } else {
        (match args[i].name {
            Some(n) => seq![(n, args[i].value)],
            None => Seq::empty(),
        }) + named_from(args, i + 1)
    }
}

/// What a call of `name` with `args` adds to filter `f`. A later graph match,
/// Cypher query, semantic search or SQL text replaces an earlier one; calls
/// of other functions, or of these without the arguments they need, add
/// nothing.
pub open spec fn plan_call(name: Seq<char>, args: Seq<CallArgV>, f: FilterPlanV) -> FilterPlanV {
    if name == "graph_match"@ {
        FilterPlanV {
            graph_match: Some(
                GraphMatchPlanV {
                    input: first_arg(args),
                    hops: match named_int_from(args, "hops"@, 0) {
                        Some(n) => n as usize,
                        None => 2,
                    },
                },
            ),
            ..f
        }
    } else if name == "cypher"@ {
        if args.len() > 0 && args[0].value is Str {
            let q = args[0].value->Str_0;
            FilterPlanV {
                cypher: Some(
                    CypherPlanV {
                        query: q,
                        named: named_from(args, 1),
                        scope_names: cypher_scope_names(q),
                    },
                ),
                ..f
            }
        } else {
            f
        }
    } else if name == "semantic_match"@ {
        FilterPlanV {
            semantic: Some(
                SemanticPlanV {
                    input: first_arg(args),
                    threshold: match named_number_from(args, "threshold"@, 0) {
                        Some(t) => t,
                        None => default_threshold(),
                    },
                },
            ),
            ..f
        }
    } else if name == "regex"@ {
        if args.len() >= 2 && args[0].value is Ident {
            let field = args[0].value->Ident_0;
            match args[1].value {
                ExprV::Str(s) => if s.len() > 0 && regex_compiles(s) {
                    FilterPlanV {
                        regex: f.regex.push(RegexPlanV { field, pattern: PatternV::Literal(s) }),
                        ..f
                    }
                } else {
                    f
                },
                other => FilterPlanV {
                    regex: f.regex.push(RegexPlanV { field, pattern: PatternV::Evaluated(other) }),
                    ..f
                },
            }
        } else {
            f
        }
    } else if name == "sql"@ {
        if args.len() > 0 && args[0].value is Str {
            FilterPlanV { raw_sql: Some(args[0].value->Str_0), ..f }
        } else {
            f
        }
    } else {
        f
    }
}

/// Filter `f` with what `e` adds to it: `and` adds both sides in turn; `or`
/// reads each side into a filter of its own and adds the comparisons of both
/// to the alternatives (what else they hold is dropped); a comparison of a
/// field name with an expression adds a condition; a call adds what
/// [`plan_call`] says; anything else adds nothing.
pub open spec fn plan_where(e: ExprV, f: FilterPlanV) -> FilterPlanV
    decreases e,
{
    match e {
        ExprV::Binary { left, op, right } => if op == BinOp::And {
            plan_where(*right, plan_where(*left, f))
        } else if op == BinOp::Or {
            let l = plan_where(*left, empty_plan());
            let r = plan_where(*right, empty_plan());
            FilterPlanV {
                or_conditions: f.or_conditions + l.conditions + r.conditions + l.or_conditions
                    + r.or_conditions,
                ..f
            }
        } else {
            match (cond_op(op), *left) {
                (Some(c), ExprV::Ident(field)) => FilterPlanV {
                    conditions: f.conditions.push(ConditionPlanV { field, op: c, value: *right }),
                    ..f
                },
                _ => f,
            }
        },
        ExprV::Call { func, args } => match *func {
            ExprV::Ident(name) => plan_call(name, args, f),
            _ => f,
        },
        _ => f,
    }
}

// ───────────────────────────── executing it ─────────────────────────────

impl FilterPlan {
    /// A filter that asks nothing.
    pub fn new() -> (r: FilterPlan)
        ensures
            r@ == empty_plan(),
    {
        let r = FilterPlan {
            conditions: Vec::new(),
            or_conditions: Vec::new(),
            graph_match: None,
            cypher: None,
            semantic: None,
            regex: Vec::new(),
            raw_sql: None,
        };
        assert(conds_view(r.conditions@) =~= Seq::empty());
        assert(conds_view(r.or_conditions@) =~= Seq::empty());
        assert(regexes_view(r.regex@) =~= Seq::empty());
        r
    }
}

fn cond_op_exec(op: BinOp) -> (r: Option<ConditionOp>)
    ensures
        r == cond_op(op),
{
    match op {
        BinOp::Eq => Some(ConditionOp::Eq),
        BinOp::Ne => Some(ConditionOp::Ne),
        BinOp::Lt => Some(ConditionOp::Lt),
        BinOp::Le => Some(ConditionOp::Le),
        BinOp::Gt => Some(ConditionOp::Gt),
        BinOp::Ge => Some(ConditionOp::Ge),
        _ => None,
    }
}

fn is_named(a: &CallArg, name: &str) -> (r: bool)
    ensures
        r == (arg_view(*a).name == Some(name@)),
{
    match &a.name {
        Some(n) => text_eq(n.as_str(), name),
        None => false,
    }
}

fn named_int(args: &Vec<CallArg>, name: &str) -> (r: Option<i64>)
    ensures
        r == named_int_from(args_view(args@), name@, 0),
{
    proof {
        lemma_args_view_index(args@);
    }
    let ghost av = args_view(args@);
    let mut i: usize = 0;
    while i < args.len()
        invariant
            i <= args.len(),
            av == args_view(args@),
            av.len() == args.len(),
            forall|k: int| 0 <= k < args.len() ==> av[k] == arg_view(#[trigger] args@[k]),
            named_int_from(av, name@, 0) == named_int_from(av, name@, i as int),
        decreases args.len() - i,
    {
        assert(av[i as int] == arg_view(args@[i as int]));
        if is_named(&args[i], name) {
            if let Expr::Int(n) = &args[i].value {
                return Some(*n);
            }
        }
        i = i + 1;
    }
    None
}

fn named_number(args: &Vec<CallArg>, name: &str) -> (r: Option<Expr>)
    ensures
        opt_expr_view(r) == named_number_from(args_view(args@), name@, 0),
{
    proof {
        lemma_args_view_index(args@);
    }
    let ghost av = args_view(args@);
    let mut i: usize = 0;
    while i < args.len()
        invariant
            i <= args.len(),
            av == args_view(args@),
            av.len() == args.len(),
            forall|k: int| 0 <= k < args.len() ==> av[k] == arg_view(#[trigger] args@[k]),
            named_number_from(av, name@, 0) == named_number_from(av, name@, i as int),
        decreases args.len() - i,
    {
        assert(av[i as int] == arg_view(args@[i as int]));
        if is_named(&args[i], name) {
            match &args[i].value {
                Expr::Int(_) => {
                    return Some(args[i].value.clone());
                },
                Expr::Float(_) => {
                    return Some(args[i].value.clone());
                },
                _ => {},
            }
        }
        i = i + 1;
    }
    None
}

fn named_after(args: &Vec<CallArg>, start: usize) -> (r: Vec<(String, Expr)>)
    requires
        start <= args.len(),
    ensures
        named_view(r@) == named_from(args_view(args@), start as int),
{
    proof {
        lemma_args_view_index(args@);
    }
    let ghost av = args_view(args@);
    let mut out: Vec<(String, Expr)> = Vec::new();
    let mut i: usize = start;
    assert(named_view(out@) =~= Seq::<(Seq<char>, ExprV)>::empty());
    assert(named_view(out@) + named_from(av, i as int) =~= named_from(av, start as int));
    while i < args.len()
        invariant
            start <= i <= args.len(),
            av == args_view(args@),
            av.len() == args.len(),
            forall|k: int| 0 <= k < args.len() ==> av[k] == arg_view(#[trigger] args@[k]),
            named_view(out@) + named_from(av, i as int) == named_from(av, start as int),
        decreases args.len() - i,
    {
        assert(av[i as int] == arg_view(args@[i as int]));
        let ghost before = named_view(out@);
        match &args[i].name {
            Some(n) => {
                out.push((n.clone(), args[i].value.clone()));
                assert(named_view(out@) =~= before + seq![(n@, expr_view(args@[i as int].value))]);
            },
            None => {},
        }
        assert(named_view(out@) + named_from(av, i + 1) =~= before + named_from(av, i as int));
        i = i + 1;
    }
    assert(named_view(out@) =~= named_view(out@) + named_from(av, i as int));
    out
}

fn plan_call_into(name: &String, args: &Vec<CallArg>, f: &mut FilterPlan)
    ensures
        final(f)@ == plan_call(name@, args_view(args@), old(f)@),
{
    proof {
        lemma_args_view_index(args@);
    }
    let ghost av = args_view(args@);
    let n = name.as_str();
    if text_eq(n, "graph_match") {
        let input = if args.len() > 0 {
            assert(av[0] == arg_view(args@[0]));
            Some(args[0].value.clone())
        } else {
            None
        };
        let hops = match named_int(args, "hops") {
            Some(k) => k as usize,
            None => 2,
        };
        f.graph_match = Some(GraphMatchPlan { input, hops });
    } else if text_eq(n, "cypher") {
        if args.len() > 0 {
            assert(av[0] == arg_view(args@[0]));
            if let Expr::Str(q) = &args[0].value {
                let named = named_after(args, 1);
                let scope_names = cypher_param_names(q.as_str());
                f.cypher = Some(CypherPlan { query: q.clone(), named, scope_names });
            }
        }
    } else if text_eq(n, "semantic_match") {
        let input = if args.len() > 0 {
            assert(av[0] == arg_view(args@[0]));
            Some(args[0].value.clone())
        } else {
            None
        };
        let threshold = match named_number(args, "threshold") {
            Some(t) => t,
            None => Expr::Float(String::from_str("0.7")),
        };
        f.semantic = Some(SemanticPlan { input, threshold });
    } else if text_eq(n, "regex") {
        if args.len() >= 2 {
            assert(av[0] == arg_view(args@[0]));
            assert(av[1] == arg_view(args@[1]));
            if let Expr::Ident(field) = &args[0].value {
                let ghost before = regexes_view(f.regex@);
                match &args[1].value {
                    Expr::Str(s) => {
                        if keeps_regex(s.as_str()) {
                            f.regex.push(
                                RegexPlan { field: field.clone(), pattern: Pattern::Literal(s.clone()) },
                            );
                            assert(regexes_view(f.regex@) =~= before.push(
                                RegexPlanV { field: field@, pattern: PatternV::Literal(s@) },
                            ));
                        }
                    },
                    other => {
                        let e = other.clone();
                        let ghost ev = expr_view(e);
                        f.regex.push(
                            RegexPlan { field: field.clone(), pattern: Pattern::Evaluated(e) },
                        );
                        assert(regexes_view(f.regex@) =~= before.push(
                            RegexPlanV { field: field@, pattern: PatternV::Evaluated(ev) },
                        ));
                    },
                }
            }
        }
    } else if text_eq(n, "sql") {
        if args.len() > 0 {
            assert(av[0] == arg_view(args@[0]));
            if let Expr::Str(q) = &args[0].value {
                f.raw_sql = Some(q.clone());
            }
        }
    }
}

fn plan_or(l: FilterPlan, r: FilterPlan, f: FilterPlan) -> (out: FilterPlan)
    ensures
        out@ == (FilterPlanV {
            or_conditions: f@.or_conditions + l@.conditions + r@.conditions + l@.or_conditions
                + r@.or_conditions,
            ..f@
        }),
{
    let mut l = l;
    let mut r = r;
    let mut f = f;
    let ghost before = conds_view(f.or_conditions@);
    let ghost lc = conds_view(l.conditions@);
    let ghost rc = conds_view(r.conditions@);
    let ghost lo = conds_view(l.or_conditions@);
    let ghost ro = conds_view(r.or_conditions@);
    f.or_conditions.append(&mut l.conditions);
    f.or_conditions.append(&mut r.conditions);
    f.or_conditions.append(&mut l.or_conditions);
    f.or_conditions.append(&mut r.or_conditions);
    assert(conds_view(f.or_conditions@) =~= before + lc + rc + lo + ro);
    f
}

fn plan_compare(field: &String, op: ConditionOp, value: &Expr, f: FilterPlan) -> (out: FilterPlan)
    ensures
        out@ == (FilterPlanV {
            conditions: f@.conditions.push(
                ConditionPlanV { field: field@, op, value: expr_view(*value) },
            ),
            ..f@
        }),
{
    let mut f = f;
    let ghost before = conds_view(f.conditions@);
    let v = value.clone();
    let ghost cv = ConditionPlanV { field: field@, op, value: expr_view(v) };
    f.conditions.push(ConditionPlan { field: field.clone(), op, value: v });
    assert(conds_view(f.conditions@) =~= before.push(cv));
    f
}

fn plan_from(e: &Expr, f: FilterPlan) -> (r: FilterPlan)
    ensures
        r@ == plan_where(expr_view(*e), f@),
    decreases e,
{
    match e {
        Expr::Binary { left, op, right } => {
            match op {
                BinOp::And => {
                    let f1 = plan_from(&**left, f);
                    plan_from(&**right, f1)
                },
                BinOp::Or => {
                    let l = plan_from(&**left, FilterPlan::new());
                    let r = plan_from(&**right, FilterPlan::new());
                    plan_or(l, r, f)
                },
                _ => {
                    match (cond_op_exec(*op), &**left) {
                        (Some(c), Expr::Ident(field)) => plan_compare(field, c, &**right, f),
                        _ => f,
                    }
                },
            }
        },
        Expr::Call { func, args } => {
            let mut f = f;
            assert(expr_view(*e) == ExprV::Call {
                func: Box::new(expr_view(**func)),
                args: args_view(args@),
            });
            if let Expr::Ident(name) = &**func {
                assert(expr_view(**func) == ExprV::Ident(name@));
                plan_call_into(name, args, &mut f);
            }
            f
        },
        _ => f,
    }
}

/// The filter that the `where` clause `e` describes (see [`plan_where`]).
pub fn where_filter(e: &Expr) -> (r: FilterPlan)
    ensures
        r@ == plan_where(expr_view(*e), empty_plan()),
{
    plan_from(e, FilterPlan::new())
}

/// What running a query body asks of storage: the filter of its `where`
/// clause, for each source memory in order; the order, when the body orders
/// by a field name (`true` for ascending); and the limit, whose expression is
/// used once it evaluates to an integer.
#[derive(Debug)]
pub struct QueryRequest {
    pub sources: Vec<String>,
    pub order_by: Option<(String, bool)>,
    pub limit: Option<Expr>,
    pub filter: FilterPlan,
}

pub struct QueryRequestV {
    pub sources: Seq<Seq<char>>,
    pub order_by: Option<(Seq<char>, bool)>,
    pub limit: Option<ExprV>,
    pub filter: FilterPlanV,
}

impl View for QueryRequest {
    type V = QueryRequestV;

    open spec fn view(&self) -> QueryRequestV {
        QueryRequestV {
            sources: strs_view(self.sources@),
            order_by: match self.order_by {
                Some((f, asc)) => Some((f@, asc)),
                None => None,
            },
            limit: opt_expr_view(self.limit),
            filter: self.filter@,
        }
    }
}

/// The order a query body asks for: a field name and whether it ascends.
pub open spec fn request_order(ob: Option<OrderByV>) -> Option<(Seq<char>, bool)> {
    match ob {
        Some(o) => match o.expr {
            ExprV::Ident(f) => Some((f, o.direction == SortDir::Asc)),
            _ => None,
        },
        None => None,
    }
}

pub open spec fn request_of(q: QueryBodyV) -> QueryRequestV {
    QueryRequestV {
        sources: q.from,
        order_by: request_order(q.order_by),
        limit: q.limit,
        filter: match q.where_clause {
            Some(w) => plan_where(w, empty_plan()),
            None => empty_plan(),
        },
    }
}

/// What running `body` asks of storage (see [`request_of`]).
pub fn query_request(body: &QueryBody) -> (r: QueryRequest)
    ensures
        r@ == request_of(qbody_view(*body)),
{
    let order_by = match &body.order_by {
        Some(ob) => match &ob.expr {
            Expr::Ident(f) => Some((f.clone(), ob.direction == SortDir::Asc)),
            _ => None,
        },
        None => None,
    };
    let limit = match &body.limit {
        Some(l) => Some(l.clone()),
        None => None,
    };
    let filter = match &body.where_clause {
        Some(w) => where_filter(w),
        None => FilterPlan::new(),
    };
    QueryRequest { sources: copy_strings(&body.from), order_by, limit, filter }
}

} // verus!
