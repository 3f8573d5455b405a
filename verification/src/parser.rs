use vstd::prelude::*;
use crate::ast::{
    arg_view, finit_view, strs_view, ExprV, CallArgV, FieldInitV, QueryBodyV, StmtV, OrderByV,
    expr_view, exprs_view, args_view, finits_view, qbody_view, opt_expr_view, stmt_view, stmts_view,
    BinOp, CallArg, Duration, DurationUnit, Expr, FieldInit, OrderByClause, QueryBody, SortDir,
    Stmt, UnaryOp, Param, params_view,
};
use crate::grammar::{float_bounds, toks_view, tk, is_tok, ident_at, any_name_at, str_at, duration_at, num_text, type_base, type_mods, parse_type, adv, fwd, param, params, params_rest, ident_list, ident_list_rest, name_list, name_list_rest, literal, mul_op, add_op, rel_op, bin, expr, pipe_rest, or_e, or_rest, and_e, and_rest, rel_e, rel_rest, add_e, add_rest, mul_e, mul_rest, unary, postfix, postfix_rest, call_arg, arg_list, arg_list_rest, expr_list, expr_list_rest, field_init, field_list, field_list_rest, query_body, multi_lambda, single_lambda, array_lit, struct_init, grouped, atom, stmt, if_stmt, for_stmt, block, stmts, config_value, config_entry, config_entries, config_item, decorator, decorators, field_def, field_defs, memory_item, handler_item, query_item, update_rule, update_rules, rules_item, extern_item, item, items, ns_or_item, top_items, program};
use crate::lexer::{Token, TokenV, token_view, lex, lexable, tokenize};
use crate::text::{i64_to_text, nat_text, push_u64_text};
use crate::errors::SynapseError;
use crate::items::p_top_items;
use crate::ast::{Item, ItemV, Program, items_view};
use crate::types::{Type, TypeV};

verus! {

pub open spec fn payload_free(k: Token) -> bool {
    !(k is FloatLiteral || k is DurationSec || k is DurationMin || k is DurationHour
        || k is DurationDay || k is DurationWeek || k is IntLiteral || k is Ident
        || k is StringLiteral)
}

/// Whether `a` is the payload-free token `k`.
pub fn same_fixed(a: &Token, k: &Token) -> (r: bool)
    requires
        payload_free(*k),
    ensures
        r == (token_view(*a) == TokenV::Fixed(*k)),
{
    match k {
        Token::Comment => matches!(a, Token::Comment),
        Token::Config => matches!(a, Token::Config),
        Token::Memory => matches!(a, Token::Memory),
        Token::Namespace => matches!(a, Token::Namespace),
        Token::Query => matches!(a, Token::Query),
        Token::Update => matches!(a, Token::Update),
        Token::On => matches!(a, Token::On),
        Token::Fn => matches!(a, Token::Fn),
        Token::If => matches!(a, Token::If),
        Token::Else => matches!(a, Token::Else),
        Token::Let => matches!(a, Token::Let),
        Token::Mut => matches!(a, Token::Mut),
        Token::Return => matches!(a, Token::Return),
        Token::For => matches!(a, Token::For),
        Token::In => matches!(a, Token::In),
        Token::Policy => matches!(a, Token::Policy),
        Token::NoneKw => matches!(a, Token::NoneKw),
        Token::Extern => matches!(a, Token::Extern),
        Token::Index => matches!(a, Token::Index),
        Token::Invariant => matches!(a, Token::Invariant),
        Token::OnAccess => matches!(a, Token::OnAccess),
        Token::OnConflict => matches!(a, Token::OnConflict),
        Token::Every => matches!(a, Token::Every),
        Token::Where => matches!(a, Token::Where),
        Token::Order => matches!(a, Token::Order),
        Token::Limit => matches!(a, Token::Limit),
        Token::By => matches!(a, Token::By),
        Token::Asc => matches!(a, Token::Asc),
        Token::Desc => matches!(a, Token::Desc),
        Token::From => matches!(a, Token::From),
        Token::And => matches!(a, Token::And),
        Token::Or => matches!(a, Token::Or),
        Token::Not => matches!(a, Token::Not),
        Token::TyString => matches!(a, Token::TyString),
        Token::TyInt => matches!(a, Token::TyInt),
        Token::TyFloat => matches!(a, Token::TyFloat),
        Token::TyBool => matches!(a, Token::TyBool),
        Token::TyTimestamp => matches!(a, Token::TyTimestamp),
        Token::True => matches!(a, Token::True),
        Token::False => matches!(a, Token::False),
        Token::Null => matches!(a, Token::Null),
        Token::Plus => matches!(a, Token::Plus),
        Token::Minus => matches!(a, Token::Minus),
        Token::Star => matches!(a, Token::Star),
        Token::Slash => matches!(a, Token::Slash),
        Token::Percent => matches!(a, Token::Percent),
        Token::Eq => matches!(a, Token::Eq),
        Token::EqEq => matches!(a, Token::EqEq),
        Token::BangEq => matches!(a, Token::BangEq),
        Token::Lt => matches!(a, Token::Lt),
        Token::LtEq => matches!(a, Token::LtEq),
        Token::Gt => matches!(a, Token::Gt),
        Token::GtEq => matches!(a, Token::GtEq),
        Token::PipeArrow => matches!(a, Token::PipeArrow),
        Token::Question => matches!(a, Token::Question),
        Token::Colon => matches!(a, Token::Colon),
        Token::Semi => matches!(a, Token::Semi),
        Token::Comma => matches!(a, Token::Comma),
        Token::LParen => matches!(a, Token::LParen),
        Token::RParen => matches!(a, Token::RParen),
        Token::LBracket => matches!(a, Token::LBracket),
        Token::RBracket => matches!(a, Token::RBracket),
        Token::LBrace => matches!(a, Token::LBrace),
        Token::RBrace => matches!(a, Token::RBrace),
        Token::Dot => matches!(a, Token::Dot),
        Token::DotDot => matches!(a, Token::DotDot),
        Token::Arrow => matches!(a, Token::Arrow),
        Token::FatArrow => matches!(a, Token::FatArrow),
        Token::Pipe => matches!(a, Token::Pipe),
        _ => false,
    }
}

/// Whether the token at `p` is the payload-free token `k`.
pub fn at_tok(t: &Vec<Token>, p: usize, k: Token) -> (r: bool)
    requires
        payload_free(k),
    ensures
        r == is_tok(toks_view(t@), p as int, k),
{
    if p < t.len() {
        same_fixed(&t[p], &k)
    } else {
        false
    }
}

pub fn ident_exec(t: &Vec<Token>, p: usize) -> (r: Option<String>)
    ensures
        match ident_at(toks_view(t@), p as int) {
            Some(s) => r matches Some(x) && x@ == s,
            None => r is None,
        },
{
    if p < t.len() {
        match &t[p] {
            Token::Ident(s) => Some(s.clone()),
            _ => None,
        }
    } else {
        None
    }
}

fn name_str(lit: &str) -> (r: String)
    ensures
        r@ == lit@,
{
    String::from_str(lit)
}

pub fn any_name_exec(t: &Vec<Token>, p: usize) -> (r: Option<String>)
    ensures
        match any_name_at(toks_view(t@), p as int) {
            Some(s) => r matches Some(x) && x@ == s,
            None => r is None,
        },
{
    if p >= t.len() {
        return None;
    }
    proof {
        reveal_strlit("string");
        reveal_strlit("int");
        reveal_strlit("float");
        reveal_strlit("bool");
        reveal_strlit("timestamp");
        reveal_strlit("memory");
        reveal_strlit("query");
        reveal_strlit("update");
        reveal_strlit("from");
        reveal_strlit("where");
        reveal_strlit("order");
        reveal_strlit("limit");
        reveal_strlit("policy");
    }
    match &t[p] {
        Token::Ident(s) => Some(s.clone()),
        Token::TyString => Some(name_str("string")),
        Token::TyInt => Some(name_str("int")),
        Token::TyFloat => Some(name_str("float")),
        Token::TyBool => Some(name_str("bool")),
        Token::TyTimestamp => Some(name_str("timestamp")),
        Token::Memory => Some(name_str("memory")),
        Token::Query => Some(name_str("query")),
        Token::Update => Some(name_str("update")),
        Token::From => Some(name_str("from")),
        Token::Where => Some(name_str("where")),
        Token::Order => Some(name_str("order")),
        Token::Limit => Some(name_str("limit")),
        Token::Policy => Some(name_str("policy")),
        _ => None,
    }
}

pub fn str_exec(t: &Vec<Token>, p: usize) -> (r: Option<String>)
    ensures
        match str_at(toks_view(t@), p as int) {
            Some(s) => r matches Some(x) && x@ == s,
            None => r is None,
        },
{
    if p < t.len() {
        match &t[p] {
            Token::StringLiteral(s) => Some(s.clone()),
            _ => None,
        }
    } else {
        None
    }
}

pub fn duration_exec(t: &Vec<Token>, p: usize) -> (r: Option<Duration>)
    ensures
        r == duration_at(toks_view(t@), p as int),
{
    if p < t.len() {
        match &t[p] {
            Token::DurationSec(v) => Some(Duration { value: *v, unit: DurationUnit::Second }),
            Token::DurationMin(v) => Some(Duration { value: *v, unit: DurationUnit::Minute }),
            Token::DurationHour(v) => Some(Duration { value: *v, unit: DurationUnit::Hour }),
            Token::DurationDay(v) => Some(Duration { value: *v, unit: DurationUnit::Day }),
            Token::DurationWeek(v) => Some(Duration { value: *v, unit: DurationUnit::Week }),
            _ => None,
        }
    } else {
        None
    }
}

// ───────────────────────────── types ─────────────────────────────

pub open spec fn ty_res(r: Option<(Type, usize)>) -> Option<(TypeV, int)> {
    match r {
        Some((x, q)) => Some((x@, q as int)),
        None => None,
    }
}

fn num_text_exec(t: &Vec<Token>, p: usize) -> (r: Option<String>)
    ensures
        match num_text(toks_view(t@), p as int) {
            Some(s) => r matches Some(x) && x@ == s,
            None => r is None,
        },
{
    if p < t.len() {
        match &t[p] {
            Token::FloatLiteral(s) => Some(s.clone()),
            Token::IntLiteral(n) => Some(i64_to_text(*n)),
            _ => None,
        }
    } else {
        None
    }
}

fn type_base_exec(t: &Vec<Token>, Ghost(tv): Ghost<Seq<TokenV>>, p: usize) -> (r: Option<(Type, usize)>)
    requires
        tv == toks_view(t@),
        p <= t.len(),
    ensures
        ty_res(r) === type_base(tv, p as int),
        r matches Some((_, q)) ==> p < q <= t.len(),
{
    if at_tok(t, p, Token::TyString) {
        Some((Type::String, p + 1))
    } else if at_tok(t, p, Token::TyInt) {
        Some((Type::Int, p + 1))
    } else if at_tok(t, p, Token::TyBool) {
        Some((Type::Bool, p + 1))
    } else if at_tok(t, p, Token::TyTimestamp) {
        Some((Type::Timestamp, p + 1))
    } else if at_tok(t, p, Token::TyFloat) {
        let p1 = p + 1;
        if at_tok(t, p1, Token::LBracket) {
            let a = num_text_exec(t, p1 + 1);
            if a.is_some() && at_tok(t, p1 + 2, Token::Comma) {
                let b = num_text_exec(t, p1 + 3);
                if b.is_some() && at_tok(t, p1 + 4, Token::RBracket) {
                    return Some(
                        (Type::BoundedFloat { min: a.unwrap(), max: b.unwrap() }, p1 + 5),
                    );
                }
            }
        }
        Some((Type::Float, p + 1))
    } else {
        match ident_exec(t, p) {
            Some(n) => Some((Type::Named(n), p + 1)),
            None => None,
        }
    }
}

fn type_mods_exec(t: &Vec<Token>, Ghost(tv): Ghost<Seq<TokenV>>, q: usize, ty: Type) -> (r: (Type, usize))
    requires
        tv == toks_view(t@),
        q <= t.len(),
    ensures
        q <= r.1 <= t.len(),
        (r.0@, r.1 as int) === type_mods(tv, q as int, ty@),
    decreases t.len() - q,
{
    if at_tok(t, q, Token::Question) {
        type_mods_exec(t, Ghost(tv), q + 1, Type::Optional(Box::new(ty)))
    } else if at_tok(t, q, Token::LBracket) && at_tok(t, q + 1, Token::RBracket) {
        type_mods_exec(t, Ghost(tv), q + 2, Type::Array(Box::new(ty)))
    } else {
        (ty, q)
    }
}

pub(crate) fn parse_type_exec(t: &Vec<Token>, Ghost(tv): Ghost<Seq<TokenV>>, p: usize) -> (r: Option<(Type, usize)>)
    requires
        tv == toks_view(t@),
        p <= t.len(),
    ensures
        ty_res(r) === parse_type(tv, p as int),
        r matches Some((_, q)) ==> p < q <= t.len(),
{
    match type_base_exec(t, Ghost(tv), p) {
        Some((b, q)) => {
            let (ty, q2) = type_mods_exec(t, Ghost(tv), q, b);
            proof {
                lemma_type_mods_bound(tv, q as int, b@);
            }
            Some((ty, q2))
        },
        None => None,
    }
}

pub proof fn lemma_type_mods_bound(t: Seq<TokenV>, q: int, ty: TypeV)
    requires
        0 <= q <= t.len(),
    ensures
        q <= type_mods(t, q, ty).1 <= t.len(),
    decreases t.len() - q,
{
    if is_tok(t, q, Token::Question) {
        lemma_type_mods_bound(t, q + 1, TypeV::Optional(Box::new(ty)));
    } else if is_tok(t, q, Token::LBracket) && is_tok(t, q + 1, Token::RBracket) {
        lemma_type_mods_bound(t, q + 2, TypeV::Array(Box::new(ty)));
    }
}


// ───────────────────────────── expressions ─────────────────────────────

pub open spec fn e_res(r: Option<(Expr, usize)>) -> Option<(ExprV, int)> {
    match r {
        Some((e, q)) => Some((expr_view(e), q as int)),
        None => None,
    }
}

pub open spec fn e_pair(r: (Expr, usize)) -> (ExprV, int) {
    (expr_view(r.0), r.1 as int)
}

fn mul_op_exec(t: &Vec<Token>, q: usize) -> (r: Option<BinOp>)
    ensures
        r == mul_op(toks_view(t@), q as int),
{
    if at_tok(t, q, Token::Star) {
        Some(BinOp::Mul)
    } else if at_tok(t, q, Token::Slash) {
        Some(BinOp::Div)
    } else if at_tok(t, q, Token::Percent) {
        Some(BinOp::Mod)
    } else {
        None
    }
}

fn add_op_exec(t: &Vec<Token>, q: usize) -> (r: Option<BinOp>)
    ensures
        r == add_op(toks_view(t@), q as int),
{
    if at_tok(t, q, Token::Plus) {
        Some(BinOp::Add)
    } else if at_tok(t, q, Token::Minus) {
        Some(BinOp::Sub)
    } else {
        None
    }
}

fn rel_op_exec(t: &Vec<Token>, q: usize) -> (r: Option<BinOp>)
    ensures
        r == rel_op(toks_view(t@), q as int),
{
    if at_tok(t, q, Token::EqEq) {
        Some(BinOp::Eq)
    } else if at_tok(t, q, Token::BangEq) {
        Some(BinOp::Ne)
    } else if at_tok(t, q, Token::LtEq) {
        Some(BinOp::Le)
    } else if at_tok(t, q, Token::Lt) {
        Some(BinOp::Lt)
    } else if at_tok(t, q, Token::GtEq) {
        Some(BinOp::Ge)
    } else if at_tok(t, q, Token::Gt) {
        Some(BinOp::Gt)
    } else {
        None
    }
}

/// Parses a full expression at `p` (see [`expr`]).
#[verifier::spinoff_prover]
#[verifier::rlimit(100)]
pub(crate) fn parse_expr(t: &Vec<Token>, Ghost(tv): Ghost<Seq<TokenV>>, p: usize) -> (r: Option<(Expr, usize)>)
    requires
        tv == toks_view(t@),
        p <= t.len(),
    ensures
        r matches Some((_, q)) ==> p < q <= t.len(),
        e_res(r) === expr(tv, p as int),
    decreases t.len() - p, 9int,
{
    match p_or(t, Ghost(tv), p) {
        Some((l, q)) => if p <= q && q <= t.len() {
            Some(p_pipe_rest(t, Ghost(tv), q, l))
        } else {
            None
        },
        None => None,
    }
}

#[verifier::spinoff_prover]
#[verifier::rlimit(100)]
fn p_pipe_rest(t: &Vec<Token>, Ghost(tv): Ghost<Seq<TokenV>>, q: usize, acc: Expr) -> (r: (Expr, usize))
    requires
        tv == toks_view(t@),
        q <= t.len(),
    ensures
        q <= r.1 <= t.len(),
        e_pair(r) === pipe_rest(tv, q as int, expr_view(acc)),
    decreases t.len() - q, 0int,
{
    if at_tok(t, q, Token::PipeArrow) {
        match p_or(t, Ghost(tv), q + 1) {
            Some((r, q2)) => if q < q2 && q2 <= t.len() {
                p_pipe_rest(t, Ghost(tv), q2, Expr::Pipe { left: Box::new(acc), right: Box::new(r) })
            } else {
                (acc, q)
            },
            None => (acc, q),
        }
    } else {
        (acc, q)
    }
}

#[verifier::spinoff_prover]
#[verifier::rlimit(100)]
pub(crate) fn p_or(t: &Vec<Token>, Ghost(tv): Ghost<Seq<TokenV>>, p: usize) -> (r: Option<(Expr, usize)>)
    requires
        tv == toks_view(t@),
        p <= t.len(),
    ensures
        r matches Some((_, q)) ==> p < q <= t.len(),
        e_res(r) === or_e(tv, p as int),
    decreases t.len() - p, 8int,
{
    match p_and(t, Ghost(tv), p) {
        Some((l, q)) => if p <= q && q <= t.len() {
            Some(p_or_rest(t, Ghost(tv), q, l))
        } else {
            None
        },
        None => None,
    }
}

#[verifier::spinoff_prover]
#[verifier::rlimit(100)]
fn p_or_rest(t: &Vec<Token>, Ghost(tv): Ghost<Seq<TokenV>>, q: usize, acc: Expr) -> (r: (Expr, usize))
    requires
        tv == toks_view(t@),
        q <= t.len(),
    ensures
        q <= r.1 <= t.len(),
        e_pair(r) === or_rest(tv, q as int, expr_view(acc)),
    decreases t.len() - q, 0int,
{
    let op = if at_tok(t, q, Token::Or) { Some(BinOp::Or) } else { None };
    match op {
        Some(op) => match p_and(t, Ghost(tv), q + 1) {
            Some((r, q2)) => if q < q2 && q2 <= t.len() {
                p_or_rest(t, Ghost(tv), q2, Expr::Binary { left: Box::new(acc), op, right: Box::new(r) })
            } else {
                (acc, q)
            },
            None => (acc, q),
        },
        None => (acc, q),
    }
}

#[verifier::spinoff_prover]
#[verifier::rlimit(100)]
pub(crate) fn p_and(t: &Vec<Token>, Ghost(tv): Ghost<Seq<TokenV>>, p: usize) -> (r: Option<(Expr, usize)>)
    requires
        tv == toks_view(t@),
        p <= t.len(),
    ensures
        r matches Some((_, q)) ==> p < q <= t.len(),
        e_res(r) === and_e(tv, p as int),
    decreases t.len() - p, 7int,
{
    match p_rel(t, Ghost(tv), p) {
        Some((l, q)) => if p <= q && q <= t.len() {
            Some(p_and_rest(t, Ghost(tv), q, l))
        } else {
            None
        },
        None => None,
    }
}

#[verifier::spinoff_prover]
#[verifier::rlimit(100)]
fn p_and_rest(t: &Vec<Token>, Ghost(tv): Ghost<Seq<TokenV>>, q: usize, acc: Expr) -> (r: (Expr, usize))
    requires
        tv == toks_view(t@),
        q <= t.len(),
    ensures
        q <= r.1 <= t.len(),
        e_pair(r) === and_rest(tv, q as int, expr_view(acc)),
    decreases t.len() - q, 0int,
{
    let op = if at_tok(t, q, Token::And) { Some(BinOp::And) } else { None };
    match op {
        Some(op) => match p_rel(t, Ghost(tv), q + 1) {
            Some((r, q2)) => if q < q2 && q2 <= t.len() {
                p_and_rest(t, Ghost(tv), q2, Expr::Binary { left: Box::new(acc), op, right: Box::new(r) })
            } else {
                (acc, q)
            },
            None => (acc, q),
        },
        None => (acc, q),
    }
}

#[verifier::spinoff_prover]
#[verifier::rlimit(100)]
pub(crate) fn p_rel(t: &Vec<Token>, Ghost(tv): Ghost<Seq<TokenV>>, p: usize) -> (r: Option<(Expr, usize)>)
    requires
        tv == toks_view(t@),
        p <= t.len(),
    ensures
        r matches Some((_, q)) ==> p < q <= t.len(),
        e_res(r) === rel_e(tv, p as int),
    decreases t.len() - p, 6int,
{
    match p_add(t, Ghost(tv), p) {
        Some((l, q)) => if p <= q && q <= t.len() {
            Some(p_rel_rest(t, Ghost(tv), q, l))
        } else {
            None
        },
        None => None,
    }
}

#[verifier::spinoff_prover]
#[verifier::rlimit(100)]
fn p_rel_rest(t: &Vec<Token>, Ghost(tv): Ghost<Seq<TokenV>>, q: usize, acc: Expr) -> (r: (Expr, usize))
    requires
        tv == toks_view(t@),
        q <= t.len(),
    ensures
        q <= r.1 <= t.len(),
        e_pair(r) === rel_rest(tv, q as int, expr_view(acc)),
    decreases t.len() - q, 0int,
{
    let op = rel_op_exec(t, q);
    match op {
        Some(op) => match p_add(t, Ghost(tv), q + 1) {
            Some((r, q2)) => if q < q2 && q2 <= t.len() {
                p_rel_rest(t, Ghost(tv), q2, Expr::Binary { left: Box::new(acc), op, right: Box::new(r) })
            } else {
                (acc, q)
            },
            None => (acc, q),
        },
        None => (acc, q),
    }
}

#[verifier::spinoff_prover]
#[verifier::rlimit(100)]
pub(crate) fn p_add(t: &Vec<Token>, Ghost(tv): Ghost<Seq<TokenV>>, p: usize) -> (r: Option<(Expr, usize)>)
    requires
        tv == toks_view(t@),
        p <= t.len(),
    ensures
        r matches Some((_, q)) ==> p < q <= t.len(),
        e_res(r) === add_e(tv, p as int),
    decreases t.len() - p, 5int,
{
    let first = p_mul(t, Ghost(tv), p);
    match first {
        Some((l, q)) => if p <= q && q <= t.len() {
            let rest = p_add_rest(t, Ghost(tv), q, l);
            assert(add_e(tv, p as int) === Some(add_rest(tv, q as int, expr_view(l))));
            Some(rest)
        } else {
            None
        },
        None => None,
    }
}

#[verifier::spinoff_prover]
#[verifier::rlimit(100)]
fn p_add_rest(t: &Vec<Token>, Ghost(tv): Ghost<Seq<TokenV>>, q: usize, acc: Expr) -> (r: (Expr, usize))
    requires
        tv == toks_view(t@),
        q <= t.len(),
    ensures
        q <= r.1 <= t.len(),
        e_pair(r) === add_rest(tv, q as int, expr_view(acc)),
    decreases t.len() - q, 0int,
{
    let op = add_op_exec(t, q);
    match op {
        Some(op) => match p_mul(t, Ghost(tv), q + 1) {
            Some((r, q2)) => if q < q2 && q2 <= t.len() {
                p_add_rest(t, Ghost(tv), q2, Expr::Binary { left: Box::new(acc), op, right: Box::new(r) })
            } else {
                (acc, q)
            },
            None => (acc, q),
        },
        None => (acc, q),
    }
}

#[verifier::spinoff_prover]
#[verifier::rlimit(100)]
pub(crate) fn p_mul(t: &Vec<Token>, Ghost(tv): Ghost<Seq<TokenV>>, p: usize) -> (r: Option<(Expr, usize)>)
    requires
        tv == toks_view(t@),
        p <= t.len(),
    ensures
        r matches Some((_, q)) ==> p < q <= t.len(),
        e_res(r) === mul_e(tv, p as int),
    decreases t.len() - p, 4int,
{
    match p_unary(t, Ghost(tv), p) {
        Some((l, q)) => if p <= q && q <= t.len() {
            Some(p_mul_rest(t, Ghost(tv), q, l))
        } else {
            None
        },
        None => None,
    }
}

#[verifier::spinoff_prover]
#[verifier::rlimit(100)]
fn p_mul_rest(t: &Vec<Token>, Ghost(tv): Ghost<Seq<TokenV>>, q: usize, acc: Expr) -> (r: (Expr, usize))
    requires
        tv == toks_view(t@),
        q <= t.len(),
    ensures
        q <= r.1 <= t.len(),
        e_pair(r) === mul_rest(tv, q as int, expr_view(acc)),
    decreases t.len() - q, 0int,
{
    let op = mul_op_exec(t, q);
    match op {
        Some(op) => match p_unary(t, Ghost(tv), q + 1) {
            Some((r, q2)) => if q < q2 && q2 <= t.len() {
                p_mul_rest(t, Ghost(tv), q2, Expr::Binary { left: Box::new(acc), op, right: Box::new(r) })
            } else {
                (acc, q)
            },
            None => (acc, q),
        },
        None => (acc, q),
    }
}

#[verifier::spinoff_prover]
#[verifier::rlimit(100)]
fn p_unary(t: &Vec<Token>, Ghost(tv): Ghost<Seq<TokenV>>, p: usize) -> (r: Option<(Expr, usize)>)
    requires
        tv == toks_view(t@),
        p <= t.len(),
    ensures
        r matches Some((_, q)) ==> p < q <= t.len(),
        e_res(r) === unary(tv, p as int),
    decreases t.len() - p, 3int,
{
    if at_tok(t, p, Token::Not) {
        match p_unary(t, Ghost(tv), p + 1) {
            Some((e, q)) => Some((Expr::Unary { op: UnaryOp::Not, operand: Box::new(e) }, q)),
            None => None,
        }
    } else if at_tok(t, p, Token::Minus) {
        match p_unary(t, Ghost(tv), p + 1) {
            Some((e, q)) => Some((Expr::Unary { op: UnaryOp::Neg, operand: Box::new(e) }, q)),
            None => None,
        }
    } else {
        p_postfix(t, Ghost(tv), p)
    }
}

#[verifier::spinoff_prover]
#[verifier::rlimit(100)]
fn p_postfix(t: &Vec<Token>, Ghost(tv): Ghost<Seq<TokenV>>, p: usize) -> (r: Option<(Expr, usize)>)
    requires
        tv == toks_view(t@),
        p <= t.len(),
    ensures
        r matches Some((_, q)) ==> p < q <= t.len(),
        e_res(r) === postfix(tv, p as int),
    decreases t.len() - p, 2int,
{
    match p_atom(t, Ghost(tv), p) {
        Some((a, q)) => if p <= q && q <= t.len() {
            Some(p_postfix_rest(t, Ghost(tv), q, a))
        } else {
            None
        },
        None => None,
    }
}

#[verifier::spinoff_prover]
#[verifier::rlimit(100)]
fn p_postfix_rest(t: &Vec<Token>, Ghost(tv): Ghost<Seq<TokenV>>, q: usize, acc: Expr) -> (r: (Expr, usize))
    requires
        tv == toks_view(t@),
        q <= t.len(),
    ensures
        q <= r.1 <= t.len(),
        e_pair(r) === postfix_rest(tv, q as int, expr_view(acc)),
    decreases t.len() - q, 0int,
{
    if at_tok(t, q, Token::LParen) {
        let (args, q2) = p_arg_list(t, Ghost(tv), q + 1);
        if at_tok(t, q2, Token::RParen) && q < q2 + 1 && q2 + 1 <= t.len() {
            p_postfix_rest(t, Ghost(tv), q2 + 1, Expr::Call { func: Box::new(acc), args })
        } else {
            (acc, q)
        }
    } else if at_tok(t, q, Token::Dot) {
        match any_name_exec(t, q + 1) {
            Some(f) => p_postfix_rest(
                t,
                Ghost(tv),
                q + 2,
                Expr::FieldAccess { object: Box::new(acc), field: f },
            ),
            None => (acc, q),
        }
    } else if at_tok(t, q, Token::Question) && at_tok(t, q + 1, Token::Dot) {
        match any_name_exec(t, q + 2) {
            Some(f) => p_postfix_rest(
                t,
                Ghost(tv),
                q + 3,
                Expr::OptionalChain { object: Box::new(acc), field: f },
            ),
            None => (acc, q),
        }
    } else if at_tok(t, q, Token::LBracket) {
        match parse_expr(t, Ghost(tv), q + 1) {
            Some((i, q2)) => if at_tok(t, q2, Token::RBracket) && q < q2 + 1 && q2 + 1 <= t.len() {
                p_postfix_rest(
                    t,
                    Ghost(tv),
                    q2 + 1,
                    Expr::IndexAccess { object: Box::new(acc), index: Box::new(i) },
                )
            } else {
                (acc, q)
            },
            None => (acc, q),
        }
    } else {
        (acc, q)
    }
}

#[verifier::spinoff_prover]
#[verifier::rlimit(100)]
fn p_call_arg(t: &Vec<Token>, Ghost(tv): Ghost<Seq<TokenV>>, p: usize) -> (r: Option<(CallArg, usize)>)
    requires
        tv == toks_view(t@),
        p <= t.len(),
    ensures
        r matches Some((_, q)) ==> p < q <= t.len(),
        match call_arg(tv, p as int) {
            Some((a, q)) => r matches Some((x, q2)) && q2 == q && arg_view(x) == a,
            None => r is None,
        },
    decreases t.len() - p, 10int,
{
    let n = ident_exec(t, p);
    if n.is_some() && at_tok(t, p + 1, Token::Colon) {
        match parse_expr(t, Ghost(tv), p + 2) {
            Some((v, q)) => Some((CallArg { name: n, value: v }, q)),
            None => None,
        }
    } else {
        match parse_expr(t, Ghost(tv), p) {
            Some((v, q)) => Some((CallArg { name: None, value: v }, q)),
            None => None,
        }
    }
}

#[verifier::spinoff_prover]
#[verifier::rlimit(100)]
fn p_arg_list(t: &Vec<Token>, Ghost(tv): Ghost<Seq<TokenV>>, p: usize) -> (r: (Vec<CallArg>, usize))
    requires
        tv == toks_view(t@),
        p <= t.len(),
    ensures
        p <= r.1 <= t.len(),
        (args_view(r.0@), r.1 as int) === arg_list(tv, p as int),
    decreases t.len() - p, 11int,
{
    match p_call_arg(t, Ghost(tv), p) {
        Some((a, q)) => if p < q && q <= t.len() {
            let mut v = Vec::new();
            v.push(a);
            proof {
                assert(v@.subrange(0, 0) =~= Seq::<CallArg>::empty());
                assert(args_view(Seq::<CallArg>::empty()) =~= Seq::<CallArgV>::empty());
                assert(args_view(v@) =~= seq![arg_view(a)]);
            }
            p_arg_list_rest(t, Ghost(tv), q, v)
        } else {
            (Vec::new(), p)
        },
        None => (Vec::new(), p),
    }
}

#[verifier::spinoff_prover]
#[verifier::rlimit(100)]
fn p_arg_list_rest(t: &Vec<Token>, Ghost(tv): Ghost<Seq<TokenV>>, q: usize, acc: Vec<CallArg>) -> (r: (Vec<CallArg>, usize))
    requires
        tv == toks_view(t@),
        q <= t.len(),
    ensures
        q <= r.1 <= t.len(),
        (args_view(r.0@), r.1 as int) === arg_list_rest(tv, q as int, args_view(acc@)),
    decreases t.len() - q, 0int,
{
    if at_tok(t, q, Token::Comma) {
        match p_call_arg(t, Ghost(tv), q + 1) {
            Some((a, q2)) => if q < q2 && q2 <= t.len() {
                let mut acc = acc;
                let ghost old_acc = acc@;
                acc.push(a);
                proof {
                    assert(acc@.subrange(0, acc@.len() - 1) =~= old_acc);
                }
                p_arg_list_rest(t, Ghost(tv), q2, acc)
            } else {
                (acc, q)
            },
            None => (acc, q + 1),
        }
    } else {
        (acc, q)
    }
}


#[verifier::spinoff_prover]
#[verifier::rlimit(100)]
fn p_literal(t: &Vec<Token>, p: usize) -> (r: Option<Expr>)
    ensures
        match literal(toks_view(t@), p as int) {
            Some(l) => r matches Some(x) && expr_view(x) == l,
            None => r is None,
        },
{
    if p >= t.len() {
        return None;
    }
    match &t[p] {
        Token::IntLiteral(n) => Some(Expr::Int(*n)),
        Token::FloatLiteral(s) => Some(Expr::Float(s.clone())),
        Token::StringLiteral(s) => Some(Expr::Str(s.clone())),
        Token::DurationSec(v) => Some(Expr::Duration(Duration { value: *v, unit: DurationUnit::Second })),
        Token::DurationMin(v) => Some(Expr::Duration(Duration { value: *v, unit: DurationUnit::Minute })),
        Token::DurationHour(v) => Some(Expr::Duration(Duration { value: *v, unit: DurationUnit::Hour })),
        Token::DurationDay(v) => Some(Expr::Duration(Duration { value: *v, unit: DurationUnit::Day })),
        Token::DurationWeek(v) => Some(Expr::Duration(Duration { value: *v, unit: DurationUnit::Week })),
        Token::True => Some(Expr::Bool(true)),
        Token::False => Some(Expr::Bool(false)),
        Token::Null => Some(Expr::Null),
        _ => None,
    }
}

#[verifier::spinoff_prover]
#[verifier::rlimit(100)]
fn p_expr_list(t: &Vec<Token>, Ghost(tv): Ghost<Seq<TokenV>>, p: usize) -> (r: (Vec<Expr>, usize))
    requires
        tv == toks_view(t@),
        p <= t.len(),
    ensures
        p <= r.1 <= t.len(),
        (exprs_view(r.0@), r.1 as int) === expr_list(tv, p as int),
    decreases t.len() - p, 10int,
{
    match parse_expr(t, Ghost(tv), p) {
        Some((e, q)) => if p < q && q <= t.len() {
            let mut v = Vec::new();
            v.push(e);
            proof {
                assert(v@.subrange(0, 0) =~= Seq::<Expr>::empty());
                assert(exprs_view(Seq::<Expr>::empty()) =~= Seq::<ExprV>::empty());
                assert(exprs_view(v@) =~= seq![expr_view(e)]);
            }
            p_expr_list_rest(t, Ghost(tv), q, v)
        } else {
            (Vec::new(), p)
        },
        None => (Vec::new(), p),
    }
}

#[verifier::spinoff_prover]
#[verifier::rlimit(100)]
fn p_expr_list_rest(t: &Vec<Token>, Ghost(tv): Ghost<Seq<TokenV>>, q: usize, acc: Vec<Expr>) -> (r: (Vec<Expr>, usize))
    requires
        tv == toks_view(t@),
        q <= t.len(),
    ensures
        q <= r.1 <= t.len(),
        (exprs_view(r.0@), r.1 as int) === expr_list_rest(tv, q as int, exprs_view(acc@)),
    decreases t.len() - q, 0int,
{
    if at_tok(t, q, Token::Comma) {
        match parse_expr(t, Ghost(tv), q + 1) {
            Some((e, q2)) => if q < q2 && q2 <= t.len() {
                let mut acc = acc;
                let ghost old_acc = acc@;
                acc.push(e);
                proof {
                    assert(acc@.subrange(0, acc@.len() - 1) =~= old_acc);
                }
                p_expr_list_rest(t, Ghost(tv), q2, acc)
            } else {
                (acc, q)
            },
            None => (acc, q + 1),
        }
    } else {
        (acc, q)
    }
}

#[verifier::spinoff_prover]
#[verifier::rlimit(100)]
fn p_field_init(t: &Vec<Token>, Ghost(tv): Ghost<Seq<TokenV>>, p: usize) -> (r: Option<(FieldInit, usize)>)
    requires
        tv == toks_view(t@),
        p <= t.len(),
    ensures
        r matches Some((_, q)) ==> p < q <= t.len(),
        match field_init(tv, p as int) {
            Some((f, q)) => r matches Some((x, q2)) && q2 == q && finit_view(x) == f,
            None => r is None,
        },
    decreases t.len() - p, 0int,
{
    let n = ident_exec(t, p);
    if n.is_some() && at_tok(t, p + 1, Token::Colon) {
        match parse_expr(t, Ghost(tv), p + 2) {
            Some((v, q)) => Some((FieldInit { name: n.unwrap(), value: v }, q)),
            None => None,
        }
    } else {
        None
    }
}

#[verifier::spinoff_prover]
#[verifier::rlimit(100)]
fn p_field_list(t: &Vec<Token>, Ghost(tv): Ghost<Seq<TokenV>>, p: usize) -> (r: (Vec<FieldInit>, usize))
    requires
        tv == toks_view(t@),
        p <= t.len(),
    ensures
        p <= r.1 <= t.len(),
        (finits_view(r.0@), r.1 as int) === field_list(tv, p as int),
    decreases t.len() - p, 1int,
{
    match p_field_init(t, Ghost(tv), p) {
        Some((f, q)) => if p < q && q <= t.len() {
            let mut v = Vec::new();
            v.push(f);
            proof {
                assert(v@.subrange(0, 0) =~= Seq::<FieldInit>::empty());
                assert(finits_view(Seq::<FieldInit>::empty()) =~= Seq::<FieldInitV>::empty());
                assert(finits_view(v@) =~= seq![finit_view(f)]);
            }
            p_field_list_rest(t, Ghost(tv), q, v)
        } else {
            (Vec::new(), p)
        },
        None => (Vec::new(), p),
    }
}

#[verifier::spinoff_prover]
#[verifier::rlimit(100)]
fn p_field_list_rest(t: &Vec<Token>, Ghost(tv): Ghost<Seq<TokenV>>, q: usize, acc: Vec<FieldInit>) -> (r: (Vec<FieldInit>, usize))
    requires
        tv == toks_view(t@),
        q <= t.len(),
    ensures
        q <= r.1 <= t.len(),
        (finits_view(r.0@), r.1 as int) === field_list_rest(tv, q as int, finits_view(acc@)),
    decreases t.len() - q, 0int,
{
    if at_tok(t, q, Token::Comma) {
        match p_field_init(t, Ghost(tv), q + 1) {
            Some((f, q2)) => if q < q2 && q2 <= t.len() {
                let mut acc = acc;
                let ghost old_acc = acc@;
                acc.push(f);
                proof {
                    assert(acc@.subrange(0, acc@.len() - 1) =~= old_acc);
                }
                p_field_list_rest(t, Ghost(tv), q2, acc)
            } else {
                (acc, q)
            },
            None => (acc, q + 1),
        }
    } else {
        (acc, q)
    }
}

#[verifier::spinoff_prover]
#[verifier::rlimit(100)]
fn p_ident_list_rest(t: &Vec<Token>, Ghost(tv): Ghost<Seq<TokenV>>, q: usize, acc: Vec<String>) -> (r: (Vec<String>, usize))
    requires
        tv == toks_view(t@),
        q <= t.len(),
    ensures
        q <= r.1 <= t.len(),
        (strs_view(r.0@), r.1 as int) === ident_list_rest(tv, q as int, strs_view(acc@)),
        q <= r.1 <= t.len(),
    decreases t.len() - q,
{
    if at_tok(t, q, Token::Comma) {
        match ident_exec(t, q + 1) {
            Some(n) => {
                let mut acc = acc;
                let ghost old_acc = acc@;
                acc.push(n);
                proof {
                    assert(strs_view(acc@) =~= strs_view(old_acc).push(n@));
                }
                p_ident_list_rest(t, Ghost(tv), q + 2, acc)
            },
            None => (acc, q),
        }
    } else {
        (acc, q)
    }
}

#[verifier::spinoff_prover]
#[verifier::rlimit(100)]
fn p_ident_list(t: &Vec<Token>, Ghost(tv): Ghost<Seq<TokenV>>, p: usize) -> (r: (Vec<String>, usize))
    requires
        tv == toks_view(t@),
        p <= t.len(),
    ensures
        p <= r.1 <= t.len(),
        (strs_view(r.0@), r.1 as int) === ident_list(tv, p as int),
        p <= r.1 <= t.len(),
{
    match ident_exec(t, p) {
        Some(n) => {
            let mut v = Vec::new();
            v.push(n);
            proof {
                assert(strs_view(v@) =~= seq![n@]);
            }
            p_ident_list_rest(t, Ghost(tv), p + 1, v)
        },
        None => (Vec::new(), p),
    }
}

#[verifier::spinoff_prover]
#[verifier::rlimit(100)]
fn p_name_list_rest(t: &Vec<Token>, Ghost(tv): Ghost<Seq<TokenV>>, q: usize, acc: Vec<String>) -> (r: (Vec<String>, usize))
    requires
        tv == toks_view(t@),
        q <= t.len(),
    ensures
        q <= r.1 <= t.len(),
        (strs_view(r.0@), r.1 as int) === name_list_rest(tv, q as int, strs_view(acc@)),
        q <= r.1 <= t.len(),
    decreases t.len() - q,
{
    if at_tok(t, q, Token::Comma) {
        match any_name_exec(t, q + 1) {
            Some(n) => {
                let mut acc = acc;
                let ghost old_acc = acc@;
                acc.push(n);
                proof {
                    assert(strs_view(acc@) =~= strs_view(old_acc).push(n@));
                }
                p_name_list_rest(t, Ghost(tv), q + 2, acc)
            },
            None => (acc, q),
        }
    } else {
        (acc, q)
    }
}

#[verifier::spinoff_prover]
#[verifier::rlimit(100)]
fn p_name_list(t: &Vec<Token>, Ghost(tv): Ghost<Seq<TokenV>>, p: usize) -> (r: Option<(Vec<String>, usize)>)
    requires
        tv == toks_view(t@),
        p <= t.len(),
    ensures
        r matches Some((_, q)) ==> p < q <= t.len(),
        match name_list(tv, p as int) {
            Some((ns, q)) => r matches Some((x, q2)) && q2 == q && strs_view(x@) == ns && q2 <= t.len(),
            None => r is None,
        },
{
    match any_name_exec(t, p) {
        Some(n) => {
            let mut v = Vec::new();
            v.push(n);
            proof {
                assert(strs_view(v@) =~= seq![n@]);
            }
            Some(p_name_list_rest(t, Ghost(tv), p + 1, v))
        },
        None => None,
    }
}

pub open spec fn qb_res(r: Option<(QueryBody, usize)>) -> Option<(QueryBodyV, int)> {
    match r {
        Some((b, q)) => Some((qbody_view(b), q as int)),
        None => None,
    }
}

/// Parses a query body at `p` (see [`query_body`]).
#[verifier::spinoff_prover]
#[verifier::rlimit(100)]
pub(crate) fn parse_query_body(t: &Vec<Token>, Ghost(tv): Ghost<Seq<TokenV>>, p: usize) -> (r: Option<(QueryBody, usize)>)
    requires
        tv == toks_view(t@),
        p <= t.len(),
    ensures
        r matches Some((_, q)) ==> p < q <= t.len(),
        qb_res(r) === query_body(tv, p as int),
    decreases t.len() - p, 0int,
{
    if !at_tok(t, p, Token::From) {
        return None;
    }
    match p_name_list(t, Ghost(tv), p + 1) {
        Some((from, q1)) => {
            let (wh, q2) = if at_tok(t, q1, Token::Where) && q1 > p {
                match parse_expr(t, Ghost(tv), q1 + 1) {
                    Some((w, q)) => (Some(w), q),
                    None => (None, q1),
                }
            } else {
                (None, q1)
            };
            let (ob, q3) = if at_tok(t, q2, Token::Order) && at_tok(t, q2 + 1, Token::By) && q2 > p {
                match parse_expr(t, Ghost(tv), q2 + 2) {
                    Some((e, q)) => if at_tok(t, q, Token::Asc) {
                        (Some(OrderByClause { expr: e, direction: SortDir::Asc }), q + 1)
                    } else if at_tok(t, q, Token::Desc) {
                        (Some(OrderByClause { expr: e, direction: SortDir::Desc }), q + 1)
                    } else {
                        (Some(OrderByClause { expr: e, direction: SortDir::Asc }), q)
                    },
                    None => (None, q2),
                }
            } else {
                (None, q2)
            };
            let (lim, q4) = if at_tok(t, q3, Token::Limit) && q3 > p {
                match parse_expr(t, Ghost(tv), q3 + 1) {
                    Some((l, q)) => (Some(l), q),
                    None => (None, q3),
                }
            } else {
                (None, q3)
            };
            Some((QueryBody { from, where_clause: wh, order_by: ob, limit: lim }, q4))
        },
        None => None,
    }
}


#[verifier::spinoff_prover]
#[verifier::rlimit(100)]
fn p_multi_lambda(t: &Vec<Token>, Ghost(tv): Ghost<Seq<TokenV>>, p: usize) -> (r: Option<(Expr, usize)>)
    requires
        tv == toks_view(t@),
        p <= t.len(),
    ensures
        r matches Some((_, q)) ==> p < q <= t.len(),
        e_res(r) === multi_lambda(tv, p as int),
    decreases t.len() - p, 0int,
{
    if !at_tok(t, p, Token::LParen) {
        return None;
    }
    let (ps, q) = p_ident_list(t, Ghost(tv), p + 1);
    if at_tok(t, q, Token::RParen) && at_tok(t, q + 1, Token::FatArrow) && q > p {
        match parse_expr(t, Ghost(tv), q + 2) {
            Some((b, q2)) => Some((Expr::Lambda { params: ps, body: Box::new(b) }, q2)),
            None => None,
        }
    } else {
        None
    }
}

#[verifier::spinoff_prover]
#[verifier::rlimit(100)]
fn p_single_lambda(t: &Vec<Token>, Ghost(tv): Ghost<Seq<TokenV>>, p: usize) -> (r: Option<(Expr, usize)>)
    requires
        tv == toks_view(t@),
        p <= t.len(),
    ensures
        r matches Some((_, q)) ==> p < q <= t.len(),
        e_res(r) === single_lambda(tv, p as int),
    decreases t.len() - p, 0int,
{
    let n = ident_exec(t, p);
    if n.is_some() && at_tok(t, p + 1, Token::FatArrow) {
        match parse_expr(t, Ghost(tv), p + 2) {
            Some((b, q)) => {
                let mut ps = Vec::new();
                ps.push(n.unwrap());
                proof {
                    assert(strs_view(ps@) =~= seq![ident_at(tv, p as int)->0]);
                }
                Some((Expr::Lambda { params: ps, body: Box::new(b) }, q))
            },
            None => None,
        }
    } else {
        None
    }
}

#[verifier::spinoff_prover]
#[verifier::rlimit(100)]
fn p_array_lit(t: &Vec<Token>, Ghost(tv): Ghost<Seq<TokenV>>, p: usize) -> (r: Option<(Expr, usize)>)
    requires
        tv == toks_view(t@),
        p <= t.len(),
    ensures
        r matches Some((_, q)) ==> p < q <= t.len(),
        e_res(r) === array_lit(tv, p as int),
    decreases t.len() - p, 0int,
{
    if !at_tok(t, p, Token::LBracket) {
        return None;
    }
    let (es, q) = p_expr_list(t, Ghost(tv), p + 1);
    if at_tok(t, q, Token::RBracket) {
        Some((Expr::Array(es), q + 1))
    } else {
        None
    }
}

#[verifier::spinoff_prover]
#[verifier::rlimit(100)]
fn p_struct_init(t: &Vec<Token>, Ghost(tv): Ghost<Seq<TokenV>>, p: usize) -> (r: Option<(Expr, usize)>)
    requires
        tv == toks_view(t@),
        p <= t.len(),
    ensures
        r matches Some((_, q)) ==> p < q <= t.len(),
        e_res(r) === struct_init(tv, p as int),
    decreases t.len() - p, 0int,
{
    let n = ident_exec(t, p);
    if n.is_some() && at_tok(t, p + 1, Token::LBrace) {
        let (fs, q) = p_field_list(t, Ghost(tv), p + 2);
        if at_tok(t, q, Token::RBrace) {
            Some((Expr::StructInit { name: n.unwrap(), fields: fs }, q + 1))
        } else {
            None
        }
    } else {
        None
    }
}

#[verifier::spinoff_prover]
#[verifier::rlimit(100)]
fn p_grouped(t: &Vec<Token>, Ghost(tv): Ghost<Seq<TokenV>>, p: usize) -> (r: Option<(Expr, usize)>)
    requires
        tv == toks_view(t@),
        p <= t.len(),
    ensures
        r matches Some((_, q)) ==> p < q <= t.len(),
        e_res(r) === grouped(tv, p as int),
    decreases t.len() - p, 0int,
{
    if !at_tok(t, p, Token::LParen) {
        return None;
    }
    match parse_expr(t, Ghost(tv), p + 1) {
        Some((e, q)) => if at_tok(t, q, Token::RParen) {
            Some((e, q + 1))
        } else {
            None
        },
        None => None,
    }
}

#[verifier::spinoff_prover]
#[verifier::rlimit(100)]
fn p_atom(t: &Vec<Token>, Ghost(tv): Ghost<Seq<TokenV>>, p: usize) -> (r: Option<(Expr, usize)>)
    requires
        tv == toks_view(t@),
        p <= t.len(),
    ensures
        r matches Some((_, q)) ==> p < q <= t.len(),
        e_res(r) === atom(tv, p as int),
    decreases t.len() - p, 1int,
{
    if let Some(l) = p_literal(t, p) {
        return Some((l, p + 1));
    }
    if let Some(x) = p_multi_lambda(t, Ghost(tv), p) {
        return Some(x);
    }
    if let Some(x) = p_single_lambda(t, Ghost(tv), p) {
        return Some(x);
    }
    if let Some(x) = p_array_lit(t, Ghost(tv), p) {
        return Some(x);
    }
    if let Some((qb, q)) = parse_query_body(t, Ghost(tv), p) {
        return Some((Expr::InlineQuery(Box::new(qb)), q));
    }
    if let Some(x) = p_struct_init(t, Ghost(tv), p) {
        return Some(x);
    }
    if let Some(x) = p_grouped(t, Ghost(tv), p) {
        return Some(x);
    }
    match any_name_exec(t, p) {
        Some(n) => Some((Expr::Ident(n), p + 1)),
        None => None,
    }
}


// ───────────────────────────── programs ─────────────────────────────

/// The tokens of `s`, as the lexer models them.
pub open spec fn source_tokens(s: Seq<char>) -> Seq<TokenV> {
    lex(s).map_values(|e: (TokenV, int, int)| e.0)
}

/// The message of a parse error whose first unparsed token is at `q`.
pub open spec fn parse_error_message(q: nat) -> Seq<char> {
    "unexpected token at index "@ + nat_text(q)
}

/// The items of a whole program (see [`program`]).
pub open spec fn parse_result(s: Seq<char>) -> Option<Seq<ItemV>> {
    program(source_tokens(s))
}

/// The index of the first token that the program's items leave unparsed.
pub open spec fn parse_stop(s: Seq<char>) -> int {
    top_items(source_tokens(s), 0, Seq::empty()).1
}

/// Parses a whole source text: the items of the program, or a parse error that
/// names the first token that no item accounts for.
pub fn parse(source: &str) -> (r: Result<Program, SynapseError>)
    requires
        lexable(source@),
    ensures
        match parse_result(source@) {
            Some(xs) => r matches Ok(prog) && prog@ == xs,
            None => r matches Err(SynapseError::Parse(m)) && m@ == parse_error_message(
                parse_stop(source@) as nat,
            ),
        },
{
    let mut pairs = tokenize(source);
    let ghost lx = lex(source@);
    let ghost n = pairs.len() as int;
    let mut rev: Vec<Token> = Vec::new();
    while pairs.len() > 0
        invariant
            pairs.len() + rev.len() == n,
            n == lx.len(),
            forall|k: int| 0 <= k < pairs.len() ==> token_view(#[trigger] pairs@[k].0) == lx[k].0,
            forall|j: int| 0 <= j < rev.len() ==> token_view(#[trigger] rev@[j]) == lx[n - 1 - j].0,
        decreases pairs.len(),
    {
        match pairs.pop() {
            Some((tok, _)) => rev.push(tok),
            None => {},
        }
    }
    let mut toks: Vec<Token> = Vec::new();
    while rev.len() > 0
        invariant
            toks.len() + rev.len() == n,
            n == lx.len(),
            forall|j: int| 0 <= j < rev.len() ==> token_view(#[trigger] rev@[j]) == lx[n - 1 - j].0,
            forall|k: int| 0 <= k < toks.len() ==> token_view(#[trigger] toks@[k]) == lx[k].0,
        decreases rev.len(),
    {
        match rev.pop() {
            Some(tok) => toks.push(tok),
            None => {},
        }
    }
    let ghost tv = toks_view(toks@);
    assert(tv =~= source_tokens(source@));
    let (xs, q) = p_top_items(&toks, Ghost(tv), 0, Vec::new());
    assert(items_view(Seq::<Item>::empty()) =~= Seq::<ItemV>::empty());
    if q == toks.len() {
        Ok(Program { items: xs })
    } else {
        let mut m = String::from_str("unexpected token at index ");
        push_u64_text(&mut m, q as u64);
        Err(SynapseError::Parse(m))
    }
}

} // verus!
