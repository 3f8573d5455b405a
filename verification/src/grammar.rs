//! The grammar of the language, as a deterministic parsing function over the
//! model of a token sequence. Alternatives are tried in order and the first
//! that succeeds is taken; repetitions take as many elements as succeed; a
//! failed attempt consumes nothing. A whole program must consume every token.
use vstd::prelude::*;
use crate::ast::{
    ConfigEntryV, ConfigValueV, DecoratorV, FieldDefV, ItemV, UpdateRuleV,
    BinOp, CallArgV, Duration, ExprV, FieldInitV, OrderByV, ParamV, QueryBodyV, SortDir, StmtV,
    UnaryOp,
};
use crate::lexer::{Token, TokenV, token_view};
use crate::text::int_text;
use crate::types::TypeV;

verus! {

pub open spec fn toks_view(t: Seq<Token>) -> Seq<TokenV> {
    t.map_values(|x: Token| token_view(x))
}

pub open spec fn tk(t: Seq<TokenV>, p: int) -> Option<TokenV> {
    if 0 <= p < t.len() {
        Some(t[p])
    } else {
        None
    }
}

pub open spec fn is_tok(t: Seq<TokenV>, p: int, k: Token) -> bool {
    tk(t, p) == Some(TokenV::Fixed(k))
}

pub open spec fn ident_at(t: Seq<TokenV>, p: int) -> Option<Seq<char>> {
    match tk(t, p) {
        Some(TokenV::Ident(s)) => Some(s),
        _ => None,
    }
}

/// Words that are keywords but may still stand where a name is expected.
pub open spec fn keyword_name(k: Token) -> Option<Seq<char>> {
    match k {
        Token::TyString => Some(seq!['s', 't', 'r', 'i', 'n', 'g']),
        Token::TyInt => Some(seq!['i', 'n', 't']),
        Token::TyFloat => Some(seq!['f', 'l', 'o', 'a', 't']),
        Token::TyBool => Some(seq!['b', 'o', 'o', 'l']),
        Token::TyTimestamp => Some(seq!['t', 'i', 'm', 'e', 's', 't', 'a', 'm', 'p']),
        Token::Memory => Some(seq!['m', 'e', 'm', 'o', 'r', 'y']),
        Token::Query => Some(seq!['q', 'u', 'e', 'r', 'y']),
        Token::Update => Some(seq!['u', 'p', 'd', 'a', 't', 'e']),
        Token::From => Some(seq!['f', 'r', 'o', 'm']),
        Token::Where => Some(seq!['w', 'h', 'e', 'r', 'e']),
        Token::Order => Some(seq!['o', 'r', 'd', 'e', 'r']),
        Token::Limit => Some(seq!['l', 'i', 'm', 'i', 't']),
        Token::Policy => Some(seq!['p', 'o', 'l', 'i', 'c', 'y']),
        _ => None,
    }
}

/// A name: an identifier or one of the keywords of [`keyword_name`].
pub open spec fn any_name_at(t: Seq<TokenV>, p: int) -> Option<Seq<char>> {
    match tk(t, p) {
        Some(TokenV::Ident(s)) => Some(s),
        Some(TokenV::Fixed(k)) => keyword_name(k),
        _ => None,
    }
}

/// `q` lies strictly after `p`, within the tokens.
pub open spec fn adv(p: int, q: int, n: int) -> bool {
    p < q <= n
}

/// `q` lies at or after `p`, within the tokens.
pub open spec fn fwd(p: int, q: int, n: int) -> bool {
    p <= q <= n
}

// ───────────────────────────── types ─────────────────────────────

pub open spec fn num_text(t: Seq<TokenV>, p: int) -> Option<Seq<char>> {
    match tk(t, p) {
        Some(TokenV::Float(s)) => Some(s),
        Some(TokenV::Int(n)) => Some(int_text(n)),
        _ => None,
    }
}

/// `[min, max]` after `float`.
pub open spec fn float_bounds(t: Seq<TokenV>, p: int) -> Option<(Seq<char>, Seq<char>, int)> {
    if is_tok(t, p, Token::LBracket) && num_text(t, p + 1) is Some && is_tok(t, p + 2, Token::Comma)
        && num_text(t, p + 3) is Some && is_tok(t, p + 4, Token::RBracket) {
        Some((num_text(t, p + 1)->0, num_text(t, p + 3)->0, p + 5))
    } else {
        None
    }
}

pub open spec fn type_base(t: Seq<TokenV>, p: int) -> Option<(TypeV, int)> {
    if is_tok(t, p, Token::TyString) {
        Some((TypeV::String, p + 1))
    } else if is_tok(t, p, Token::TyInt) {
        Some((TypeV::Int, p + 1))
    } else if is_tok(t, p, Token::TyBool) {
        Some((TypeV::Bool, p + 1))
    } else if is_tok(t, p, Token::TyTimestamp) {
        Some((TypeV::Timestamp, p + 1))
    } else if is_tok(t, p, Token::TyFloat) {
        match float_bounds(t, p + 1) {
            Some((a, b, q)) => Some((TypeV::BoundedFloat { min: a, max: b }, q)),
            None => Some((TypeV::Float, p + 1)),
        }
    } else {
        match ident_at(t, p) {
            Some(n) => Some((TypeV::Named(n), p + 1)),
            None => None,
        }
    }
}

/// Trailing `?` and `[]` modifiers, applied left to right.
pub open spec fn type_mods(t: Seq<TokenV>, q: int, ty: TypeV) -> (TypeV, int)
    decreases t.len() - q,
{
    if is_tok(t, q, Token::Question) {
        type_mods(t, q + 1, TypeV::Optional(Box::new(ty)))
    } else if is_tok(t, q, Token::LBracket) && is_tok(t, q + 1, Token::RBracket) {
        type_mods(t, q + 2, TypeV::Array(Box::new(ty)))
    } else {
        (ty, q)
    }
}

pub open spec fn parse_type(t: Seq<TokenV>, p: int) -> Option<(TypeV, int)> {
    match type_base(t, p) {
        Some((b, q)) => Some(type_mods(t, q, b)),
        None => None,
    }
}

pub open spec fn param(t: Seq<TokenV>, p: int) -> Option<(ParamV, int)> {
    match any_name_at(t, p) {
        Some(n) => if is_tok(t, p + 1, Token::Colon) {
            match parse_type(t, p + 2) {
                Some((ty, q)) => Some((ParamV { name: n, ty }, q)),
                None => None,
            }
        } else {
            None
        },
        None => None,
    }
}

pub open spec fn params_rest(t: Seq<TokenV>, q: int, acc: Seq<ParamV>) -> (Seq<ParamV>, int)
    decreases t.len() - q,
{
    if is_tok(t, q, Token::Comma) {
        match param(t, q + 1) {
            Some((x, q2)) => if adv(q, q2, t.len() as int) {
                params_rest(t, q2, acc.push(x))
            } else {
                (acc, q)
            },
            None => (acc, q + 1),
        }
    } else {
        (acc, q)
    }
}

/// A comma-separated parameter list (possibly empty, trailing comma allowed).
pub open spec fn params(t: Seq<TokenV>, p: int) -> (Seq<ParamV>, int) {
    match param(t, p) {
        Some((x, q)) => if adv(p, q, t.len() as int) {
            params_rest(t, q, seq![x])
        } else {
            (Seq::empty(), p)
        },
        None => (Seq::empty(), p),
    }
}

pub open spec fn duration_at(t: Seq<TokenV>, p: int) -> Option<Duration> {
    match tk(t, p) {
        Some(TokenV::Dur(u, n)) => Some(Duration { value: n as u64, unit: u }),
        _ => None,
    }
}

// ───────────────────────────── name lists ─────────────────────────────

pub open spec fn ident_list_rest(t: Seq<TokenV>, q: int, acc: Seq<Seq<char>>) -> (
    Seq<Seq<char>>,
    int,
)
    decreases t.len() - q,
{
    if is_tok(t, q, Token::Comma) && ident_at(t, q + 1) is Some {
        ident_list_rest(t, q + 2, acc.push(ident_at(t, q + 1)->0))
    } else {
        (acc, q)
    }
}

/// Comma-separated identifiers (possibly none, no trailing comma).
pub open spec fn ident_list(t: Seq<TokenV>, p: int) -> (Seq<Seq<char>>, int) {
    match ident_at(t, p) {
        Some(n) => ident_list_rest(t, p + 1, seq![n]),
        None => (Seq::empty(), p),
    }
}

pub open spec fn name_list_rest(t: Seq<TokenV>, q: int, acc: Seq<Seq<char>>) -> (
    Seq<Seq<char>>,
    int,
)
    decreases t.len() - q,
{
    if is_tok(t, q, Token::Comma) && any_name_at(t, q + 1) is Some {
        name_list_rest(t, q + 2, acc.push(any_name_at(t, q + 1)->0))
    } else {
        (acc, q)
    }
}

/// One or more comma-separated names (no trailing comma).
pub open spec fn name_list(t: Seq<TokenV>, p: int) -> Option<(Seq<Seq<char>>, int)> {
    match any_name_at(t, p) {
        Some(n) => Some(name_list_rest(t, p + 1, seq![n])),
        None => None,
    }
}

// ───────────────────────────── expressions ─────────────────────────────

pub open spec fn literal(t: Seq<TokenV>, p: int) -> Option<ExprV> {
    match tk(t, p) {
        Some(TokenV::Int(n)) => Some(ExprV::Int(n as i64)),
        Some(TokenV::Float(s)) => Some(ExprV::Float(s)),
        Some(TokenV::Str(s)) => Some(ExprV::Str(s)),
        Some(TokenV::Dur(u, n)) => Some(ExprV::Duration(Duration { value: n as u64, unit: u })),
        Some(TokenV::Fixed(Token::True)) => Some(ExprV::Bool(true)),
        Some(TokenV::Fixed(Token::False)) => Some(ExprV::Bool(false)),
        Some(TokenV::Fixed(Token::Null)) => Some(ExprV::Null),
        _ => None,
    }
}

pub open spec fn mul_op(t: Seq<TokenV>, q: int) -> Option<BinOp> {
    if is_tok(t, q, Token::Star) {
        Some(BinOp::Mul)
    } else if is_tok(t, q, Token::Slash) {
        Some(BinOp::Div)
    } else if is_tok(t, q, Token::Percent) {
        Some(BinOp::Mod)
    } else {
        None
    }
}

pub open spec fn add_op(t: Seq<TokenV>, q: int) -> Option<BinOp> {
    if is_tok(t, q, Token::Plus) {
        Some(BinOp::Add)
    } else if is_tok(t, q, Token::Minus) {
        Some(BinOp::Sub)
    } else {
        None
    }
}

pub open spec fn rel_op(t: Seq<TokenV>, q: int) -> Option<BinOp> {
    if is_tok(t, q, Token::EqEq) {
        Some(BinOp::Eq)
    } else if is_tok(t, q, Token::BangEq) {
        Some(BinOp::Ne)
    } else if is_tok(t, q, Token::LtEq) {
        Some(BinOp::Le)
    } else if is_tok(t, q, Token::Lt) {
        Some(BinOp::Lt)
    } else if is_tok(t, q, Token::GtEq) {
        Some(BinOp::Ge)
    } else if is_tok(t, q, Token::Gt) {
        Some(BinOp::Gt)
    } else {
        None
    }
}

pub open spec fn bin(l: ExprV, op: BinOp, r: ExprV) -> ExprV {
    ExprV::Binary { left: Box::new(l), op, right: Box::new(r) }
}

/// A full expression: or-expressions chained with `|>`.
pub open spec fn expr(t: Seq<TokenV>, p: int) -> Option<(ExprV, int)>
    decreases t.len() - p, 9int,
{
    match or_e(t, p) {
        Some((l, q)) => if fwd(p, q, t.len() as int) {
            Some(pipe_rest(t, q, l))
        } else {
            None
        },
        None => None,
    }
}

pub open spec fn pipe_rest(t: Seq<TokenV>, q: int, acc: ExprV) -> (ExprV, int)
    decreases t.len() - q, 0int,
{
    if is_tok(t, q, Token::PipeArrow) {
        match or_e(t, q + 1) {
            Some((r, q2)) => if adv(q, q2, t.len() as int) {
                pipe_rest(t, q2, ExprV::Pipe { left: Box::new(acc), right: Box::new(r) })
            } else {
                (acc, q)
            },
            None => (acc, q),
        }
    } else {
        (acc, q)
    }
}

pub open spec fn or_e(t: Seq<TokenV>, p: int) -> Option<(ExprV, int)>
    decreases t.len() - p, 8int,
{
    match and_e(t, p) {
        Some((l, q)) => if fwd(p, q, t.len() as int) {
            Some(or_rest(t, q, l))
        } else {
            None
        },
        None => None,
    }
}

pub open spec fn or_rest(t: Seq<TokenV>, q: int, acc: ExprV) -> (ExprV, int)
    decreases t.len() - q, 0int,
{
    if is_tok(t, q, Token::Or) {
        match and_e(t, q + 1) {
            Some((r, q2)) => if adv(q, q2, t.len() as int) {
                or_rest(t, q2, bin(acc, BinOp::Or, r))
            } else {
                (acc, q)
            },
            None => (acc, q),
        }
    } else {
        (acc, q)
    }
}

pub open spec fn and_e(t: Seq<TokenV>, p: int) -> Option<(ExprV, int)>
    decreases t.len() - p, 7int,
{
    match rel_e(t, p) {
        Some((l, q)) => if fwd(p, q, t.len() as int) {
            Some(and_rest(t, q, l))
        } else {
            None
        },
        None => None,
    }
}

pub open spec fn and_rest(t: Seq<TokenV>, q: int, acc: ExprV) -> (ExprV, int)
    decreases t.len() - q, 0int,
{
    if is_tok(t, q, Token::And) {
        match rel_e(t, q + 1) {
            Some((r, q2)) => if adv(q, q2, t.len() as int) {
                and_rest(t, q2, bin(acc, BinOp::And, r))
            } else {
                (acc, q)
            },
            None => (acc, q),
        }
    } else {
        (acc, q)
    }
}

pub open spec fn rel_e(t: Seq<TokenV>, p: int) -> Option<(ExprV, int)>
    decreases t.len() - p, 6int,
{
    match add_e(t, p) {
        Some((l, q)) => if fwd(p, q, t.len() as int) {
            Some(rel_rest(t, q, l))
        } else {
            None
        },
        None => None,
    }
}

pub open spec fn rel_rest(t: Seq<TokenV>, q: int, acc: ExprV) -> (ExprV, int)
    decreases t.len() - q, 0int,
{
    match rel_op(t, q) {
        Some(op) => match add_e(t, q + 1) {
            Some((r, q2)) => if adv(q, q2, t.len() as int) {
                rel_rest(t, q2, bin(acc, op, r))
            } else {
                (acc, q)
            },
            None => (acc, q),
        },
        None => (acc, q),
    }
}

pub open spec fn add_e(t: Seq<TokenV>, p: int) -> Option<(ExprV, int)>
    decreases t.len() - p, 5int,
{
    match mul_e(t, p) {
        Some((l, q)) => if fwd(p, q, t.len() as int) {
            Some(add_rest(t, q, l))
        } else {
            None
        },
        None => None,
    }
}

pub open spec fn add_rest(t: Seq<TokenV>, q: int, acc: ExprV) -> (ExprV, int)
    decreases t.len() - q, 0int,
{
    match add_op(t, q) {
        Some(op) => match mul_e(t, q + 1) {
            Some((r, q2)) => if adv(q, q2, t.len() as int) {
                add_rest(t, q2, bin(acc, op, r))
            } else {
                (acc, q)
            },
            None => (acc, q),
        },
        None => (acc, q),
    }
}

pub open spec fn mul_e(t: Seq<TokenV>, p: int) -> Option<(ExprV, int)>
    decreases t.len() - p, 4int,
{
    match unary(t, p) {
        Some((l, q)) => if fwd(p, q, t.len() as int) {
            Some(mul_rest(t, q, l))
        } else {
            None
        },
        None => None,
    }
}

pub open spec fn mul_rest(t: Seq<TokenV>, q: int, acc: ExprV) -> (ExprV, int)
    decreases t.len() - q, 0int,
{
    match mul_op(t, q) {
        Some(op) => match unary(t, q + 1) {
            Some((r, q2)) => if adv(q, q2, t.len() as int) {
                mul_rest(t, q2, bin(acc, op, r))
            } else {
                (acc, q)
            },
            None => (acc, q),
        },
        None => (acc, q),
    }
}

/// Prefix `not` and `-`, then a postfix expression.
pub open spec fn unary(t: Seq<TokenV>, p: int) -> Option<(ExprV, int)>
    decreases t.len() - p, 3int,
{
    if is_tok(t, p, Token::Not) {
        match unary(t, p + 1) {
            Some((e, q)) => Some((ExprV::Unary { op: UnaryOp::Not, operand: Box::new(e) }, q)),
            None => None,
        }
    } else if is_tok(t, p, Token::Minus) {
        match unary(t, p + 1) {
            Some((e, q)) => Some((ExprV::Unary { op: UnaryOp::Neg, operand: Box::new(e) }, q)),
            None => None,
        }
    } else {
        postfix(t, p)
    }
}

/// An atom followed by calls `(..)`, fields `.f`, optional fields `?.f` and indexing `[..]`.
pub open spec fn postfix(t: Seq<TokenV>, p: int) -> Option<(ExprV, int)>
    decreases t.len() - p, 2int,
{
    match atom(t, p) {
        Some((a, q)) => if fwd(p, q, t.len() as int) {
            Some(postfix_rest(t, q, a))
        } else {
            None
        },
        None => None,
    }
}

pub open spec fn postfix_rest(t: Seq<TokenV>, q: int, acc: ExprV) -> (ExprV, int)
    decreases t.len() - q, 0int,
{
    if is_tok(t, q, Token::LParen) {
        let (args, q2) = arg_list(t, q + 1);
        if is_tok(t, q2, Token::RParen) && adv(q, q2 + 1, t.len() as int) {
            postfix_rest(t, q2 + 1, ExprV::Call { func: Box::new(acc), args })
        } else {
            (acc, q)
        }
    } else if is_tok(t, q, Token::Dot) {
        match any_name_at(t, q + 1) {
            Some(f) => postfix_rest(t, q + 2, ExprV::FieldAccess { object: Box::new(acc), field: f }),
            None => (acc, q),
        }
    } else if is_tok(t, q, Token::Question) && is_tok(t, q + 1, Token::Dot) {
        match any_name_at(t, q + 2) {
            Some(f) => postfix_rest(
                t,
                q + 3,
                ExprV::OptionalChain { object: Box::new(acc), field: f },
            ),
            None => (acc, q),
        }
    } else if is_tok(t, q, Token::LBracket) {
        match expr(t, q + 1) {
            Some((i, q2)) => if is_tok(t, q2, Token::RBracket) && adv(q, q2 + 1, t.len() as int) {
                postfix_rest(
                    t,
                    q2 + 1,
                    ExprV::IndexAccess { object: Box::new(acc), index: Box::new(i) },
                )
            } else {
                (acc, q)
            },
            None => (acc, q),
        }
    } else {
        (acc, q)
    }
}

/// One call argument: an optional `name:` and an expression.
pub open spec fn call_arg(t: Seq<TokenV>, p: int) -> Option<(CallArgV, int)>
    decreases t.len() - p, 10int,
{
    if ident_at(t, p) is Some && is_tok(t, p + 1, Token::Colon) {
        match expr(t, p + 2) {
            Some((v, q)) => Some((CallArgV { name: Some(ident_at(t, p)->0), value: v }, q)),
            None => None,
        }
    } else {
        match expr(t, p) {
            Some((v, q)) => Some((CallArgV { name: None, value: v }, q)),
            None => None,
        }
    }
}

/// Comma-separated call arguments (possibly none, trailing comma allowed).
pub open spec fn arg_list(t: Seq<TokenV>, p: int) -> (Seq<CallArgV>, int)
    decreases t.len() - p, 11int,
{
    match call_arg(t, p) {
        Some((a, q)) => if adv(p, q, t.len() as int) {
            arg_list_rest(t, q, seq![a])
        } else {
            (Seq::empty(), p)
        },
        None => (Seq::empty(), p),
    }
}

pub open spec fn arg_list_rest(t: Seq<TokenV>, q: int, acc: Seq<CallArgV>) -> (Seq<CallArgV>, int)
    decreases t.len() - q, 0int,
{
    if is_tok(t, q, Token::Comma) {
        match call_arg(t, q + 1) {
            Some((a, q2)) => if adv(q, q2, t.len() as int) {
                arg_list_rest(t, q2, acc.push(a))
            } else {
                (acc, q)
            },
            None => (acc, q + 1),
        }
    } else {
        (acc, q)
    }
}

/// Comma-separated expressions (possibly none, trailing comma allowed).
pub open spec fn expr_list(t: Seq<TokenV>, p: int) -> (Seq<ExprV>, int)
    decreases t.len() - p, 10int,
{
    match expr(t, p) {
        Some((e, q)) => if adv(p, q, t.len() as int) {
            expr_list_rest(t, q, seq![e])
        } else {
            (Seq::empty(), p)
        },
        None => (Seq::empty(), p),
    }
}

pub open spec fn expr_list_rest(t: Seq<TokenV>, q: int, acc: Seq<ExprV>) -> (Seq<ExprV>, int)
    decreases t.len() - q, 0int,
{
    if is_tok(t, q, Token::Comma) {
        match expr(t, q + 1) {
            Some((e, q2)) => if adv(q, q2, t.len() as int) {
                expr_list_rest(t, q2, acc.push(e))
            } else {
                (acc, q)
            },
            None => (acc, q + 1),
        }
    } else {
        (acc, q)
    }
}

/// `name: expr` inside a struct literal.
pub open spec fn field_init(t: Seq<TokenV>, p: int) -> Option<(FieldInitV, int)>
    decreases t.len() - p, 0int,
{
    if ident_at(t, p) is Some && is_tok(t, p + 1, Token::Colon) {
        match expr(t, p + 2) {
            Some((v, q)) => Some((FieldInitV { name: ident_at(t, p)->0, value: v }, q)),
            None => None,
        }
    } else {
        None
    }
}

pub open spec fn field_list(t: Seq<TokenV>, p: int) -> (Seq<FieldInitV>, int)
    decreases t.len() - p, 1int,
{
    match field_init(t, p) {
        Some((f, q)) => if adv(p, q, t.len() as int) {
            field_list_rest(t, q, seq![f])
        } else {
            (Seq::empty(), p)
        },
        None => (Seq::empty(), p),
    }
}

pub open spec fn field_list_rest(t: Seq<TokenV>, q: int, acc: Seq<FieldInitV>) -> (
    Seq<FieldInitV>,
    int,
)
    decreases t.len() - q, 0int,
{
    if is_tok(t, q, Token::Comma) {
        match field_init(t, q + 1) {
            Some((f, q2)) => if adv(q, q2, t.len() as int) {
                field_list_rest(t, q2, acc.push(f))
            } else {
                (acc, q)
            },
            None => (acc, q + 1),
        }
    } else {
        (acc, q)
    }
}

/// `from A, B [where e] [order by e [asc|desc]] [limit e]`.
pub open spec fn query_body(t: Seq<TokenV>, p: int) -> Option<(QueryBodyV, int)>
    decreases t.len() - p, 0int,
{
    if is_tok(t, p, Token::From) {
        match name_list(t, p + 1) {
            Some((from, q1)) => {
                let (wh, q2) = if is_tok(t, q1, Token::Where) && q1 > p {
                    match expr(t, q1 + 1) {
                        Some((w, q)) => (Some(w), q),
                        None => (None, q1),
                    }
                } else {
                    (None, q1)
                };
                let (ob, q3) = if is_tok(t, q2, Token::Order) && is_tok(t, q2 + 1, Token::By)
                    && q2 > p {
                    match expr(t, q2 + 2) {
                        Some((e, q)) => if is_tok(t, q, Token::Asc) {
                            (Some(OrderByV { expr: e, direction: SortDir::Asc }), q + 1)
                        } else if is_tok(t, q, Token::Desc) {
                            (Some(OrderByV { expr: e, direction: SortDir::Desc }), q + 1)
                        } else {
                            (Some(OrderByV { expr: e, direction: SortDir::Asc }), q)
                        },
                        None => (None, q2),
                    }
                } else {
                    (None, q2)
                };
                let (lim, q4) = if is_tok(t, q3, Token::Limit) && q3 > p {
                    match expr(t, q3 + 1) {
                        Some((l, q)) => (Some(l), q),
                        None => (None, q3),
                    }
                } else {
                    (None, q3)
                };
                Some((QueryBodyV { from, where_clause: wh, order_by: ob, limit: lim }, q4))
            },
            None => None,
        }
    } else {
        None
    }
}

/// `(x, y) => body`.
pub open spec fn multi_lambda(t: Seq<TokenV>, p: int) -> Option<(ExprV, int)>
    decreases t.len() - p, 0int,
{
    if is_tok(t, p, Token::LParen) {
        let (ps, q) = ident_list(t, p + 1);
        if is_tok(t, q, Token::RParen) && is_tok(t, q + 1, Token::FatArrow) && q > p {
            match expr(t, q + 2) {
                Some((b, q2)) => Some((ExprV::Lambda { params: ps, body: Box::new(b) }, q2)),
                None => None,
            }
        } else {
            None
        }
    } else {
        None
    }
}

/// `x => body`.
pub open spec fn single_lambda(t: Seq<TokenV>, p: int) -> Option<(ExprV, int)>
    decreases t.len() - p, 0int,
{
    if ident_at(t, p) is Some && is_tok(t, p + 1, Token::FatArrow) {
        match expr(t, p + 2) {
            Some((b, q)) => Some(
                (ExprV::Lambda { params: seq![ident_at(t, p)->0], body: Box::new(b) }, q),
            ),
            None => None,
        }
    } else {
        None
    }
}

/// `[a, b, c]`.
pub open spec fn array_lit(t: Seq<TokenV>, p: int) -> Option<(ExprV, int)>
    decreases t.len() - p, 0int,
{
    if is_tok(t, p, Token::LBracket) {
        let (es, q) = expr_list(t, p + 1);
        if is_tok(t, q, Token::RBracket) {
            Some((ExprV::Array(es), q + 1))
        } else {
            None
        }
    } else {
        None
    }
}

/// `Name { field: value, ... }`.
pub open spec fn struct_init(t: Seq<TokenV>, p: int) -> Option<(ExprV, int)>
    decreases t.len() - p, 0int,
{
    if ident_at(t, p) is Some && is_tok(t, p + 1, Token::LBrace) {
        let (fs, q) = field_list(t, p + 2);
        if is_tok(t, q, Token::RBrace) {
            Some((ExprV::StructInit { name: ident_at(t, p)->0, fields: fs }, q + 1))
        } else {
            None
        }
    } else {
        None
    }
}

/// `( expr )`.
pub open spec fn grouped(t: Seq<TokenV>, p: int) -> Option<(ExprV, int)>
    decreases t.len() - p, 0int,
{
    if is_tok(t, p, Token::LParen) {
        match expr(t, p + 1) {
            Some((e, q)) => if is_tok(t, q, Token::RParen) {
                Some((e, q + 1))
            } else {
                None
            },
            None => None,
        }
    } else {
        None
    }
}

/// The first of: literal, `(..) =>` lambda, `x =>` lambda, array, inline query,
/// struct literal, parenthesised expression, name.
pub open spec fn atom(t: Seq<TokenV>, p: int) -> Option<(ExprV, int)>
    decreases t.len() - p, 1int,
{
    match literal(t, p) {
        Some(l) => Some((l, p + 1)),
        None => match multi_lambda(t, p) {
            Some(x) => Some(x),
            None => match single_lambda(t, p) {
                Some(x) => Some(x),
                None => match array_lit(t, p) {
                    Some(x) => Some(x),
                    None => match query_body(t, p) {
                        Some((qb, q)) => Some((ExprV::InlineQuery(Box::new(qb)), q)),
                        None => match struct_init(t, p) {
                            Some(x) => Some(x),
                            None => match grouped(t, p) {
                                Some(x) => Some(x),
                                None => match any_name_at(t, p) {
                                    Some(n) => Some((ExprV::Ident(n), p + 1)),
                                    None => None,
                                },
                            },
                        },
                    },
                },
            },
        },
    }
}

// ───────────────────────────── statements ─────────────────────────────

/// `let`, `if`, `for`, `return`, or an expression optionally assigned with `=`.
pub open spec fn stmt(t: Seq<TokenV>, p: int) -> Option<(StmtV, int)>
    decreases t.len() - p, 1int,
{
    if is_tok(t, p, Token::Let) && ident_at(t, p + 1) is Some && is_tok(t, p + 2, Token::Eq)
        && expr(t, p + 3) is Some {
        let (v, q) = expr(t, p + 3)->0;
        Some((StmtV::Let { name: ident_at(t, p + 1)->0, value: v }, q))
    } else if is_tok(t, p, Token::If) && if_stmt(t, p) is Some {
        if_stmt(t, p)
    } else if is_tok(t, p, Token::For) && for_stmt(t, p) is Some {
        for_stmt(t, p)
    } else if is_tok(t, p, Token::Return) {
        match expr(t, p + 1) {
            Some((e, q)) => Some((StmtV::Return(Some(e)), q)),
            None => Some((StmtV::Return(None), p + 1)),
        }
    } else {
        match expr(t, p) {
            Some((lhs, q)) => if is_tok(t, q, Token::Eq) && expr(t, q + 1) is Some {
                let (v, q2) = expr(t, q + 1)->0;
                Some((StmtV::Assign { target: lhs, value: v }, q2))
            } else {
                Some((StmtV::Expr(lhs), q))
            },
            None => None,
        }
    }
}

pub open spec fn if_stmt(t: Seq<TokenV>, p: int) -> Option<(StmtV, int)>
    decreases t.len() - p, 0int,
{
    if is_tok(t, p, Token::If) {
        match expr(t, p + 1) {
            Some((c, q)) => if adv(p, q, t.len() as int) {
                match block(t, q) {
                    Some((th, q2)) => if q2 > p && is_tok(t, q2, Token::Else) && block(
                        t,
                        q2 + 1,
                    ) is Some {
                        let (el, q3) = block(t, q2 + 1)->0;
                        Some(
                            (
                                StmtV::If { condition: c, then_body: th, else_body: Some(el) },
                                q3,
                            ),
                        )
                    } else {
                        Some((StmtV::If { condition: c, then_body: th, else_body: None }, q2))
                    },
                    None => None,
                }
            } else {
                None
            },
            None => None,
        }
    } else {
        None
    }
}

pub open spec fn for_stmt(t: Seq<TokenV>, p: int) -> Option<(StmtV, int)>
    decreases t.len() - p, 0int,
{
    if is_tok(t, p, Token::For) && ident_at(t, p + 1) is Some && is_tok(t, p + 2, Token::In) {
        match expr(t, p + 3) {
            Some((it, q)) => if adv(p, q, t.len() as int) {
                match block(t, q) {
                    Some((body, q2)) => Some(
                        (StmtV::For { var: ident_at(t, p + 1)->0, iter: it, body }, q2),
                    ),
                    None => None,
                }
            } else {
                None
            },
            None => None,
        }
    } else {
        None
    }
}

/// `{ stmt* }`.
pub open spec fn block(t: Seq<TokenV>, p: int) -> Option<(Seq<StmtV>, int)>
    decreases t.len() - p, 0int,
{
    if is_tok(t, p, Token::LBrace) {
        let (ss, q) = stmts(t, p + 1, Seq::empty());
        if is_tok(t, q, Token::RBrace) {
            Some((ss, q + 1))
        } else {
            None
        }
    } else {
        None
    }
}

/// As many statements as parse, appended to `acc`.
pub open spec fn stmts(t: Seq<TokenV>, p: int, acc: Seq<StmtV>) -> (Seq<StmtV>, int)
    decreases t.len() - p, 2int,
{
    match stmt(t, p) {
        Some((s, q)) => if adv(p, q, t.len() as int) {
            stmts(t, q, acc.push(s))
        } else {
            (acc, p)
        },
        None => (acc, p),
    }
}


// ───────────────────────────── items ─────────────────────────────

pub open spec fn str_at(t: Seq<TokenV>, p: int) -> Option<Seq<char>> {
    match tk(t, p) {
        Some(TokenV::Str(s)) => Some(s),
        _ => None,
    }
}

/// `name("arg")` or `none`.
pub open spec fn config_value(t: Seq<TokenV>, p: int) -> Option<(ConfigValueV, int)> {
    if any_name_at(t, p) is Some && is_tok(t, p + 1, Token::LParen) && str_at(t, p + 2) is Some
        && is_tok(t, p + 3, Token::RParen) {
        Some(
            (
                ConfigValueV::FnCall { name: any_name_at(t, p)->0, arg: str_at(t, p + 2)->0 },
                p + 4,
            ),
        )
    } else if is_tok(t, p, Token::NoneKw) {
        Some((ConfigValueV::Disabled, p + 1))
    } else {
        None
    }
}

pub open spec fn config_entry(t: Seq<TokenV>, p: int) -> Option<(ConfigEntryV, int)> {
    if any_name_at(t, p) is Some && is_tok(t, p + 1, Token::Colon) {
        match config_value(t, p + 2) {
            Some((v, q)) => Some((ConfigEntryV { key: any_name_at(t, p)->0, value: v }, q)),
            None => None,
        }
    } else {
        None
    }
}

pub open spec fn config_entries(t: Seq<TokenV>, p: int, acc: Seq<ConfigEntryV>) -> (
    Seq<ConfigEntryV>,
    int,
)
    decreases t.len() - p,
{
    match config_entry(t, p) {
        Some((e, q)) => if adv(p, q, t.len() as int) {
            config_entries(t, q, acc.push(e))
        } else {
            (acc, p)
        },
        None => (acc, p),
    }
}

/// `config { key: value ... }`.
pub open spec fn config_item(t: Seq<TokenV>, p: int) -> Option<(ItemV, int)> {
    if is_tok(t, p, Token::Config) && is_tok(t, p + 1, Token::LBrace) {
        let (es, q) = config_entries(t, p + 2, Seq::empty());
        if is_tok(t, q, Token::RBrace) {
            Some((ItemV::Config(es), q + 1))
        } else {
            None
        }
    } else {
        None
    }
}

/// `@index name`, `@invariant expr` or `@extern`.
pub open spec fn decorator(t: Seq<TokenV>, p: int) -> Option<(DecoratorV, int)> {
    if is_tok(t, p, Token::Index) {
        match any_name_at(t, p + 1) {
            Some(n) => Some((DecoratorV::Index(n), p + 2)),
            None => None,
        }
    } else if is_tok(t, p, Token::Invariant) {
        match expr(t, p + 1) {
            Some((e, q)) => Some((DecoratorV::Invariant(e), q)),
            None => None,
        }
    } else if is_tok(t, p, Token::Extern) {
        Some((DecoratorV::Extern, p + 1))
    } else {
        None
    }
}

pub open spec fn decorators(t: Seq<TokenV>, p: int, acc: Seq<DecoratorV>) -> (
    Seq<DecoratorV>,
    int,
)
    decreases t.len() - p,
{
    match decorator(t, p) {
        Some((d, q)) => if adv(p, q, t.len() as int) {
            decorators(t, q, acc.push(d))
        } else {
            (acc, p)
        },
        None => (acc, p),
    }
}

/// Decorators, `name: type`, and an optional `= default`.
pub open spec fn field_def(t: Seq<TokenV>, p: int) -> Option<(FieldDefV, int)> {
    let (ds, q) = decorators(t, p, Seq::empty());
    if any_name_at(t, q) is Some && is_tok(t, q + 1, Token::Colon) {
        match parse_type(t, q + 2) {
            Some((ty, q2)) => {
                let (def, q3) = if is_tok(t, q2, Token::Eq) && expr(t, q2 + 1) is Some {
                    (Some((expr(t, q2 + 1)->0).0), (expr(t, q2 + 1)->0).1)
                } else {
                    (None, q2)
                };
                Some(
                    (
                        FieldDefV { name: any_name_at(t, q)->0, ty, default: def, decorators: ds },
                        q3,
                    ),
                )
            },
            None => None,
        }
    } else {
        None
    }
}

pub open spec fn field_defs(t: Seq<TokenV>, p: int, acc: Seq<FieldDefV>) -> (Seq<FieldDefV>, int)
    decreases t.len() - p,
{
    match field_def(t, p) {
        Some((f, q)) => if adv(p, q, t.len() as int) {
            field_defs(t, q, acc.push(f))
        } else {
            (acc, p)
        },
        None => (acc, p),
    }
}

/// `memory Name { field* }`.
pub open spec fn memory_item(t: Seq<TokenV>, p: int) -> Option<(ItemV, int)> {
    if is_tok(t, p, Token::Memory) && ident_at(t, p + 1) is Some && is_tok(t, p + 2, Token::LBrace) {
        let (fs, q) = field_defs(t, p + 3, Seq::empty());
        if is_tok(t, q, Token::RBrace) {
            Some(
                (
                    ItemV::Memory {
                        name: ident_at(t, p + 1)->0,
                        fields: fs,
                        indexes: Seq::empty(),
                        invariants: Seq::empty(),
                    },
                    q + 1,
                ),
            )
        } else {
            None
        }
    } else {
        None
    }
}

/// `on event(params) { stmt* }`.
pub open spec fn handler_item(t: Seq<TokenV>, p: int) -> Option<(ItemV, int)> {
    if is_tok(t, p, Token::On) && any_name_at(t, p + 1) is Some && is_tok(t, p + 2, Token::LParen) {
        let (ps, q) = params(t, p + 3);
        if is_tok(t, q, Token::RParen) {
            match block(t, q + 1) {
                Some((body, q2)) => Some(
                    (ItemV::Handler { event: any_name_at(t, p + 1)->0, params: ps, body }, q2),
                ),
                None => None,
            }
        } else {
            None
        }
    } else {
        None
    }
}

/// `query Name(params): type { query-body }`.
pub open spec fn query_item(t: Seq<TokenV>, p: int) -> Option<(ItemV, int)> {
    if is_tok(t, p, Token::Query) && ident_at(t, p + 1) is Some && is_tok(t, p + 2, Token::LParen) {
        let (ps, q) = params(t, p + 3);
        if is_tok(t, q, Token::RParen) && is_tok(t, q + 1, Token::Colon) {
            match parse_type(t, q + 2) {
                Some((ty, q3)) => if is_tok(t, q3, Token::LBrace) {
                    match query_body(t, q3 + 1) {
                        Some((qb, q4)) => if is_tok(t, q4, Token::RBrace) {
                            Some(
                                (
                                    ItemV::Query {
                                        name: ident_at(t, p + 1)->0,
                                        params: ps,
                                        return_ty: ty,
                                        body: qb,
                                    },
                                    q4 + 1,
                                ),
                            )
                        } else {
                            None
                        },
                        None => None,
                    }
                } else {
                    None
                },
                None => None,
            }
        } else {
            None
        }
    } else {
        None
    }
}

/// `on_access { .. }`, `on_conflict(old, new) { .. }` or `every <duration> { .. }`.
pub open spec fn update_rule(t: Seq<TokenV>, p: int) -> Option<(UpdateRuleV, int)> {
    if is_tok(t, p, Token::OnAccess) {
        match block(t, p + 1) {
            Some((body, q)) => Some((UpdateRuleV::OnAccess { body }, q)),
            None => None,
        }
    } else if is_tok(t, p, Token::OnConflict) {
        if is_tok(t, p + 1, Token::LParen) && ident_at(t, p + 2) is Some && is_tok(
            t,
            p + 3,
            Token::Comma,
        ) && ident_at(t, p + 4) is Some && is_tok(t, p + 5, Token::RParen) {
            match block(t, p + 6) {
                Some((body, q)) => Some(
                    (
                        UpdateRuleV::OnConflict {
                            old_name: ident_at(t, p + 2)->0,
                            new_name: ident_at(t, p + 4)->0,
                            body,
                        },
                        q,
                    ),
                ),
                None => None,
            }
        } else {
            None
        }
    } else if is_tok(t, p, Token::Every) {
        match duration_at(t, p + 1) {
            Some(d) => match block(t, p + 2) {
                Some((body, q)) => Some((UpdateRuleV::Every { interval: d, body }, q)),
                None => None,
            },
            None => None,
        }
    } else {
        None
    }
}

pub open spec fn update_rules(t: Seq<TokenV>, p: int, acc: Seq<UpdateRuleV>) -> (
    Seq<UpdateRuleV>,
    int,
)
    decreases t.len() - p,
{
    match update_rule(t, p) {
        Some((r, q)) => if adv(p, q, t.len() as int) {
            update_rules(t, q, acc.push(r))
        } else {
            (acc, p)
        },
        None => (acc, p),
    }
}

/// `update Name { rule* }` (`is_policy == false`) or `policy Name { rule* }`.
pub open spec fn rules_item(t: Seq<TokenV>, p: int, is_policy: bool) -> Option<(ItemV, int)> {
    let kw = if is_policy {
        Token::Policy
    } else {
        Token::Update
    };
    if is_tok(t, p, kw) && ident_at(t, p + 1) is Some && is_tok(t, p + 2, Token::LBrace) {
        let (rs, q) = update_rules(t, p + 3, Seq::empty());
        if is_tok(t, q, Token::RBrace) {
            let name = ident_at(t, p + 1)->0;
            Some(
                (
                    if is_policy {
                        ItemV::Policy { name, rules: rs }
                    } else {
                        ItemV::Update { target: name, rules: rs }
                    },
                    q + 1,
                ),
            )
        } else {
            None
        }
    } else {
        None
    }
}

/// `@extern fn name(params) [: type]`.
pub open spec fn extern_item(t: Seq<TokenV>, p: int) -> Option<(ItemV, int)> {
    if is_tok(t, p, Token::Extern) && is_tok(t, p + 1, Token::Fn) && ident_at(t, p + 2) is Some
        && is_tok(t, p + 3, Token::LParen) {
        let (ps, q) = params(t, p + 4);
        if is_tok(t, q, Token::RParen) {
            let (rt, q2) = if is_tok(t, q + 1, Token::Colon) && parse_type(t, q + 2) is Some {
                (Some((parse_type(t, q + 2)->0).0), (parse_type(t, q + 2)->0).1)
            } else {
                (None, q + 1)
            };
            Some((ItemV::ExternFn { name: ident_at(t, p + 2)->0, params: ps, return_ty: rt }, q2))
        } else {
            None
        }
    } else {
        None
    }
}

/// The first of config, memory, handler, query, update, policy and extern items.
pub open spec fn item(t: Seq<TokenV>, p: int) -> Option<(ItemV, int)> {
    if config_item(t, p) is Some {
        config_item(t, p)
    } else if memory_item(t, p) is Some {
        memory_item(t, p)
    } else if handler_item(t, p) is Some {
        handler_item(t, p)
    } else if query_item(t, p) is Some {
        query_item(t, p)
    } else if rules_item(t, p, false) is Some {
        rules_item(t, p, false)
    } else if rules_item(t, p, true) is Some {
        rules_item(t, p, true)
    } else {
        extern_item(t, p)
    }
}

pub open spec fn items(t: Seq<TokenV>, p: int, acc: Seq<ItemV>) -> (Seq<ItemV>, int)
    decreases t.len() - p,
{
    match item(t, p) {
        Some((x, q)) => if adv(p, q, t.len() as int) {
            items(t, q, acc.push(x))
        } else {
            (acc, p)
        },
        None => (acc, p),
    }
}

/// `namespace name { item* }`, or else a single item.
pub open spec fn ns_or_item(t: Seq<TokenV>, p: int) -> Option<(ItemV, int)> {
    if is_tok(t, p, Token::Namespace) && ident_at(t, p + 1) is Some && is_tok(
        t,
        p + 2,
        Token::LBrace,
    ) && is_tok(t, items(t, p + 3, Seq::empty()).1, Token::RBrace) {
        let (xs, q) = items(t, p + 3, Seq::empty());
        Some((ItemV::Namespace { name: ident_at(t, p + 1)->0, items: xs }, q + 1))
    } else {
        item(t, p)
    }
}

pub open spec fn top_items(t: Seq<TokenV>, p: int, acc: Seq<ItemV>) -> (Seq<ItemV>, int)
    decreases t.len() - p,
{
    match ns_or_item(t, p) {
        Some((x, q)) => if adv(p, q, t.len() as int) {
            top_items(t, q, acc.push(x))
        } else {
            (acc, p)
        },
        None => (acc, p),
    }
}

/// The items of a program, when the items consume every token.
pub open spec fn program(t: Seq<TokenV>) -> Option<Seq<ItemV>> {
    let (xs, q) = top_items(t, 0, Seq::empty());
    if q == t.len() {
        Some(xs)
    } else {
        None
    }
}

// ───────────────────────────── laws of the operators ─────────────────────────────

/// A multiplicative operator (`*`, `/`, `%`) between two operands: when `l` is an
/// operand from `p` to `q`, the token at `q` is the operator, and `r` is an
/// operand from `q + 1` to `q2` that no such operator follows, the
/// expression from `p` is the binary expression `l op r` with the operator
/// that the token spells, ending at `q2`.
pub proof fn lemma_mul_operator_joins(t: Seq<TokenV>, p: int, l: ExprV, q: int, r: ExprV, q2: int)
    requires
        unary(t, p) == Some((l, q)),
        p <= q,
        unary(t, q + 1) == Some((r, q2)),
        q < q2 <= t.len(),
        !is_tok(t, q2, Token::Star),
        !is_tok(t, q2, Token::Slash),
        !is_tok(t, q2, Token::Percent),
    ensures
        is_tok(t, q, Token::Star) ==> mul_e(t, p) == Some((
            ExprV::Binary { left: Box::new(l), op: BinOp::Mul, right: Box::new(r) },
            q2,
        )),
        is_tok(t, q, Token::Slash) ==> mul_e(t, p) == Some((
            ExprV::Binary { left: Box::new(l), op: BinOp::Div, right: Box::new(r) },
            q2,
        )),
        is_tok(t, q, Token::Percent) ==> mul_e(t, p) == Some((
            ExprV::Binary { left: Box::new(l), op: BinOp::Mod, right: Box::new(r) },
            q2,
        )),
{
    reveal_with_fuel(mul_rest, 2);
}

/// A additive operator (`+`, `-`) between two operands: when `l` is an
/// operand from `p` to `q`, the token at `q` is the operator, and `r` is an
/// operand from `q + 1` to `q2` that no such operator follows, the
/// expression from `p` is the binary expression `l op r` with the operator
/// that the token spells, ending at `q2`.
pub proof fn lemma_add_operator_joins(t: Seq<TokenV>, p: int, l: ExprV, q: int, r: ExprV, q2: int)
    requires
        mul_e(t, p) == Some((l, q)),
        p <= q,
        mul_e(t, q + 1) == Some((r, q2)),
        q < q2 <= t.len(),
        !is_tok(t, q2, Token::Plus),
        !is_tok(t, q2, Token::Minus),
    ensures
        is_tok(t, q, Token::Plus) ==> add_e(t, p) == Some((
            ExprV::Binary { left: Box::new(l), op: BinOp::Add, right: Box::new(r) },
            q2,
        )),
        is_tok(t, q, Token::Minus) ==> add_e(t, p) == Some((
            ExprV::Binary { left: Box::new(l), op: BinOp::Sub, right: Box::new(r) },
            q2,
        )),
{
    reveal_with_fuel(add_rest, 2);
}

/// A comparison operator (`==`, `!=`, `<=`, `<`, `>=`, `>`) between two operands: when `l` is an
/// operand from `p` to `q`, the token at `q` is the operator, and `r` is an
/// operand from `q + 1` to `q2` that no such operator follows, the
/// expression from `p` is the binary expression `l op r` with the operator
/// that the token spells, ending at `q2`.
pub proof fn lemma_rel_operator_joins(t: Seq<TokenV>, p: int, l: ExprV, q: int, r: ExprV, q2: int)
    requires
        add_e(t, p) == Some((l, q)),
        p <= q,
        add_e(t, q + 1) == Some((r, q2)),
        q < q2 <= t.len(),
        !is_tok(t, q2, Token::EqEq),
        !is_tok(t, q2, Token::BangEq),
        !is_tok(t, q2, Token::LtEq),
        !is_tok(t, q2, Token::Lt),
        !is_tok(t, q2, Token::GtEq),
        !is_tok(t, q2, Token::Gt),
    ensures
        is_tok(t, q, Token::EqEq) ==> rel_e(t, p) == Some((
            ExprV::Binary { left: Box::new(l), op: BinOp::Eq, right: Box::new(r) },
            q2,
        )),
        is_tok(t, q, Token::BangEq) ==> rel_e(t, p) == Some((
            ExprV::Binary { left: Box::new(l), op: BinOp::Ne, right: Box::new(r) },
            q2,
        )),
        is_tok(t, q, Token::LtEq) ==> rel_e(t, p) == Some((
            ExprV::Binary { left: Box::new(l), op: BinOp::Le, right: Box::new(r) },
            q2,
        )),
        is_tok(t, q, Token::Lt) ==> rel_e(t, p) == Some((
            ExprV::Binary { left: Box::new(l), op: BinOp::Lt, right: Box::new(r) },
            q2,
        )),
        is_tok(t, q, Token::GtEq) ==> rel_e(t, p) == Some((
            ExprV::Binary { left: Box::new(l), op: BinOp::Ge, right: Box::new(r) },
            q2,
        )),
        is_tok(t, q, Token::Gt) ==> rel_e(t, p) == Some((
            ExprV::Binary { left: Box::new(l), op: BinOp::Gt, right: Box::new(r) },
            q2,
        )),
{
    reveal_with_fuel(rel_rest, 2);
}

/// A `and` operator (`and`) between two operands: when `l` is an
/// operand from `p` to `q`, the token at `q` is the operator, and `r` is an
/// operand from `q + 1` to `q2` that no such operator follows, the
/// expression from `p` is the binary expression `l op r` with the operator
/// that the token spells, ending at `q2`.
pub proof fn lemma_and_operator_joins(t: Seq<TokenV>, p: int, l: ExprV, q: int, r: ExprV, q2: int)
    requires
        rel_e(t, p) == Some((l, q)),
        p <= q,
        rel_e(t, q + 1) == Some((r, q2)),
        q < q2 <= t.len(),
        !is_tok(t, q2, Token::And),
    ensures
        is_tok(t, q, Token::And) ==> and_e(t, p) == Some((
            ExprV::Binary { left: Box::new(l), op: BinOp::And, right: Box::new(r) },
            q2,
        )),
{
    reveal_with_fuel(and_rest, 2);
}

/// A `or` operator (`or`) between two operands: when `l` is an
/// operand from `p` to `q`, the token at `q` is the operator, and `r` is an
/// operand from `q + 1` to `q2` that no such operator follows, the
/// expression from `p` is the binary expression `l op r` with the operator
/// that the token spells, ending at `q2`.
pub proof fn lemma_or_operator_joins(t: Seq<TokenV>, p: int, l: ExprV, q: int, r: ExprV, q2: int)
    requires
        and_e(t, p) == Some((l, q)),
        p <= q,
        and_e(t, q + 1) == Some((r, q2)),
        q < q2 <= t.len(),
        !is_tok(t, q2, Token::Or),
    ensures
        is_tok(t, q, Token::Or) ==> or_e(t, p) == Some((
            ExprV::Binary { left: Box::new(l), op: BinOp::Or, right: Box::new(r) },
            q2,
        )),
{
    reveal_with_fuel(or_rest, 2);
}

/// Prefix operators: `not` before an operand negates it logically and `-`
/// arithmetically, the operand running on from the next token.
pub proof fn lemma_prefix_operators(t: Seq<TokenV>, p: int, e: ExprV, q: int)
    requires
        unary(t, p + 1) == Some((e, q)),
    ensures
        is_tok(t, p, Token::Not) ==> unary(t, p) == Some((ExprV::Unary { op: UnaryOp::Not, operand: Box::new(e) }, q)),
        is_tok(t, p, Token::Minus) ==> unary(t, p) == Some((ExprV::Unary { op: UnaryOp::Neg, operand: Box::new(e) }, q)),
{
}

} // verus!
