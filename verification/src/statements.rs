//! Statements and `{ .. }` blocks, executing the grammar of [`crate::grammar::stmt`].
use vstd::prelude::*;
use crate::ast::{stmt_view, stmts_view, Stmt, StmtV};
use crate::grammar::{toks_view, stmt, if_stmt, for_stmt, block, stmts};
use crate::lexer::{Token, TokenV};
use crate::parser::{at_tok, ident_exec, parse_expr};

verus! {

pub open spec fn s_res(r: Option<(Stmt, usize)>) -> Option<(StmtV, int)> {
    match r {
        Some((s, q)) => Some((stmt_view(s), q as int)),
        None => None,
    }
}

pub open spec fn b_res(r: Option<(Vec<Stmt>, usize)>) -> Option<(Seq<StmtV>, int)> {
    match r {
        Some((b, q)) => Some((stmts_view(b@), q as int)),
        None => None,
    }
}

/// Pushing a statement extends the model by the statement's model.
pub proof fn lemma_stmts_view_push(s: Seq<Stmt>, x: Stmt)
    ensures
        stmts_view(s.push(x)) == stmts_view(s).push(stmt_view(x)),
{
    assert(s.push(x).subrange(0, s.len() as int) =~= s);
}

/// Parses one statement at `p` (see [`stmt`]).
#[verifier::spinoff_prover]
#[verifier::rlimit(100)]
pub(crate) fn parse_stmt(t: &Vec<Token>, Ghost(tv): Ghost<Seq<TokenV>>, p: usize) -> (r: Option<(Stmt, usize)>)
    requires
        tv == toks_view(t@),
        p <= t.len(),
    ensures
        s_res(r) === stmt(tv, p as int),
        r matches Some((_, q)) ==> p < q <= t.len(),
    decreases t.len() - p, 1int,
{
    if at_tok(t, p, Token::Let) {
        let n = ident_exec(t, p + 1);
        if n.is_some() && at_tok(t, p + 2, Token::Eq) {
            if let Some((v, q)) = parse_expr(t, Ghost(tv), p + 3) {
                return Some((Stmt::Let { name: n.unwrap(), value: v }, q));
            }
        }
    }
    if at_tok(t, p, Token::If) {
        let r = p_if_stmt(t, Ghost(tv), p);
        if r.is_some() {
            return r;
        }
    }
    if at_tok(t, p, Token::For) {
        let r = p_for_stmt(t, Ghost(tv), p);
        if r.is_some() {
            return r;
        }
    }
    if at_tok(t, p, Token::Return) {
        return match parse_expr(t, Ghost(tv), p + 1) {
            Some((e, q)) => Some((Stmt::Return(Some(e)), q)),
            None => Some((Stmt::Return(None), p + 1)),
        };
    }
    match parse_expr(t, Ghost(tv), p) {
        Some((lhs, q)) => {
            if at_tok(t, q, Token::Eq) {
                if let Some((v, q2)) = parse_expr(t, Ghost(tv), q + 1) {
                    return Some((Stmt::Assign { target: lhs, value: v }, q2));
                }
            }
            Some((Stmt::Expr(lhs), q))
        },
        None => None,
    }
}

#[verifier::spinoff_prover]
#[verifier::rlimit(100)]
fn p_if_stmt(t: &Vec<Token>, Ghost(tv): Ghost<Seq<TokenV>>, p: usize) -> (r: Option<(Stmt, usize)>)
    requires
        tv == toks_view(t@),
        p <= t.len(),
    ensures
        s_res(r) === if_stmt(tv, p as int),
        r matches Some((_, q)) ==> p < q <= t.len(),
    decreases t.len() - p, 0int,
{
    if !at_tok(t, p, Token::If) {
        return None;
    }
    match parse_expr(t, Ghost(tv), p + 1) {
        Some((c, q)) => if p < q && q <= t.len() {
            match p_block(t, Ghost(tv), q) {
                Some((th, q2)) => {
                    if q2 > p && at_tok(t, q2, Token::Else) {
                        if let Some((el, q3)) = p_block(t, Ghost(tv), q2 + 1) {
                            return Some(
                                (Stmt::If { condition: c, then_body: th, else_body: Some(el) }, q3),
                            );
                        }
                    }
                    Some((Stmt::If { condition: c, then_body: th, else_body: None }, q2))
                },
                None => None,
            }
        } else {
            None
        },
        None => None,
    }
}

#[verifier::spinoff_prover]
#[verifier::rlimit(100)]
fn p_for_stmt(t: &Vec<Token>, Ghost(tv): Ghost<Seq<TokenV>>, p: usize) -> (r: Option<(Stmt, usize)>)
    requires
        tv == toks_view(t@),
        p <= t.len(),
    ensures
        s_res(r) === for_stmt(tv, p as int),
        r matches Some((_, q)) ==> p < q <= t.len(),
    decreases t.len() - p, 0int,
{
    if !at_tok(t, p, Token::For) {
        return None;
    }
    let v = ident_exec(t, p + 1);
    if v.is_none() || !at_tok(t, p + 2, Token::In) {
        return None;
    }
    match parse_expr(t, Ghost(tv), p + 3) {
        Some((it, q)) => if p < q && q <= t.len() {
            match p_block(t, Ghost(tv), q) {
                Some((body, q2)) => Some((Stmt::For { var: v.unwrap(), iter: it, body }, q2)),
                None => None,
            }
        } else {
            None
        },
        None => None,
    }
}

/// Parses a `{ .. }` block of statements at `p` (see [`block`]).
#[verifier::spinoff_prover]
#[verifier::rlimit(100)]
pub(crate) fn p_block(t: &Vec<Token>, Ghost(tv): Ghost<Seq<TokenV>>, p: usize) -> (r: Option<(Vec<Stmt>, usize)>)
    requires
        tv == toks_view(t@),
        p <= t.len(),
    ensures
        b_res(r) === block(tv, p as int),
        r matches Some((_, q)) ==> p < q <= t.len(),
    decreases t.len() - p, 0int,
{
    if !at_tok(t, p, Token::LBrace) {
        return None;
    }
    let (ss, q) = p_stmts(t, Ghost(tv), p + 1, Vec::new());
    proof {
        assert(stmts_view(Seq::<Stmt>::empty()) =~= Seq::<StmtV>::empty());
    }
    if at_tok(t, q, Token::RBrace) {
        Some((ss, q + 1))
    } else {
        None
    }
}

#[verifier::spinoff_prover]
#[verifier::rlimit(100)]
fn p_stmts(t: &Vec<Token>, Ghost(tv): Ghost<Seq<TokenV>>, p: usize, acc: Vec<Stmt>) -> (r: (Vec<Stmt>, usize))
    requires
        tv == toks_view(t@),
        p <= t.len(),
    ensures
        (stmts_view(r.0@), r.1 as int) === stmts(tv, p as int, stmts_view(acc@)),
        p <= r.1 <= t.len(),
    decreases t.len() - p, 2int,
{
    match parse_stmt(t, Ghost(tv), p) {
        Some((s, q)) => if p < q && q <= t.len() {
            let mut acc = acc;
            proof {
                lemma_stmts_view_push(acc@, s);
            }
            acc.push(s);
            p_stmts(t, Ghost(tv), q, acc)
        } else {
            (acc, p)
        },
        None => (acc, p),
    }
}

} // verus!
