//! Top-level items: config blocks, memories, handlers, queries, update rules,
//! policies, extern functions and namespaces, executing the item part of
//! [`crate::grammar`].
use vstd::prelude::*;
use crate::ast::{
    config_value_view, decorator_view, decorators_view, entries_view, entry_view, field_view,
    fields_view, item_view, items_view, params_view, rule_view, rules_view, ConfigBlock,
    ConfigEntry, ConfigEntryV, ConfigValue, ConfigValueV, Decorator, DecoratorV, ExternFnDef,
    FieldDef, FieldDefV, HandlerDef, Item, ItemV, MemoryDef, NamespaceDef, Param, ParamV,
    PolicyDef, QueryDef, UpdateDef, UpdateRule, UpdateRuleV,
};
use crate::grammar::{
    toks_view, param, params, params_rest, config_value, config_entry, config_entries,
    config_item, decorator, decorators, field_def, field_defs, memory_item, handler_item,
    query_item, update_rule, update_rules, rules_item, extern_item, item, items, ns_or_item,
    top_items,
};
use crate::lexer::{Token, TokenV};
use crate::parser::{
    any_name_exec, at_tok, duration_exec, ident_exec, parse_expr, parse_query_body,
    parse_type_exec, str_exec,
};
use crate::statements::p_block;

verus! {

pub open spec fn i_res(r: Option<(Item, usize)>) -> Option<(ItemV, int)> {
    match r {
        Some((x, q)) => Some((item_view(x), q as int)),
        None => None,
    }
}

pub open spec fn param_view(x: Param) -> ParamV {
    ParamV { name: x.name@, ty: x.ty@ }
}

// ───────────────────────────── parameters ─────────────────────────────

fn p_param(t: &Vec<Token>, Ghost(tv): Ghost<Seq<TokenV>>, p: usize) -> (r: Option<(Param, usize)>)
    requires
        tv == toks_view(t@),
        p <= t.len(),
    ensures
        match param(tv, p as int) {
            Some((x, q)) => r matches Some((y, q2)) && q2 == q && param_view(y) == x,
            None => r is None,
        },
        r matches Some((_, q)) ==> p < q <= t.len(),
{
    let n = any_name_exec(t, p);
    if n.is_some() && at_tok(t, p + 1, Token::Colon) {
        match parse_type_exec(t, Ghost(tv), p + 2) {
            Some((ty, q)) => Some((Param { name: n.unwrap(), ty }, q)),
            None => None,
        }
    } else {
        None
    }
}

fn p_params_rest(t: &Vec<Token>, Ghost(tv): Ghost<Seq<TokenV>>, q: usize, acc: Vec<Param>) -> (r: (Vec<Param>, usize))
    requires
        tv == toks_view(t@),
        q <= t.len(),
    ensures
        (params_view(r.0@), r.1 as int) === params_rest(tv, q as int, params_view(acc@)),
        q <= r.1 <= t.len(),
    decreases t.len() - q,
{
    if at_tok(t, q, Token::Comma) {
        match p_param(t, Ghost(tv), q + 1) {
            Some((x, q2)) => if q < q2 && q2 <= t.len() {
                let mut acc = acc;
                let ghost old_acc = acc@;
                acc.push(x);
                proof {
                    assert(params_view(acc@) =~= params_view(old_acc).push(param_view(x)));
                }
                p_params_rest(t, Ghost(tv), q2, acc)
            } else {
                (acc, q)
            },
            None => (acc, q + 1),
        }
    } else {
        (acc, q)
    }
}

/// A comma-separated parameter list at `p` (see [`params`]).
pub(crate) fn p_params(t: &Vec<Token>, Ghost(tv): Ghost<Seq<TokenV>>, p: usize) -> (r: (Vec<Param>, usize))
    requires
        tv == toks_view(t@),
        p <= t.len(),
    ensures
        (params_view(r.0@), r.1 as int) === params(tv, p as int),
        p <= r.1 <= t.len(),
{
    match p_param(t, Ghost(tv), p) {
        Some((x, q)) => if p < q && q <= t.len() {
            let mut v = Vec::new();
            v.push(x);
            proof {
                assert(params_view(v@) =~= seq![param_view(x)]);
            }
            p_params_rest(t, Ghost(tv), q, v)
        } else {
            proof {
                assert(params_view(Seq::<Param>::empty()) =~= Seq::<ParamV>::empty());
            }
            (Vec::new(), p)
        },
        None => {
            proof {
                assert(params_view(Seq::<Param>::empty()) =~= Seq::<ParamV>::empty());
            }
            (Vec::new(), p)
        },
    }
}

// ───────────────────────────── config ─────────────────────────────

fn p_config_value(t: &Vec<Token>, p: usize) -> (r: Option<(ConfigValue, usize)>)
    requires
        p <= t.len(),
    ensures
        match config_value(toks_view(t@), p as int) {
            Some((v, q)) => r matches Some((x, q2)) && q2 == q && config_value_view(x) == v,
            None => r is None,
        },
        r matches Some((_, q)) ==> p < q <= t.len(),
{
    let n = any_name_exec(t, p);
    if n.is_some() && at_tok(t, p + 1, Token::LParen) {
        let a = str_exec(t, p + 2);
        if a.is_some() && at_tok(t, p + 3, Token::RParen) {
            return Some((ConfigValue::FnCall { name: n.unwrap(), arg: a.unwrap() }, p + 4));
        }
    }
    if at_tok(t, p, Token::NoneKw) {
        Some((ConfigValue::Disabled, p + 1))
    } else {
        None
    }
}

fn p_config_entry(t: &Vec<Token>, p: usize) -> (r: Option<(ConfigEntry, usize)>)
    requires
        p <= t.len(),
    ensures
        match config_entry(toks_view(t@), p as int) {
            Some((e, q)) => r matches Some((x, q2)) && q2 == q && entry_view(x) == e,
            None => r is None,
        },
        r matches Some((_, q)) ==> p < q <= t.len(),
{
    let k = any_name_exec(t, p);
    if k.is_some() && at_tok(t, p + 1, Token::Colon) {
        match p_config_value(t, p + 2) {
            Some((v, q)) => Some((ConfigEntry { key: k.unwrap(), value: v }, q)),
            None => None,
        }
    } else {
        None
    }
}

fn p_config_entries(t: &Vec<Token>, p: usize, acc: Vec<ConfigEntry>) -> (r: (Vec<ConfigEntry>, usize))
    requires
        p <= t.len(),
    ensures
        (entries_view(r.0@), r.1 as int) === config_entries(
            toks_view(t@),
            p as int,
            entries_view(acc@),
        ),
        p <= r.1 <= t.len(),
    decreases t.len() - p,
{
    match p_config_entry(t, p) {
        Some((e, q)) => if p < q && q <= t.len() {
            let mut acc = acc;
            let ghost old_acc = acc@;
            acc.push(e);
            proof {
                assert(entries_view(acc@) =~= entries_view(old_acc).push(entry_view(e)));
            }
            p_config_entries(t, q, acc)
        } else {
            (acc, p)
        },
        None => (acc, p),
    }
}

fn p_config_item(t: &Vec<Token>, p: usize) -> (r: Option<(Item, usize)>)
    requires
        p <= t.len(),
    ensures
        i_res(r) === config_item(toks_view(t@), p as int),
        r matches Some((_, q)) ==> p < q <= t.len(),
{
    if !(at_tok(t, p, Token::Config) && at_tok(t, p + 1, Token::LBrace)) {
        return None;
    }
    let (es, q) = p_config_entries(t, p + 2, Vec::new());
    proof {
        assert(entries_view(Seq::<ConfigEntry>::empty()) =~= Seq::<ConfigEntryV>::empty());
    }
    if at_tok(t, q, Token::RBrace) {
        Some((Item::Config(ConfigBlock { entries: es }), q + 1))
    } else {
        None
    }
}

// ───────────────────────────── memory ─────────────────────────────

fn p_decorator(t: &Vec<Token>, Ghost(tv): Ghost<Seq<TokenV>>, p: usize) -> (r: Option<(Decorator, usize)>)
    requires
        tv == toks_view(t@),
        p <= t.len(),
    ensures
        match decorator(tv, p as int) {
            Some((d, q)) => r matches Some((x, q2)) && q2 == q && decorator_view(x) == d,
            None => r is None,
        },
        r matches Some((_, q)) ==> p < q <= t.len(),
{
    if at_tok(t, p, Token::Index) {
        match any_name_exec(t, p + 1) {
            Some(n) => Some((Decorator::Index(n), p + 2)),
            None => None,
        }
    } else if at_tok(t, p, Token::Invariant) {
        match parse_expr(t, Ghost(tv), p + 1) {
            Some((e, q)) => Some((Decorator::Invariant(e), q)),
            None => None,
        }
    } else if at_tok(t, p, Token::Extern) {
        Some((Decorator::Extern, p + 1))
    } else {
        None
    }
}

fn p_decorators(t: &Vec<Token>, Ghost(tv): Ghost<Seq<TokenV>>, p: usize, acc: Vec<Decorator>) -> (r: (Vec<Decorator>, usize))
    requires
        tv == toks_view(t@),
        p <= t.len(),
    ensures
        (decorators_view(r.0@), r.1 as int) === decorators(tv, p as int, decorators_view(acc@)),
        p <= r.1 <= t.len(),
    decreases t.len() - p,
{
    match p_decorator(t, Ghost(tv), p) {
        Some((d, q)) => if p < q && q <= t.len() {
            let mut acc = acc;
            let ghost old_acc = acc@;
            acc.push(d);
            proof {
                assert(decorators_view(acc@) =~= decorators_view(old_acc).push(decorator_view(d)));
            }
            p_decorators(t, Ghost(tv), q, acc)
        } else {
            (acc, p)
        },
        None => (acc, p),
    }
}

fn p_field_def(t: &Vec<Token>, Ghost(tv): Ghost<Seq<TokenV>>, p: usize) -> (r: Option<(FieldDef, usize)>)
    requires
        tv == toks_view(t@),
        p <= t.len(),
    ensures
        match field_def(tv, p as int) {
            Some((f, q)) => r matches Some((x, q2)) && q2 == q && field_view(x) == f,
            None => r is None,
        },
        r matches Some((_, q)) ==> p < q <= t.len(),
{
    let (ds, q) = p_decorators(t, Ghost(tv), p, Vec::new());
    proof {
        assert(decorators_view(Seq::<Decorator>::empty()) =~= Seq::<DecoratorV>::empty());
    }
    let n = any_name_exec(t, q);
    if n.is_none() || !at_tok(t, q + 1, Token::Colon) {
        return None;
    }
    match parse_type_exec(t, Ghost(tv), q + 2) {
        Some((ty, q2)) => {
            let mut default = None;
            let mut q3 = q2;
            if at_tok(t, q2, Token::Eq) {
                if let Some((e, qe)) = parse_expr(t, Ghost(tv), q2 + 1) {
                    default = Some(e);
                    q3 = qe;
                }
            }
            Some((FieldDef { name: n.unwrap(), ty, default, decorators: ds }, q3))
        },
        None => None,
    }
}

fn p_field_defs(t: &Vec<Token>, Ghost(tv): Ghost<Seq<TokenV>>, p: usize, acc: Vec<FieldDef>) -> (r: (Vec<FieldDef>, usize))
    requires
        tv == toks_view(t@),
        p <= t.len(),
    ensures
        (fields_view(r.0@), r.1 as int) === field_defs(tv, p as int, fields_view(acc@)),
        p <= r.1 <= t.len(),
    decreases t.len() - p,
{
    match p_field_def(t, Ghost(tv), p) {
        Some((f, q)) => if p < q && q <= t.len() {
            let mut acc = acc;
            let ghost old_acc = acc@;
            acc.push(f);
            proof {
                assert(fields_view(acc@) =~= fields_view(old_acc).push(field_view(f)));
            }
            p_field_defs(t, Ghost(tv), q, acc)
        } else {
            (acc, p)
        },
        None => (acc, p),
    }
}

fn p_memory_item(t: &Vec<Token>, Ghost(tv): Ghost<Seq<TokenV>>, p: usize) -> (r: Option<(Item, usize)>)
    requires
        tv == toks_view(t@),
        p <= t.len(),
    ensures
        i_res(r) === memory_item(tv, p as int),
        r matches Some((_, q)) ==> p < q <= t.len(),
{
    if !at_tok(t, p, Token::Memory) {
        return None;
    }
    let n = ident_exec(t, p + 1);
    if n.is_none() || !at_tok(t, p + 2, Token::LBrace) {
        return None;
    }
    let (fs, q) = p_field_defs(t, Ghost(tv), p + 3, Vec::new());
    proof {
        assert(fields_view(Seq::<FieldDef>::empty()) =~= Seq::<FieldDefV>::empty());
    }
    if at_tok(t, q, Token::RBrace) {
        let m = MemoryDef {
            name: n.unwrap(),
            fields: fs,
            indexes: Vec::new(),
            invariants: Vec::new(),
        };
        proof {
            assert(crate::ast::strs_view(m.indexes@) =~= Seq::<Seq<char>>::empty());
            assert(crate::ast::exprs_view(m.invariants@) =~= Seq::<crate::ast::ExprV>::empty());
        }
        Some((Item::Memory(m), q + 1))
    } else {
        None
    }
}

// ───────────────────────────── handlers and queries ─────────────────────────────

fn p_handler_item(t: &Vec<Token>, Ghost(tv): Ghost<Seq<TokenV>>, p: usize) -> (r: Option<(Item, usize)>)
    requires
        tv == toks_view(t@),
        p <= t.len(),
    ensures
        i_res(r) === handler_item(tv, p as int),
        r matches Some((_, q)) ==> p < q <= t.len(),
{
    if !at_tok(t, p, Token::On) {
        return None;
    }
    let ev = any_name_exec(t, p + 1);
    if ev.is_none() || !at_tok(t, p + 2, Token::LParen) {
        return None;
    }
    let (ps, q) = p_params(t, Ghost(tv), p + 3);
    if !at_tok(t, q, Token::RParen) {
        return None;
    }
    match p_block(t, Ghost(tv), q + 1) {
        Some((body, q2)) => Some(
            (Item::Handler(HandlerDef { event: ev.unwrap(), params: ps, body }), q2),
        ),
        None => None,
    }
}

fn p_query_item(t: &Vec<Token>, Ghost(tv): Ghost<Seq<TokenV>>, p: usize) -> (r: Option<(Item, usize)>)
    requires
        tv == toks_view(t@),
        p <= t.len(),
    ensures
        i_res(r) === query_item(tv, p as int),
        r matches Some((_, q)) ==> p < q <= t.len(),
{
    if !at_tok(t, p, Token::Query) {
        return None;
    }
    let n = ident_exec(t, p + 1);
    if n.is_none() || !at_tok(t, p + 2, Token::LParen) {
        return None;
    }
    let (ps, q) = p_params(t, Ghost(tv), p + 3);
    if !(at_tok(t, q, Token::RParen) && at_tok(t, q + 1, Token::Colon)) {
        return None;
    }
    match parse_type_exec(t, Ghost(tv), q + 2) {
        Some((ty, q3)) => {
            if !at_tok(t, q3, Token::LBrace) {
                return None;
            }
            match parse_query_body(t, Ghost(tv), q3 + 1) {
                Some((qb, q4)) => if at_tok(t, q4, Token::RBrace) {
                    Some(
                        (
                            Item::Query(
                                QueryDef { name: n.unwrap(), params: ps, return_ty: ty, body: qb },
                            ),
                            q4 + 1,
                        ),
                    )
                } else {
                    None
                },
                None => None,
            }
        },
        None => None,
    }
}

// ───────────────────────────── update rules ─────────────────────────────

fn p_update_rule(t: &Vec<Token>, Ghost(tv): Ghost<Seq<TokenV>>, p: usize) -> (r: Option<(UpdateRule, usize)>)
    requires
        tv == toks_view(t@),
        p <= t.len(),
    ensures
        match update_rule(tv, p as int) {
            Some((u, q)) => r matches Some((x, q2)) && q2 == q && rule_view(x) == u,
            None => r is None,
        },
        r matches Some((_, q)) ==> p < q <= t.len(),
{
    if at_tok(t, p, Token::OnAccess) {
        match p_block(t, Ghost(tv), p + 1) {
            Some((body, q)) => Some((UpdateRule::OnAccess { body }, q)),
            None => None,
        }
    } else if at_tok(t, p, Token::OnConflict) {
        if !at_tok(t, p + 1, Token::LParen) {
            return None;
        }
        let a = ident_exec(t, p + 2);
        if a.is_none() || !at_tok(t, p + 3, Token::Comma) {
            return None;
        }
        let b = ident_exec(t, p + 4);
        if b.is_none() || !at_tok(t, p + 5, Token::RParen) {
            return None;
        }
        match p_block(t, Ghost(tv), p + 6) {
            Some((body, q)) => Some(
                (UpdateRule::OnConflict { old_name: a.unwrap(), new_name: b.unwrap(), body }, q),
            ),
            None => None,
        }
    } else if at_tok(t, p, Token::Every) {
        match duration_exec(t, p + 1) {
            Some(d) => match p_block(t, Ghost(tv), p + 2) {
                Some((body, q)) => Some((UpdateRule::Every { interval: d, body }, q)),
                None => None,
            },
            None => None,
        }
    } else {
        None
    }
}

fn p_update_rules(t: &Vec<Token>, Ghost(tv): Ghost<Seq<TokenV>>, p: usize, acc: Vec<UpdateRule>) -> (r: (Vec<UpdateRule>, usize))
    requires
        tv == toks_view(t@),
        p <= t.len(),
    ensures
        (rules_view(r.0@), r.1 as int) === update_rules(tv, p as int, rules_view(acc@)),
        p <= r.1 <= t.len(),
    decreases t.len() - p,
{
    match p_update_rule(t, Ghost(tv), p) {
        Some((u, q)) => if p < q && q <= t.len() {
            let mut acc = acc;
            let ghost old_acc = acc@;
            acc.push(u);
            proof {
                assert(rules_view(acc@) =~= rules_view(old_acc).push(rule_view(u)));
            }
            p_update_rules(t, Ghost(tv), q, acc)
        } else {
            (acc, p)
        },
        None => (acc, p),
    }
}

/// `update Name { .. }` when `is_policy` is false, `policy Name { .. }` when it is true.
fn p_rules_item(t: &Vec<Token>, Ghost(tv): Ghost<Seq<TokenV>>, p: usize, is_policy: bool) -> (r: Option<(Item, usize)>)
    requires
        tv == toks_view(t@),
        p <= t.len(),
    ensures
        i_res(r) === rules_item(tv, p as int, is_policy),
        r matches Some((_, q)) ==> p < q <= t.len(),
{
    let kw = if is_policy {
        Token::Policy
    } else {
        Token::Update
    };
    if !at_tok(t, p, kw) {
        return None;
    }
    let n = ident_exec(t, p + 1);
    if n.is_none() || !at_tok(t, p + 2, Token::LBrace) {
        return None;
    }
    let (rs, q) = p_update_rules(t, Ghost(tv), p + 3, Vec::new());
    proof {
        assert(rules_view(Seq::<UpdateRule>::empty()) =~= Seq::<UpdateRuleV>::empty());
    }
    if !at_tok(t, q, Token::RBrace) {
        return None;
    }
    let name = n.unwrap();
    let x = if is_policy {
        Item::Policy(PolicyDef { name, rules: rs })
    } else {
        Item::Update(UpdateDef { target: name, rules: rs })
    };
    Some((x, q + 1))
}

fn p_extern_item(t: &Vec<Token>, Ghost(tv): Ghost<Seq<TokenV>>, p: usize) -> (r: Option<(Item, usize)>)
    requires
        tv == toks_view(t@),
        p <= t.len(),
    ensures
        i_res(r) === extern_item(tv, p as int),
        r matches Some((_, q)) ==> p < q <= t.len(),
{
    if !(at_tok(t, p, Token::Extern) && at_tok(t, p + 1, Token::Fn)) {
        return None;
    }
    let n = ident_exec(t, p + 2);
    if n.is_none() || !at_tok(t, p + 3, Token::LParen) {
        return None;
    }
    let (ps, q) = p_params(t, Ghost(tv), p + 4);
    if !at_tok(t, q, Token::RParen) {
        return None;
    }
    let mut rt = None;
    let mut q2 = q + 1;
    if at_tok(t, q + 1, Token::Colon) {
        if let Some((ty, qt)) = parse_type_exec(t, Ghost(tv), q + 2) {
            rt = Some(ty);
            q2 = qt;
        }
    }
    Some((Item::ExternFn(ExternFnDef { name: n.unwrap(), params: ps, return_ty: rt }), q2))
}

// ───────────────────────────── items ─────────────────────────────

/// Parses one item at `p` (see [`item`]).
pub(crate) fn parse_item(t: &Vec<Token>, Ghost(tv): Ghost<Seq<TokenV>>, p: usize) -> (r: Option<(Item, usize)>)
    requires
        tv == toks_view(t@),
        p <= t.len(),
    ensures
        i_res(r) === item(tv, p as int),
        r matches Some((_, q)) ==> p < q <= t.len(),
{
    let r = p_config_item(t, p);
    if r.is_some() {
        return r;
    }
    let r = p_memory_item(t, Ghost(tv), p);
    if r.is_some() {
        return r;
    }
    let r = p_handler_item(t, Ghost(tv), p);
    if r.is_some() {
        return r;
    }
    let r = p_query_item(t, Ghost(tv), p);
    if r.is_some() {
        return r;
    }
    let r = p_rules_item(t, Ghost(tv), p, false);
    if r.is_some() {
        return r;
    }
    let r = p_rules_item(t, Ghost(tv), p, true);
    if r.is_some() {
        return r;
    }
    p_extern_item(t, Ghost(tv), p)
}

fn p_items(t: &Vec<Token>, Ghost(tv): Ghost<Seq<TokenV>>, p: usize, acc: Vec<Item>) -> (r: (Vec<Item>, usize))
    requires
        tv == toks_view(t@),
        p <= t.len(),
    ensures
        (items_view(r.0@), r.1 as int) === items(tv, p as int, items_view(acc@)),
        p <= r.1 <= t.len(),
    decreases t.len() - p,
{
    match parse_item(t, Ghost(tv), p) {
        Some((x, q)) => if p < q && q <= t.len() {
            let mut acc = acc;
            let ghost old_acc = acc@;
            acc.push(x);
            proof {
                assert(acc@.subrange(0, old_acc.len() as int) =~= old_acc);
            }
            p_items(t, Ghost(tv), q, acc)
        } else {
            (acc, p)
        },
        None => (acc, p),
    }
}

fn p_ns_or_item(t: &Vec<Token>, Ghost(tv): Ghost<Seq<TokenV>>, p: usize) -> (r: Option<(Item, usize)>)
    requires
        tv == toks_view(t@),
        p <= t.len(),
    ensures
        i_res(r) === ns_or_item(tv, p as int),
        r matches Some((_, q)) ==> p < q <= t.len(),
{
    if at_tok(t, p, Token::Namespace) {
        let n = ident_exec(t, p + 1);
        if n.is_some() && at_tok(t, p + 2, Token::LBrace) {
            let (xs, q) = p_items(t, Ghost(tv), p + 3, Vec::new());
            proof {
                assert(items_view(Seq::<Item>::empty()) =~= Seq::<ItemV>::empty());
            }
            if at_tok(t, q, Token::RBrace) {
                return Some((Item::Namespace(NamespaceDef { name: n.unwrap(), items: xs }), q + 1));
            }
        }
    }
    parse_item(t, Ghost(tv), p)
}

/// Top-level items from `p` on, appended to `acc` (see [`top_items`]).
pub(crate) fn p_top_items(t: &Vec<Token>, Ghost(tv): Ghost<Seq<TokenV>>, p: usize, acc: Vec<Item>) -> (r: (Vec<Item>, usize))
    requires
        tv == toks_view(t@),
        p <= t.len(),
    ensures
        (items_view(r.0@), r.1 as int) === top_items(tv, p as int, items_view(acc@)),
        p <= r.1 <= t.len(),
    decreases t.len() - p,
{
    match p_ns_or_item(t, Ghost(tv), p) {
        Some((x, q)) => if p < q && q <= t.len() {
            let mut acc = acc;
            let ghost old_acc = acc@;
            acc.push(x);
            proof {
                assert(acc@.subrange(0, old_acc.len() as int) =~= old_acc);
            }
            p_top_items(t, Ghost(tv), q, acc)
        } else {
            (acc, p)
        },
        None => (acc, p),
    }
}

} // verus!
