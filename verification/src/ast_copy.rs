//! Copies of syntax trees that keep the models of the trees they copy.
use vstd::prelude::*;
use crate::ast::{
    arg_view, finit_view, args_view, config_value_view, decorator_view, decorators_view, dict_view, entries_view,
    expr_view, exprs_view, field_view, fields_view, finits_view, item_view, items_view,
    lemma_args_view_take, lemma_dict_view_index, lemma_exprs_view_take, lemma_finits_view_take,
    lemma_items_view_take, lemma_stmts_view_take, channel_view, entry_view, Program, opt_expr_view, opt_str_view, opt_type_view,
    params_view, qbody_view, rule_view, rules_view, stmt_view, stmts_view, strs_view,
    channel_handler_view, CallArg, CallArgV, ChannelDef, ChannelEventHandler, ConfigBlock,
    ConfigEntry, ConfigValue, Decorator, Expr, ExprV, ExternFnDef, FieldDef, FieldInit,
    FieldInitV, HandlerDef, Item, ItemV, MemoryDef, NamespaceDef, OrderByClause, Param,
    PolicyDef, QueryBody, QueryDef, Stmt, StmtV, UpdateDef, UpdateRule,
};
use crate::types::clone_type;

verus! {

pub fn copy_strings(v: &Vec<String>) -> (r: Vec<String>)
    ensures
        strs_view(r@) == strs_view(v@),
{
    let mut r: Vec<String> = Vec::new();
    let mut i: usize = 0;
    while i < v.len()
        invariant
            i <= v.len(),
            strs_view(r@) == strs_view(v@).take(i as int),
        decreases v.len() - i,
    {
        let x = v[i].clone();
        let ghost old_r = r@;
        let ghost xv = strs_view(seq![x])[0];
        assert(xv == strs_view(v@)[i as int]);
        r.push(x);
        assert(strs_view(r@) =~= strs_view(old_r).push(xv));
        i = i + 1;
        assert(strs_view(r@) =~= strs_view(v@).take(i as int));
    }
    assert(strs_view(v@).take(i as int) =~= strs_view(v@));
    r
}

fn copy_opt_string(o: &Option<String>) -> (r: Option<String>)
    ensures
        opt_str_view(r) == opt_str_view(*o),
{
    match o {
        Some(s) => Some(s.clone()),
        None => None,
    }
}

/// A copy of an expression.
pub fn copy_expr(e: &Expr) -> (r: Expr)
    ensures
        expr_view(r) == expr_view(*e),
    decreases e,
{
    match e {
        Expr::Int(n) => Expr::Int(*n),
        Expr::Float(s) => Expr::Float(s.clone()),
        Expr::Str(s) => Expr::Str(s.clone()),
        Expr::Bool(b) => Expr::Bool(*b),
        Expr::Null => Expr::Null,
        Expr::Duration(d) => Expr::Duration(*d),
        Expr::Ident(s) => Expr::Ident(s.clone()),
        Expr::FieldAccess { object, field } => Expr::FieldAccess {
            object: Box::new(copy_expr(&**object)),
            field: field.clone(),
        },
        Expr::OptionalChain { object, field } => Expr::OptionalChain {
            object: Box::new(copy_expr(&**object)),
            field: field.clone(),
        },
        Expr::IndexAccess { object, index } => Expr::IndexAccess {
            object: Box::new(copy_expr(&**object)),
            index: Box::new(copy_expr(&**index)),
        },
        Expr::Binary { left, op, right } => Expr::Binary {
            left: Box::new(copy_expr(&**left)),
            op: *op,
            right: Box::new(copy_expr(&**right)),
        },
        Expr::Unary { op, operand } => Expr::Unary {
            op: *op,
            operand: Box::new(copy_expr(&**operand)),
        },
        Expr::Call { func, args } => Expr::Call {
            func: Box::new(copy_expr(&**func)),
            args: copy_args(args),
        },
        Expr::Pipe { left, right } => Expr::Pipe {
            left: Box::new(copy_expr(&**left)),
            right: Box::new(copy_expr(&**right)),
        },
        Expr::StructInit { name, fields } => Expr::StructInit {
            name: name.clone(),
            fields: copy_finits(fields),
        },
        Expr::Lambda { params, body } => Expr::Lambda {
            params: copy_strings(params),
            body: Box::new(copy_expr(&**body)),
        },
        Expr::Array(elems) => Expr::Array(copy_exprs(elems)),
        Expr::InlineQuery(q) => Expr::InlineQuery(Box::new(copy_query_body(&**q))),
        Expr::Alias { expr, alias } => Expr::Alias {
            expr: Box::new(copy_expr(&**expr)),
            alias: alias.clone(),
        },
    }
}

fn copy_opt_expr(o: &Option<Expr>) -> (r: Option<Expr>)
    ensures
        opt_expr_view(r) == opt_expr_view(*o),
    decreases o,
{
    match o {
        Some(e) => Some(copy_expr(e)),
        None => None,
    }
}

fn copy_exprs(v: &Vec<Expr>) -> (r: Vec<Expr>)
    ensures
        exprs_view(r@) == exprs_view(v@),
    decreases v,
{
    let mut r: Vec<Expr> = Vec::new();
    let mut i: usize = 0;
    assert(exprs_view(v@.take(0)) =~= Seq::<ExprV>::empty());
    assert(exprs_view(r@) =~= Seq::<ExprV>::empty());
    while i < v.len()
        invariant
            i <= v.len(),
            r@.len() == i,
            exprs_view(r@) == exprs_view(v@.take(i as int)),
        decreases v.len() - i,
    {
        let x = copy_expr(&v[i]);
        let ghost before = r@;
        r.push(x);
        proof {
            lemma_exprs_view_take(v@, i as int);
            assert(r@.subrange(0, before.len() as int) =~= before);
        }
        i = i + 1;
    }
    assert(v@.take(i as int) =~= v@);
    r
}

fn copy_args(v: &Vec<CallArg>) -> (r: Vec<CallArg>)
    ensures
        args_view(r@) == args_view(v@),
    decreases v,
{
    let mut r: Vec<CallArg> = Vec::new();
    let mut i: usize = 0;
    assert(args_view(v@.take(0)) =~= Seq::<CallArgV>::empty());
    assert(args_view(r@) =~= Seq::<CallArgV>::empty());
    while i < v.len()
        invariant
            i <= v.len(),
            r@.len() == i,
            args_view(r@) == args_view(v@.take(i as int)),
        decreases v.len() - i,
    {
        let x = CallArg { name: copy_opt_string(&v[i].name), value: copy_expr(&v[i].value) };
        assert(arg_view(x) == arg_view(v@[i as int]));
        let ghost before = r@;
        r.push(x);
        proof {
            lemma_args_view_take(v@, i as int);
            assert(r@.subrange(0, before.len() as int) =~= before);
        }
        i = i + 1;
    }
    assert(v@.take(i as int) =~= v@);
    r
}

fn copy_finits(v: &Vec<FieldInit>) -> (r: Vec<FieldInit>)
    ensures
        finits_view(r@) == finits_view(v@),
    decreases v,
{
    let mut r: Vec<FieldInit> = Vec::new();
    let mut i: usize = 0;
    assert(finits_view(v@.take(0)) =~= Seq::<FieldInitV>::empty());
    assert(finits_view(r@) =~= Seq::<FieldInitV>::empty());
    while i < v.len()
        invariant
            i <= v.len(),
            r@.len() == i,
            finits_view(r@) == finits_view(v@.take(i as int)),
        decreases v.len() - i,
    {
        let x = FieldInit { name: v[i].name.clone(), value: copy_expr(&v[i].value) };
        assert(finit_view(x) == finit_view(v@[i as int]));
        let ghost before = r@;
        r.push(x);
        proof {
            lemma_finits_view_take(v@, i as int);
            assert(r@.subrange(0, before.len() as int) =~= before);
        }
        i = i + 1;
    }
    assert(v@.take(i as int) =~= v@);
    r
}

/// A copy of the body of a query.
pub fn copy_query_body(q: &QueryBody) -> (r: QueryBody)
    ensures
        qbody_view(r) == qbody_view(*q),
    decreases q,
{
    QueryBody {
        from: copy_strings(&q.from),
        where_clause: copy_opt_expr(&q.where_clause),
        order_by: match &q.order_by {
            Some(ob) => Some(OrderByClause { expr: copy_expr(&ob.expr), direction: ob.direction }),
            None => None,
        },
        limit: copy_opt_expr(&q.limit),
    }
}

/// A copy of a statement.
pub fn copy_stmt(st: &Stmt) -> (r: Stmt)
    ensures
        stmt_view(r) == stmt_view(*st),
    decreases st,
{
    match st {
        Stmt::Let { name, value } => Stmt::Let { name: name.clone(), value: copy_expr(value) },
        Stmt::Assign { target, value } => Stmt::Assign {
            target: copy_expr(target),
            value: copy_expr(value),
        },
        Stmt::If { condition, then_body, else_body } => Stmt::If {
            condition: copy_expr(condition),
            then_body: copy_stmts(then_body),
            else_body: match else_body {
                Some(b) => Some(copy_stmts(b)),
                None => None,
            },
        },
        Stmt::For { var, iter, body } => Stmt::For {
            var: var.clone(),
            iter: copy_expr(iter),
            body: copy_stmts(body),
        },
        Stmt::Return(o) => Stmt::Return(copy_opt_expr(o)),
        Stmt::Expr(e) => Stmt::Expr(copy_expr(e)),
    }
}

/// A copy of a list of statements.
pub fn copy_stmts(v: &Vec<Stmt>) -> (r: Vec<Stmt>)
    ensures
        stmts_view(r@) == stmts_view(v@),
    decreases v,
{
    let mut r: Vec<Stmt> = Vec::new();
    let mut i: usize = 0;
    assert(stmts_view(v@.take(0)) =~= Seq::<StmtV>::empty());
    assert(stmts_view(r@) =~= Seq::<StmtV>::empty());
    while i < v.len()
        invariant
            i <= v.len(),
            r@.len() == i,
            stmts_view(r@) == stmts_view(v@.take(i as int)),
        decreases v.len() - i,
    {
        let x = copy_stmt(&v[i]);
        let ghost before = r@;
        r.push(x);
        proof {
            lemma_stmts_view_take(v@, i as int);
            assert(r@.subrange(0, before.len() as int) =~= before);
        }
        i = i + 1;
    }
    assert(v@.take(i as int) =~= v@);
    r
}

fn copy_params(v: &Vec<Param>) -> (r: Vec<Param>)
    ensures
        params_view(r@) == params_view(v@),
{
    let mut r: Vec<Param> = Vec::new();
    let mut i: usize = 0;
    while i < v.len()
        invariant
            i <= v.len(),
            params_view(r@) == params_view(v@).take(i as int),
        decreases v.len() - i,
    {
        let x = Param { name: v[i].name.clone(), ty: clone_type(&v[i].ty) };
        let ghost old_r = r@;
        let ghost xv = params_view(seq![x])[0];
        assert(xv == params_view(v@)[i as int]);
        r.push(x);
        assert(params_view(r@) =~= params_view(old_r).push(xv));
        i = i + 1;
        assert(params_view(r@) =~= params_view(v@).take(i as int));
    }
    assert(params_view(v@).take(i as int) =~= params_view(v@));
    r
}

fn copy_opt_type(o: &Option<crate::types::Type>) -> (r: Option<crate::types::Type>)
    ensures
        opt_type_view(r) == opt_type_view(*o),
{
    match o {
        Some(t) => Some(clone_type(t)),
        None => None,
    }
}

fn copy_decorator(d: &Decorator) -> (r: Decorator)
    ensures
        decorator_view(r) == decorator_view(*d),
{
    match d {
        Decorator::Index(n) => Decorator::Index(n.clone()),
        Decorator::Invariant(e) => Decorator::Invariant(copy_expr(e)),
        Decorator::Extern => Decorator::Extern,
    }
}

fn copy_decorators(v: &Vec<Decorator>) -> (r: Vec<Decorator>)
    ensures
        decorators_view(r@) == decorators_view(v@),
{
    let mut r: Vec<Decorator> = Vec::new();
    let mut i: usize = 0;
    while i < v.len()
        invariant
            i <= v.len(),
            decorators_view(r@) == decorators_view(v@).take(i as int),
        decreases v.len() - i,
    {
        let x = copy_decorator(&v[i]);
        let ghost old_r = r@;
        let ghost xv = decorators_view(seq![x])[0];
        assert(xv == decorators_view(v@)[i as int]);
        r.push(x);
        assert(decorators_view(r@) =~= decorators_view(old_r).push(xv));
        i = i + 1;
        assert(decorators_view(r@) =~= decorators_view(v@).take(i as int));
    }
    assert(decorators_view(v@).take(i as int) =~= decorators_view(v@));
    r
}

/// A copy of a field declaration.
pub fn copy_field(f: &FieldDef) -> (r: FieldDef)
    ensures
        field_view(r) == field_view(*f),
{
    FieldDef {
        name: f.name.clone(),
        ty: clone_type(&f.ty),
        default: copy_opt_expr(&f.default),
        decorators: copy_decorators(&f.decorators),
    }
}

/// A copy of a list of field declarations.
pub fn copy_fields(v: &Vec<FieldDef>) -> (r: Vec<FieldDef>)
    ensures
        fields_view(r@) == fields_view(v@),
{
    let mut r: Vec<FieldDef> = Vec::new();
    let mut i: usize = 0;
    while i < v.len()
        invariant
            i <= v.len(),
            fields_view(r@) == fields_view(v@).take(i as int),
        decreases v.len() - i,
    {
        let x = copy_field(&v[i]);
        let ghost old_r = r@;
        let ghost xv = fields_view(seq![x])[0];
        assert(xv == fields_view(v@)[i as int]);
        r.push(x);
        assert(fields_view(r@) =~= fields_view(old_r).push(xv));
        i = i + 1;
        assert(fields_view(r@) =~= fields_view(v@).take(i as int));
    }
    assert(fields_view(v@).take(i as int) =~= fields_view(v@));
    r
}

/// A copy of an update rule.
pub fn copy_rule(u: &UpdateRule) -> (r: UpdateRule)
    ensures
        rule_view(r) == rule_view(*u),
{
    match u {
        UpdateRule::OnAccess { body } => UpdateRule::OnAccess { body: copy_stmts(body) },
        UpdateRule::OnConflict { old_name, new_name, body } => UpdateRule::OnConflict {
            old_name: old_name.clone(),
            new_name: new_name.clone(),
            body: copy_stmts(body),
        },
        UpdateRule::Every { interval, body } => UpdateRule::Every {
            interval: *interval,
            body: copy_stmts(body),
        },
    }
}

/// A copy of a list of update rules.
pub fn copy_rules(v: &Vec<UpdateRule>) -> (r: Vec<UpdateRule>)
    ensures
        rules_view(r@) == rules_view(v@),
{
    let mut r: Vec<UpdateRule> = Vec::new();
    let mut i: usize = 0;
    while i < v.len()
        invariant
            i <= v.len(),
            rules_view(r@) == rules_view(v@).take(i as int),
        decreases v.len() - i,
    {
        let x = copy_rule(&v[i]);
        let ghost old_r = r@;
        let ghost xv = rules_view(seq![x])[0];
        assert(xv == rules_view(v@)[i as int]);
        r.push(x);
        assert(rules_view(r@) =~= rules_view(old_r).push(xv));
        i = i + 1;
        assert(rules_view(r@) =~= rules_view(v@).take(i as int));
    }
    assert(rules_view(v@).take(i as int) =~= rules_view(v@));
    r
}

/// A copy of a config value.
pub fn copy_config_value(c: &ConfigValue) -> (r: ConfigValue)
    ensures
        config_value_view(r) == config_value_view(*c),
    decreases c,
{
    match c {
        ConfigValue::FnCall { name, arg } => ConfigValue::FnCall {
            name: name.clone(),
            arg: arg.clone(),
        },
        ConfigValue::Disabled => ConfigValue::Disabled,
        ConfigValue::Auto => ConfigValue::Auto,
        ConfigValue::Dict(d) => ConfigValue::Dict(copy_dict(d)),
    }
}

fn copy_dict(v: &Vec<(String, ConfigValue)>) -> (r: Vec<(String, ConfigValue)>)
    ensures
        dict_view(r@) == dict_view(v@),
    decreases v,
{
    let mut r: Vec<(String, ConfigValue)> = Vec::new();
    let mut i: usize = 0;
    proof {
        lemma_dict_view_index(v@);
    }
    assert(dict_view(r@) =~= Seq::empty());
    while i < v.len()
        invariant
            i <= v.len(),
            r@.len() == i,
            dict_view(v@).len() == v@.len(),
            forall|k: int|
                0 <= k < v@.len() ==> dict_view(v@)[k] == (
                    (#[trigger] v@[k]).0@,
                    config_value_view(v@[k].1),
                ),
            dict_view(r@) == dict_view(v@).take(i as int),
        decreases v.len() - i,
    {
        let x = (v[i].0.clone(), copy_config_value(&v[i].1));
        let ghost before = r@;
        r.push(x);
        proof {
            assert(r@.subrange(0, before.len() as int) =~= before);
            assert(dict_view(r@) =~= dict_view(v@).take(i + 1));
        }
        i = i + 1;
    }
    assert(dict_view(v@).take(i as int) =~= dict_view(v@));
    r
}

/// A copy of a list of config entries.
pub fn copy_entries(v: &Vec<ConfigEntry>) -> (r: Vec<ConfigEntry>)
    ensures
        entries_view(r@) == entries_view(v@),
{
    let mut r: Vec<ConfigEntry> = Vec::new();
    let mut i: usize = 0;
    while i < v.len()
        invariant
            i <= v.len(),
            entries_view(r@) == entries_view(v@).take(i as int),
        decreases v.len() - i,
    {
        let x = ConfigEntry { key: v[i].key.clone(), value: copy_config_value(&v[i].value) };
        let ghost old_r = r@;
        let ghost xv = entries_view(seq![x])[0];
        assert(xv == entries_view(v@)[i as int]);
        r.push(x);
        assert(entries_view(r@) =~= entries_view(old_r).push(xv));
        i = i + 1;
        assert(entries_view(r@) =~= entries_view(v@).take(i as int));
    }
    assert(entries_view(v@).take(i as int) =~= entries_view(v@));
    r
}

fn copy_channel_handlers(v: &Vec<ChannelEventHandler>) -> (r: Vec<ChannelEventHandler>)
    ensures
        r@.map_values(|h: ChannelEventHandler| channel_handler_view(h)) == v@.map_values(
            |h: ChannelEventHandler| channel_handler_view(h),
        ),
{
    let ghost target = v@.map_values(|h: ChannelEventHandler| channel_handler_view(h));
    let mut r: Vec<ChannelEventHandler> = Vec::new();
    let mut i: usize = 0;
    while i < v.len()
        invariant
            i <= v.len(),
            target == v@.map_values(|h: ChannelEventHandler| channel_handler_view(h)),
            r@.map_values(|h: ChannelEventHandler| channel_handler_view(h)) == target.take(i as int),
        decreases v.len() - i,
    {
        let h = &v[i];
        let x = ChannelEventHandler {
            event: h.event.clone(),
            target: copy_opt_string(&h.target),
            params: copy_params(&h.params),
            body: copy_stmts(&h.body),
        };
        let ghost old_r = r@;
        let ghost xv = channel_handler_view(x);
        assert(xv == target[i as int]);
        r.push(x);
        assert(r@.map_values(|h: ChannelEventHandler| channel_handler_view(h)) =~= old_r.map_values(
            |h: ChannelEventHandler| channel_handler_view(h),
        ).push(xv));
        i = i + 1;
        assert(r@.map_values(|h: ChannelEventHandler| channel_handler_view(h)) =~= target.take(
            i as int,
        ));
    }
    assert(target.take(i as int) =~= target);
    r
}

/// A copy of an item.
pub fn copy_item(it: &Item) -> (r: Item)
    ensures
        item_view(r) == item_view(*it),
    decreases it,
{
    match it {
        Item::Config(c) => Item::Config(ConfigBlock { entries: copy_entries(&c.entries) }),
        Item::Channel(c) => Item::Channel(
            ChannelDef {
                name: c.name.clone(),
                source: c.source.clone(),
                config: copy_entries(&c.config),
                poll_interval: c.poll_interval,
                events: copy_channel_handlers(&c.events),
            },
        ),
        Item::Namespace(ns) => Item::Namespace(
            NamespaceDef { name: ns.name.clone(), items: copy_items(&ns.items) },
        ),
        Item::Memory(m) => Item::Memory(
            MemoryDef {
                name: m.name.clone(),
                fields: copy_fields(&m.fields),
                indexes: copy_strings(&m.indexes),
                invariants: copy_exprs(&m.invariants),
            },
        ),
        Item::Handler(h) => Item::Handler(
            HandlerDef {
                event: h.event.clone(),
                params: copy_params(&h.params),
                body: copy_stmts(&h.body),
            },
        ),
        Item::Query(q) => Item::Query(
            QueryDef {
                name: q.name.clone(),
                params: copy_params(&q.params),
                return_ty: clone_type(&q.return_ty),
                body: copy_query_body(&q.body),
            },
        ),
        Item::Update(u) => Item::Update(
            UpdateDef { target: u.target.clone(), rules: copy_rules(&u.rules) },
        ),
        Item::Policy(p) => Item::Policy(PolicyDef { name: p.name.clone(), rules: copy_rules(&p.rules) }),
        Item::ExternFn(f) => Item::ExternFn(
            ExternFnDef {
                name: f.name.clone(),
                params: copy_params(&f.params),
                return_ty: copy_opt_type(&f.return_ty),
            },
        ),
    }
}

/// A copy of a list of items.
pub fn copy_items(v: &Vec<Item>) -> (r: Vec<Item>)
    ensures
        items_view(r@) == items_view(v@),
    decreases v,
{
    let mut r: Vec<Item> = Vec::new();
    let mut i: usize = 0;
    assert(items_view(v@.take(0)) =~= Seq::<ItemV>::empty());
    assert(items_view(r@) =~= Seq::<ItemV>::empty());
    while i < v.len()
        invariant
            i <= v.len(),
            r@.len() == i,
            items_view(r@) == items_view(v@.take(i as int)),
        decreases v.len() - i,
    {
        let x = copy_item(&v[i]);
        let ghost before = r@;
        r.push(x);
        proof {
            lemma_items_view_take(v@, i as int);
            assert(r@.subrange(0, before.len() as int) =~= before);
        }
        i = i + 1;
    }
    assert(v@.take(i as int) =~= v@);
    r
}

// ───────────────────────────── Clone ─────────────────────────────

impl Clone for Expr {
    fn clone(&self) -> (r: Self)
        ensures
            expr_view(r) == expr_view(*self),
    {
        copy_expr(self)
    }
}

impl Clone for CallArg {
    fn clone(&self) -> (r: Self)
        ensures
            arg_view(r) == arg_view(*self),
    {
        CallArg { name: copy_opt_string(&self.name), value: copy_expr(&self.value) }
    }
}

impl Clone for FieldInit {
    fn clone(&self) -> (r: Self)
        ensures
            finit_view(r) == finit_view(*self),
    {
        FieldInit { name: self.name.clone(), value: copy_expr(&self.value) }
    }
}

impl Clone for QueryBody {
    fn clone(&self) -> (r: Self)
        ensures
            qbody_view(r) == qbody_view(*self),
    {
        copy_query_body(self)
    }
}

impl Clone for OrderByClause {
    fn clone(&self) -> (r: Self)
        ensures
            expr_view(r.expr) == expr_view(self.expr),
            r.direction == self.direction,
    {
        OrderByClause { expr: copy_expr(&self.expr), direction: self.direction }
    }
}

impl Clone for Stmt {
    fn clone(&self) -> (r: Self)
        ensures
            stmt_view(r) == stmt_view(*self),
    {
        copy_stmt(self)
    }
}

impl Clone for Param {
    fn clone(&self) -> (r: Self)
        ensures
            r.name@ == self.name@,
            r.ty@ == self.ty@,
    {
        Param { name: self.name.clone(), ty: clone_type(&self.ty) }
    }
}

impl Clone for Decorator {
    fn clone(&self) -> (r: Self)
        ensures
            decorator_view(r) == decorator_view(*self),
    {
        copy_decorator(self)
    }
}

impl Clone for FieldDef {
    fn clone(&self) -> (r: Self)
        ensures
            field_view(r) == field_view(*self),
    {
        copy_field(self)
    }
}

impl Clone for UpdateRule {
    fn clone(&self) -> (r: Self)
        ensures
            rule_view(r) == rule_view(*self),
    {
        copy_rule(self)
    }
}

impl Clone for ConfigValue {
    fn clone(&self) -> (r: Self)
        ensures
            config_value_view(r) == config_value_view(*self),
    {
        copy_config_value(self)
    }
}

impl Clone for ConfigEntry {
    fn clone(&self) -> (r: Self)
        ensures
            entry_view(r) == entry_view(*self),
    {
        ConfigEntry { key: self.key.clone(), value: copy_config_value(&self.value) }
    }
}

impl Clone for ConfigBlock {
    fn clone(&self) -> (r: Self)
        ensures
            entries_view(r.entries@) == entries_view(self.entries@),
    {
        ConfigBlock { entries: copy_entries(&self.entries) }
    }
}

impl Clone for ChannelEventHandler {
    fn clone(&self) -> (r: Self)
        ensures
            channel_handler_view(r) == channel_handler_view(*self),
    {
        ChannelEventHandler {
            event: self.event.clone(),
            target: copy_opt_string(&self.target),
            params: copy_params(&self.params),
            body: copy_stmts(&self.body),
        }
    }
}

impl Clone for ChannelDef {
    fn clone(&self) -> (r: Self)
        ensures
            channel_view(r) == channel_view(*self),
    {
        ChannelDef {
            name: self.name.clone(),
            source: self.source.clone(),
            config: copy_entries(&self.config),
            poll_interval: self.poll_interval,
            events: copy_channel_handlers(&self.events),
        }
    }
}

impl Clone for NamespaceDef {
    fn clone(&self) -> (r: Self)
        ensures
            r.name@ == self.name@,
            items_view(r.items@) == items_view(self.items@),
    {
        NamespaceDef { name: self.name.clone(), items: copy_items(&self.items) }
    }
}

impl Clone for MemoryDef {
    fn clone(&self) -> (r: Self)
        ensures
            item_view(Item::Memory(r)) == item_view(Item::Memory(*self)),
    {
        MemoryDef {
            name: self.name.clone(),
            fields: copy_fields(&self.fields),
            indexes: copy_strings(&self.indexes),
            invariants: copy_exprs(&self.invariants),
        }
    }
}

impl Clone for HandlerDef {
    fn clone(&self) -> (r: Self)
        ensures
            item_view(Item::Handler(r)) == item_view(Item::Handler(*self)),
    {
        HandlerDef {
            event: self.event.clone(),
            params: copy_params(&self.params),
            body: copy_stmts(&self.body),
        }
    }
}

impl Clone for QueryDef {
    fn clone(&self) -> (r: Self)
        ensures
            item_view(Item::Query(r)) == item_view(Item::Query(*self)),
    {
        QueryDef {
            name: self.name.clone(),
            params: copy_params(&self.params),
            return_ty: clone_type(&self.return_ty),
            body: copy_query_body(&self.body),
        }
    }
}

impl Clone for UpdateDef {
    fn clone(&self) -> (r: Self)
        ensures
            item_view(Item::Update(r)) == item_view(Item::Update(*self)),
    {
        UpdateDef { target: self.target.clone(), rules: copy_rules(&self.rules) }
    }
}

impl Clone for PolicyDef {
    fn clone(&self) -> (r: Self)
        ensures
            item_view(Item::Policy(r)) == item_view(Item::Policy(*self)),
    {
        PolicyDef { name: self.name.clone(), rules: copy_rules(&self.rules) }
    }
}

impl Clone for ExternFnDef {
    fn clone(&self) -> (r: Self)
        ensures
            item_view(Item::ExternFn(r)) == item_view(Item::ExternFn(*self)),
    {
        ExternFnDef {
            name: self.name.clone(),
            params: copy_params(&self.params),
            return_ty: copy_opt_type(&self.return_ty),
        }
    }
}

impl Clone for Item {
    fn clone(&self) -> (r: Self)
        ensures
            item_view(r) == item_view(*self),
    {
        copy_item(self)
    }
}

impl Clone for Program {
    fn clone(&self) -> (r: Self)
        ensures
            r@ == self@,
    {
        Program { items: copy_items(&self.items) }
    }
}

} // verus!
