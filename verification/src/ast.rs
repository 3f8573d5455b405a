use vstd::prelude::*;
use crate::types::{Type, TypeV};

verus! {

// ───────────────────────────── top level ─────────────────────────────

#[derive(Debug)]
pub struct Program {
    pub items: Vec<Item>,
}

#[derive(Debug)]
pub enum Item {
    Config(ConfigBlock),
    Channel(ChannelDef),
    Namespace(NamespaceDef),
    Memory(MemoryDef),
    Handler(HandlerDef),
    Query(QueryDef),
    Update(UpdateDef),
    Policy(PolicyDef),
    ExternFn(ExternFnDef),
}

#[derive(Debug)]
pub struct ConfigBlock {
    pub entries: Vec<ConfigEntry>,
}

#[derive(Debug)]
pub struct ConfigEntry {
    pub key: String,
    pub value: ConfigValue,
}

#[derive(Debug)]
pub enum ConfigValue {
    FnCall { name: String, arg: String },
    Disabled,
    Auto,
    Dict(Vec<(String, ConfigValue)>),
}

#[derive(Debug)]
pub struct ChannelDef {
    pub name: String,
    pub source: String,
    pub config: Vec<ConfigEntry>,
    pub poll_interval: Option<Duration>,
    pub events: Vec<ChannelEventHandler>,
}

#[derive(Debug)]
pub struct ChannelEventHandler {
    pub event: String,
    pub target: Option<String>,
    pub params: Vec<Param>,
    pub body: Vec<Stmt>,
}

#[derive(Debug)]
pub struct NamespaceDef {
    pub name: String,
    pub items: Vec<Item>,
}

#[derive(Debug)]
pub struct MemoryDef {
    pub name: String,
    pub fields: Vec<FieldDef>,
    /// Field names to index (from standalone `@index name`)
    pub indexes: Vec<String>,
    /// Invariant expressions (from standalone `@invariant expr`)
    pub invariants: Vec<Expr>,
}

#[derive(Debug)]
pub struct FieldDef {
    pub name: String,
    pub ty: Type,
    pub default: Option<Expr>,
    pub decorators: Vec<Decorator>,
}

#[derive(Debug)]
pub enum Decorator {
    Index(String),
    Invariant(Expr),
    Extern,
}

#[derive(Debug)]
pub struct HandlerDef {
    pub event: String,
    pub params: Vec<Param>,
    pub body: Vec<Stmt>,
}

#[derive(Debug)]
pub struct QueryDef {
    pub name: String,
    pub params: Vec<Param>,
    pub return_ty: Type,
    pub body: QueryBody,
}

#[derive(Debug)]
pub struct QueryBody {
    pub from: Vec<String>,
    pub where_clause: Option<Expr>,
    pub order_by: Option<OrderByClause>,
    pub limit: Option<Expr>,
}

#[derive(Debug)]
pub struct OrderByClause {
    pub expr: Expr,
    pub direction: SortDir,
}

#[derive(Debug, Clone, Copy, PartialEq, Eq, Structural)]
pub enum SortDir {
    Asc,
    Desc,
}

#[derive(Debug)]
pub struct UpdateDef {
    pub target: String,
    pub rules: Vec<UpdateRule>,
}

#[derive(Debug)]
pub enum UpdateRule {
    OnAccess { body: Vec<Stmt> },
    OnConflict { old_name: String, new_name: String, body: Vec<Stmt> },
    Every { interval: Duration, body: Vec<Stmt> },
}

#[derive(Debug)]
pub struct PolicyDef {
    pub name: String,
    pub rules: Vec<UpdateRule>,
}

#[derive(Debug)]
pub struct ExternFnDef {
    pub name: String,
    pub params: Vec<Param>,
    pub return_ty: Option<Type>,
}

#[derive(Debug)]
pub struct Param {
    pub name: String,
    pub ty: Type,
}

#[derive(Debug, Clone, Copy, PartialEq, Eq, Structural)]
pub struct Duration {
    pub value: u64,
    pub unit: DurationUnit,
}

#[derive(Debug, Clone, Copy, PartialEq, Eq, Structural)]
pub enum DurationUnit {
    Second,
    Minute,
    Hour,
    Day,
    Week,
}

/// Number of seconds in one unit.
pub open spec fn unit_secs(u: DurationUnit) -> nat {
    match u {
        DurationUnit::Second => 1,
        DurationUnit::Minute => 60,
        DurationUnit::Hour => 3600,
        DurationUnit::Day => 86400,
        DurationUnit::Week => 604800,
    }
}

impl Duration {
    /// The length of the duration in seconds.
    pub fn to_secs(&self) -> (r: u64)
        requires
            self.value * unit_secs(self.unit) <= u64::MAX,
        ensures
            r == self.value * unit_secs(self.unit),
    {
        match self.unit {
            DurationUnit::Second => self.value,
            DurationUnit::Minute => self.value * 60,
            DurationUnit::Hour => self.value * 3600,
            DurationUnit::Day => self.value * 86400,
            DurationUnit::Week => self.value * 604800,
        }
    }
}

// ───────────────────────────── statements / expressions ─────────────────────────────

#[derive(Debug)]
pub enum Stmt {
    Let { name: String, value: Expr },
    Assign { target: Expr, value: Expr },
    If { condition: Expr, then_body: Vec<Stmt>, else_body: Option<Vec<Stmt>> },
    For { var: String, iter: Expr, body: Vec<Stmt> },
    Return(Option<Expr>),
    Expr(Expr),
}

/// Expressions. A float literal is kept as the decimal text it was written with.
#[derive(Debug)]
pub enum Expr {
    Int(i64),
    Float(String),
    Str(String),
    Bool(bool),
    Null,
    Duration(Duration),
    Ident(String),
    FieldAccess { object: Box<Expr>, field: String },
    OptionalChain { object: Box<Expr>, field: String },
    IndexAccess { object: Box<Expr>, index: Box<Expr> },
    Binary { left: Box<Expr>, op: BinOp, right: Box<Expr> },
    Unary { op: UnaryOp, operand: Box<Expr> },
    Call { func: Box<Expr>, args: Vec<CallArg> },
    Pipe { left: Box<Expr>, right: Box<Expr> },
    StructInit { name: String, fields: Vec<FieldInit> },
    Lambda { params: Vec<String>, body: Box<Expr> },
    Array(Vec<Expr>),
    InlineQuery(Box<QueryBody>),
    Alias { expr: Box<Expr>, alias: String },
}

#[derive(Debug)]
pub struct CallArg {
    pub name: Option<String>,
    pub value: Expr,
}

#[derive(Debug)]
pub struct FieldInit {
    pub name: String,
    pub value: Expr,
}

#[derive(Debug, Clone, Copy, PartialEq, Eq, Structural)]
pub enum BinOp {
    Add,
    Sub,
    Mul,
    Div,
    Mod,
    Eq,
    Ne,
    Lt,
    Le,
    Gt,
    Ge,
    And,
    Or,
}

#[derive(Debug, Clone, Copy, PartialEq, Eq, Structural)]
pub enum UnaryOp {
    Neg,
    Not,
}

// ───────────────────────────── mathematical model ─────────────────────────────

pub enum ExprV {
    Int(i64),
    Float(Seq<char>),
    Str(Seq<char>),
    Bool(bool),
    Null,
    Duration(Duration),
    Ident(Seq<char>),
    FieldAccess { object: Box<ExprV>, field: Seq<char> },
    OptionalChain { object: Box<ExprV>, field: Seq<char> },
    IndexAccess { object: Box<ExprV>, index: Box<ExprV> },
    Binary { left: Box<ExprV>, op: BinOp, right: Box<ExprV> },
    Unary { op: UnaryOp, operand: Box<ExprV> },
    Call { func: Box<ExprV>, args: Seq<CallArgV> },
    Pipe { left: Box<ExprV>, right: Box<ExprV> },
    StructInit { name: Seq<char>, fields: Seq<FieldInitV> },
    Lambda { params: Seq<Seq<char>>, body: Box<ExprV> },
    Array(Seq<ExprV>),
    InlineQuery(Box<QueryBodyV>),
    Alias { expr: Box<ExprV>, alias: Seq<char> },
}

pub struct CallArgV {
    pub name: Option<Seq<char>>,
    pub value: ExprV,
}

pub struct FieldInitV {
    pub name: Seq<char>,
    pub value: ExprV,
}

pub struct QueryBodyV {
    pub from: Seq<Seq<char>>,
    pub where_clause: Option<ExprV>,
    pub order_by: Option<OrderByV>,
    pub limit: Option<ExprV>,
}

pub struct OrderByV {
    pub expr: ExprV,
    pub direction: SortDir,
}

pub enum StmtV {
    Let { name: Seq<char>, value: ExprV },
    Assign { target: ExprV, value: ExprV },
    If { condition: ExprV, then_body: Seq<StmtV>, else_body: Option<Seq<StmtV>> },
    For { var: Seq<char>, iter: ExprV, body: Seq<StmtV> },
    Return(Option<ExprV>),
    Expr(ExprV),
}

pub struct ParamV {
    pub name: Seq<char>,
    pub ty: TypeV,
}

pub enum DecoratorV {
    Index(Seq<char>),
    Invariant(ExprV),
    Extern,
}

pub struct FieldDefV {
    pub name: Seq<char>,
    pub ty: TypeV,
    pub default: Option<ExprV>,
    pub decorators: Seq<DecoratorV>,
}

pub enum ConfigValueV {
    FnCall { name: Seq<char>, arg: Seq<char> },
    Disabled,
    Auto,
    Dict(Seq<(Seq<char>, ConfigValueV)>),
}

pub struct ConfigEntryV {
    pub key: Seq<char>,
    pub value: ConfigValueV,
}

pub enum UpdateRuleV {
    OnAccess { body: Seq<StmtV> },
    OnConflict { old_name: Seq<char>, new_name: Seq<char>, body: Seq<StmtV> },
    Every { interval: Duration, body: Seq<StmtV> },
}

pub struct ChannelEventHandlerV {
    pub event: Seq<char>,
    pub target: Option<Seq<char>>,
    pub params: Seq<ParamV>,
    pub body: Seq<StmtV>,
}

pub struct ChannelDefV {
    pub name: Seq<char>,
    pub source: Seq<char>,
    pub config: Seq<ConfigEntryV>,
    pub poll_interval: Option<Duration>,
    pub events: Seq<ChannelEventHandlerV>,
}

pub enum ItemV {
    Config(Seq<ConfigEntryV>),
    Channel(ChannelDefV),
    Namespace { name: Seq<char>, items: Seq<ItemV> },
    Memory { name: Seq<char>, fields: Seq<FieldDefV>, indexes: Seq<Seq<char>>, invariants: Seq<ExprV> },
    Handler { event: Seq<char>, params: Seq<ParamV>, body: Seq<StmtV> },
    Query { name: Seq<char>, params: Seq<ParamV>, return_ty: TypeV, body: QueryBodyV },
    Update { target: Seq<char>, rules: Seq<UpdateRuleV> },
    Policy { name: Seq<char>, rules: Seq<UpdateRuleV> },
    ExternFn { name: Seq<char>, params: Seq<ParamV>, return_ty: Option<TypeV> },
}

pub open spec fn strs_view(s: Seq<String>) -> Seq<Seq<char>> {
    s.map_values(|x: String| x@)
}

pub open spec fn opt_str_view(o: Option<String>) -> Option<Seq<char>> {
    match o {
        Some(s) => Some(s@),
        None => None,
    }
}

pub open spec fn expr_view(e: Expr) -> ExprV
    decreases e,
{
    match e {
        Expr::Int(n) => ExprV::Int(n),
        Expr::Float(s) => ExprV::Float(s@),
        Expr::Str(s) => ExprV::Str(s@),
        Expr::Bool(b) => ExprV::Bool(b),
        Expr::Null => ExprV::Null,
        Expr::Duration(d) => ExprV::Duration(d),
        Expr::Ident(s) => ExprV::Ident(s@),
        Expr::FieldAccess { object, field } => ExprV::FieldAccess {
            object: Box::new(expr_view(*object)),
            field: field@,
        },
        Expr::OptionalChain { object, field } => ExprV::OptionalChain {
            object: Box::new(expr_view(*object)),
            field: field@,
        },
        Expr::IndexAccess { object, index } => ExprV::IndexAccess {
            object: Box::new(expr_view(*object)),
            index: Box::new(expr_view(*index)),
        },
        Expr::Binary { left, op, right } => ExprV::Binary {
            left: Box::new(expr_view(*left)),
            op,
            right: Box::new(expr_view(*right)),
        },
        Expr::Unary { op, operand } => ExprV::Unary { op, operand: Box::new(expr_view(*operand)) },
        Expr::Call { func, args } => ExprV::Call {
            func: Box::new(expr_view(*func)),
            args: args_view(args@),
        },
        Expr::Pipe { left, right } => ExprV::Pipe {
            left: Box::new(expr_view(*left)),
            right: Box::new(expr_view(*right)),
        },
        Expr::StructInit { name, fields } => ExprV::StructInit {
            name: name@,
            fields: finits_view(fields@),
        },
        Expr::Lambda { params, body } => ExprV::Lambda {
            params: strs_view(params@),
            body: Box::new(expr_view(*body)),
        },
        Expr::Array(elems) => ExprV::Array(exprs_view(elems@)),
        Expr::InlineQuery(q) => ExprV::InlineQuery(Box::new(qbody_view(*q))),
        Expr::Alias { expr, alias } => ExprV::Alias {
            expr: Box::new(expr_view(*expr)),
            alias: alias@,
        },
    }
}

pub open spec fn opt_expr_view(o: Option<Expr>) -> Option<ExprV>
    decreases o,
{
    match o {
        Some(e) => Some(expr_view(e)),
        None => None,
    }
}

pub open spec fn exprs_view(s: Seq<Expr>) -> Seq<ExprV>
    decreases s,
{
    if s.len() == 0 {
        Seq::empty()
    } else {
        exprs_view(s.subrange(0, s.len() - 1)).push(expr_view(s[s.len() - 1]))
    }
}

pub open spec fn arg_view(a: CallArg) -> CallArgV
    decreases a,
{
    CallArgV { name: opt_str_view(a.name), value: expr_view(a.value) }
}

pub open spec fn finit_view(f: FieldInit) -> FieldInitV
    decreases f,
{
    FieldInitV { name: f.name@, value: expr_view(f.value) }
}

pub open spec fn args_view(s: Seq<CallArg>) -> Seq<CallArgV>
    decreases s,
{
    if s.len() == 0 {
        Seq::empty()
    } else {
        args_view(s.subrange(0, s.len() - 1)).push(arg_view(s[s.len() - 1]))
    }
}

pub open spec fn finits_view(s: Seq<FieldInit>) -> Seq<FieldInitV>
    decreases s,
{
    if s.len() == 0 {
        Seq::empty()
    } else {
        finits_view(s.subrange(0, s.len() - 1)).push(finit_view(s[s.len() - 1]))
    }
}

pub open spec fn qbody_view(q: QueryBody) -> QueryBodyV
    decreases q,
{
    QueryBodyV {
        from: strs_view(q.from@),
        where_clause: opt_expr_view(q.where_clause),
        order_by: match q.order_by {
            Some(ob) => Some(OrderByV { expr: expr_view(ob.expr), direction: ob.direction }),
            None => None,
        },
        limit: opt_expr_view(q.limit),
    }
}


pub open spec fn stmt_view(st: Stmt) -> StmtV
    decreases st,
{
    match st {
        Stmt::Let { name, value } => StmtV::Let { name: name@, value: expr_view(value) },
        Stmt::Assign { target, value } => StmtV::Assign {
            target: expr_view(target),
            value: expr_view(value),
        },
        Stmt::If { condition, then_body, else_body } => StmtV::If {
            condition: expr_view(condition),
            then_body: stmts_view(then_body@),
            else_body: match else_body {
                Some(b) => Some(stmts_view(b@)),
                None => None,
            },
        },
        Stmt::For { var, iter, body } => StmtV::For {
            var: var@,
            iter: expr_view(iter),
            body: stmts_view(body@),
        },
        Stmt::Return(o) => StmtV::Return(opt_expr_view(o)),
        Stmt::Expr(e) => StmtV::Expr(expr_view(e)),
    }
}

pub open spec fn stmts_view(s: Seq<Stmt>) -> Seq<StmtV>
    decreases s,
{
    if s.len() == 0 {
        Seq::empty()
    } else {
        stmts_view(s.subrange(0, s.len() - 1)).push(stmt_view(s[s.len() - 1]))
    }
}

pub open spec fn params_view(s: Seq<Param>) -> Seq<ParamV> {
    s.map_values(|p: Param| ParamV { name: p.name@, ty: p.ty@ })
}

pub open spec fn opt_type_view(o: Option<Type>) -> Option<TypeV> {
    match o {
        Some(t) => Some(t@),
        None => None,
    }
}

pub open spec fn decorator_view(d: Decorator) -> DecoratorV {
    match d {
        Decorator::Index(n) => DecoratorV::Index(n@),
        Decorator::Invariant(e) => DecoratorV::Invariant(expr_view(e)),
        Decorator::Extern => DecoratorV::Extern,
    }
}

pub open spec fn field_view(f: FieldDef) -> FieldDefV {
    FieldDefV {
        name: f.name@,
        ty: f.ty@,
        default: opt_expr_view(f.default),
        decorators: decorators_view(f.decorators@),
    }
}

pub open spec fn decorators_view(s: Seq<Decorator>) -> Seq<DecoratorV> {
    s.map_values(|d: Decorator| decorator_view(d))
}

pub open spec fn fields_view(s: Seq<FieldDef>) -> Seq<FieldDefV> {
    s.map_values(|f: FieldDef| field_view(f))
}

pub open spec fn entries_view(s: Seq<ConfigEntry>) -> Seq<ConfigEntryV> {
    s.map_values(|e: ConfigEntry| entry_view(e))
}

pub open spec fn config_value_view(v: ConfigValue) -> ConfigValueV
    decreases v,
{
    match v {
        ConfigValue::FnCall { name, arg } => ConfigValueV::FnCall { name: name@, arg: arg@ },
        ConfigValue::Disabled => ConfigValueV::Disabled,
        ConfigValue::Auto => ConfigValueV::Auto,
        ConfigValue::Dict(entries) => ConfigValueV::Dict(dict_view(entries@)),
    }
}

pub open spec fn dict_view(s: Seq<(String, ConfigValue)>) -> Seq<(Seq<char>, ConfigValueV)>
    decreases s,
{
    if s.len() == 0 {
        Seq::empty()
    } else {
        dict_view(s.subrange(0, s.len() - 1)).push((s[s.len() - 1].0@, config_value_view(s[s.len() - 1].1)))
    }
}

pub open spec fn entry_view(e: ConfigEntry) -> ConfigEntryV {
    ConfigEntryV { key: e.key@, value: config_value_view(e.value) }
}

pub open spec fn rule_view(r: UpdateRule) -> UpdateRuleV {
    match r {
        UpdateRule::OnAccess { body } => UpdateRuleV::OnAccess { body: stmts_view(body@) },
        UpdateRule::OnConflict { old_name, new_name, body } => UpdateRuleV::OnConflict {
            old_name: old_name@,
            new_name: new_name@,
            body: stmts_view(body@),
        },
        UpdateRule::Every { interval, body } => UpdateRuleV::Every {
            interval,
            body: stmts_view(body@),
        },
    }
}

pub open spec fn rules_view(s: Seq<UpdateRule>) -> Seq<UpdateRuleV> {
    s.map_values(|r: UpdateRule| rule_view(r))
}

pub open spec fn channel_handler_view(h: ChannelEventHandler) -> ChannelEventHandlerV {
    ChannelEventHandlerV {
        event: h.event@,
        target: opt_str_view(h.target),
        params: params_view(h.params@),
        body: stmts_view(h.body@),
    }
}

pub open spec fn channel_view(c: ChannelDef) -> ChannelDefV {
    ChannelDefV {
        name: c.name@,
        source: c.source@,
        config: entries_view(c.config@),
        poll_interval: c.poll_interval,
        events: c.events@.map_values(|h: ChannelEventHandler| channel_handler_view(h)),
    }
}

pub open spec fn item_view(it: Item) -> ItemV
    decreases it,
{
    match it {
        Item::Config(c) => ItemV::Config(entries_view(c.entries@)),
        Item::Channel(c) => ItemV::Channel(channel_view(c)),
        Item::Namespace(ns) => ItemV::Namespace { name: ns.name@, items: items_view(ns.items@) },
        Item::Memory(m) => ItemV::Memory {
            name: m.name@,
            fields: fields_view(m.fields@),
            indexes: strs_view(m.indexes@),
            invariants: exprs_view(m.invariants@),
        },
        Item::Handler(h) => ItemV::Handler {
            event: h.event@,
            params: params_view(h.params@),
            body: stmts_view(h.body@),
        },
        Item::Query(q) => ItemV::Query {
            name: q.name@,
            params: params_view(q.params@),
            return_ty: q.return_ty@,
            body: qbody_view(q.body),
        },
        Item::Update(u) => ItemV::Update { target: u.target@, rules: rules_view(u.rules@) },
        Item::Policy(p) => ItemV::Policy { name: p.name@, rules: rules_view(p.rules@) },
        Item::ExternFn(f) => ItemV::ExternFn {
            name: f.name@,
            params: params_view(f.params@),
            return_ty: opt_type_view(f.return_ty),
        },
    }
}

pub open spec fn items_view(s: Seq<Item>) -> Seq<ItemV>
    decreases s,
{
    if s.len() == 0 {
        Seq::empty()
    } else {
        items_view(s.subrange(0, s.len() - 1)).push(item_view(s[s.len() - 1]))
    }
}

impl View for Program {
    type V = Seq<ItemV>;

    open spec fn view(&self) -> Seq<ItemV> {
        items_view(self.items@)
    }
}


// ───────────────────────────── lemmas on the models ─────────────────────────────

pub proof fn lemma_exprs_view_index(s: Seq<Expr>)
    ensures
        exprs_view(s).len() == s.len(),
        forall|i: int| 0 <= i < s.len() ==> exprs_view(s)[i] == expr_view(#[trigger] s[i]),
    decreases s.len(),
{
    if s.len() > 0 {
        let d = s.subrange(0, s.len() - 1);
        lemma_exprs_view_index(d);
        assert forall|i: int| 0 <= i < s.len() implies exprs_view(s)[i] == expr_view(
            #[trigger] s[i],
        ) by {
            if i < s.len() - 1 {
                assert(d[i] == s[i]);
            }
        }
    }
}

pub proof fn lemma_args_view_index(s: Seq<CallArg>)
    ensures
        args_view(s).len() == s.len(),
        forall|i: int| 0 <= i < s.len() ==> args_view(s)[i] == arg_view(#[trigger] s[i]),
    decreases s.len(),
{
    if s.len() > 0 {
        let d = s.subrange(0, s.len() - 1);
        lemma_args_view_index(d);
        assert forall|i: int| 0 <= i < s.len() implies args_view(s)[i] == arg_view(
            #[trigger] s[i],
        ) by {
            if i < s.len() - 1 {
                assert(d[i] == s[i]);
            }
        }
    }
}

pub proof fn lemma_exprs_view_take(s: Seq<Expr>, i: int)
    requires
        0 <= i < s.len(),
    ensures
        exprs_view(s.take(i + 1)) == exprs_view(s.take(i)).push(expr_view(s[i])),
{
    assert(s.take(i + 1).subrange(0, i) =~= s.take(i));
}

pub proof fn lemma_args_view_take(s: Seq<CallArg>, i: int)
    requires
        0 <= i < s.len(),
    ensures
        args_view(s.take(i + 1)) == args_view(s.take(i)).push(arg_view(s[i])),
{
    assert(s.take(i + 1).subrange(0, i) =~= s.take(i));
}

pub proof fn lemma_finits_view_take(s: Seq<FieldInit>, i: int)
    requires
        0 <= i < s.len(),
    ensures
        finits_view(s.take(i + 1)) == finits_view(s.take(i)).push(finit_view(s[i])),
{
    assert(s.take(i + 1).subrange(0, i) =~= s.take(i));
}

pub proof fn lemma_stmts_view_take(s: Seq<Stmt>, i: int)
    requires
        0 <= i < s.len(),
    ensures
        stmts_view(s.take(i + 1)) == stmts_view(s.take(i)).push(stmt_view(s[i])),
{
    assert(s.take(i + 1).subrange(0, i) =~= s.take(i));
}

pub proof fn lemma_items_view_take(s: Seq<Item>, i: int)
    requires
        0 <= i < s.len(),
    ensures
        items_view(s.take(i + 1)) == items_view(s.take(i)).push(item_view(s[i])),
{
    assert(s.take(i + 1).subrange(0, i) =~= s.take(i));
}

pub proof fn lemma_dict_view_index(s: Seq<(String, ConfigValue)>)
    ensures
        dict_view(s).len() == s.len(),
        forall|i: int|
            0 <= i < s.len() ==> dict_view(s)[i] == ((#[trigger] s[i]).0@, config_value_view(s[i].1)),
    decreases s.len(),
{
    if s.len() > 0 {
        let d = s.subrange(0, s.len() - 1);
        lemma_dict_view_index(d);
        assert forall|i: int| 0 <= i < s.len() implies dict_view(s)[i] == (
            (#[trigger] s[i]).0@,
            config_value_view(s[i].1),
        ) by {
            if i < s.len() - 1 {
                assert(d[i] == s[i]);
            }
        }
    }
}

} // verus!
