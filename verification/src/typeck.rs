//! Type checking of a parsed program.
//!
//! A first pass registers every memory, query, handler and extern function
//! (namespaces included); a second pass walks the handlers, queries, updates,
//! policies and memories and collects the errors. The program checks when no
//! error was found; otherwise all the errors are reported together, one per
//! line, in the order in which the items, statements and expressions come.
use vstd::prelude::*;
use crate::ast::{
    expr_view, exprs_view, args_view, arg_view, finit_view, finits_view, qbody_view, stmt_view, stmts_view, item_view,
    items_view, params_view, fields_view, rules_view, rule_view, field_view, opt_expr_view,
    CallArg, CallArgV, Expr, ExprV, FieldDef, FieldDefV, FieldInit, FieldInitV, Item, ItemV,
    MemoryDef, Param, ParamV, Program, QueryBody, QueryBodyV, Stmt, StmtV, UpdateRule,
    UpdateRuleV, BinOp, UnaryOp, OrderByV,
};
use crate::errors::SynapseError;
use crate::text::{decimal_text, decimal_text_exec};
use crate::types::{clone_type, type_eq, type_text, Type, TypeV};
use crate::decimal::{decimal_gt, dec_gt};
use crate::strmap::{assoc, lemma_assoc_dom, lemma_assoc_last, lemma_assoc_push};
use crate::ast::{lemma_exprs_view_index, lemma_exprs_view_take, lemma_args_view_take, lemma_finits_view_take, lemma_stmts_view_take, lemma_items_view_take};

verus! {

// ───────────────────────────── the registry ─────────────────────────────

/// Field name to field type, for each memory.
pub type MemoriesV = Map<Seq<char>, Map<Seq<char>, TypeV>>;

/// What the first pass registers.
pub struct RegistryV {
    pub memories: MemoriesV,
    pub queries: Map<Seq<char>, (Seq<(Seq<char>, TypeV)>, TypeV)>,
    pub handlers: Map<Seq<char>, Seq<(Seq<char>, TypeV)>>,
    pub extern_fns: Map<Seq<char>, (Seq<(Seq<char>, TypeV)>, Option<TypeV>)>,
}

pub open spec fn empty_registry() -> RegistryV {
    RegistryV {
        memories: Map::empty(),
        queries: Map::empty(),
        handlers: Map::empty(),
        extern_fns: Map::empty(),
    }
}

/// Parameters as name/type pairs.
pub open spec fn param_pairs(ps: Seq<ParamV>) -> Seq<(Seq<char>, TypeV)> {
    ps.map_values(|p: ParamV| (p.name, p.ty))
}

/// The fields of a memory as name/type pairs.
pub open spec fn field_pairs(fs: Seq<FieldDefV>) -> Seq<(Seq<char>, TypeV)> {
    fs.map_values(|f: FieldDefV| (f.name, f.ty))
}

/// The field types of a memory.
pub open spec fn field_types(fs: Seq<FieldDefV>) -> Map<Seq<char>, TypeV> {
    assoc(field_pairs(fs))
}

/// Registers one item (the items of a namespace in order).
pub open spec fn register_item(it: ItemV, r: RegistryV) -> RegistryV
    decreases it,
{
    match it {
        ItemV::Memory { name, fields, .. } => RegistryV {
            memories: r.memories.insert(name, field_types(fields)),
            ..r
        },
        ItemV::Query { name, params, return_ty, .. } => RegistryV {
            queries: r.queries.insert(name, (param_pairs(params), return_ty)),
            ..r
        },
        ItemV::Handler { event, params, .. } => RegistryV {
            handlers: r.handlers.insert(event, param_pairs(params)),
            ..r
        },
        ItemV::ExternFn { name, params, return_ty } => RegistryV {
            extern_fns: r.extern_fns.insert(name, (param_pairs(params), return_ty)),
            ..r
        },
        ItemV::Namespace { items, .. } => register(items, r),
        _ => r,
    }
}

/// Registers the items in order, starting from `r`.
pub open spec fn register(items: Seq<ItemV>, r: RegistryV) -> RegistryV
    decreases items,
{
    if items.len() == 0 {
        r
    } else {
        register_item(items[items.len() - 1], register(items.subrange(0, items.len() - 1), r))
    }
}

// ───────────────────────────── error messages ─────────────────────────────

pub open spec fn quoted(s: Seq<char>) -> Seq<char> {
    "'"@ + s + "'"@
}

pub open spec fn msg_update_unknown(target: Seq<char>) -> Seq<char> {
    "update references unknown memory "@ + quoted(target)
}

pub open spec fn msg_query_unknown(source: Seq<char>) -> Seq<char> {
    "query references unknown memory "@ + quoted(source)
}

pub open spec fn msg_struct_unknown(name: Seq<char>) -> Seq<char> {
    "unknown memory type "@ + quoted(name) + " in struct init"@
}

pub open spec fn msg_field_unknown(field: Seq<char>, mem: Seq<char>) -> Seq<char> {
    "unknown field "@ + quoted(field) + " in memory "@ + quoted(mem)
}

pub open spec fn msg_duplicate(field: Seq<char>, mem: Seq<char>) -> Seq<char> {
    "duplicate field "@ + quoted(field) + " in memory "@ + quoted(mem)
}

pub open spec fn msg_bounds(min: Seq<char>, max: Seq<char>, field: Seq<char>, mem: Seq<char>) -> Seq<
    char,
> {
    "bounded float ["@ + decimal_text(min) + ","@ + decimal_text(max) + "] has min > max in field "@
        + quoted(field) + " of memory "@ + quoted(mem)
}

pub open spec fn msg_default(field: Seq<char>, mem: Seq<char>, expected: TypeV, got: TypeV) -> Seq<
    char,
> {
    "default value type mismatch for field "@ + quoted(field) + " in memory "@ + quoted(mem)
        + ": expected "@ + type_text(expected) + ", got "@ + type_text(got)
}

/// The lines joined with `\n` between them.
pub open spec fn join_lines(s: Seq<Seq<char>>) -> Seq<char>
    decreases s.len(),
{
    if s.len() == 0 {
        Seq::empty()
    } else if s.len() == 1 {
        s[0]
    } else {
        join_lines(s.drop_last()) + "\n"@ + s.last()
    }
}

// ───────────────────────────── inference ─────────────────────────────

/// Looks a local up, innermost scope first.
pub open spec fn lookup_in(sc: Seq<Seq<(Seq<char>, TypeV)>>, name: Seq<char>) -> Option<TypeV>
    decreases sc.len(),
{
    if sc.len() == 0 {
        None
    } else if assoc(sc.last()).contains_key(name) {
        Some(assoc(sc.last())[name])
    } else {
        lookup_in(sc.drop_last(), name)
    }
}

pub open spec fn is_bool_op(op: BinOp) -> bool {
    op == BinOp::Eq || op == BinOp::Ne || op == BinOp::Lt || op == BinOp::Le || op == BinOp::Gt
        || op == BinOp::Ge || op == BinOp::And || op == BinOp::Or
}

/// The type of an expression where it can be told without function signatures.
pub open spec fn infer(sc: Seq<Seq<(Seq<char>, TypeV)>>, e: ExprV) -> Option<TypeV>
    decreases e,
{
    match e {
        ExprV::Int(_) => Some(TypeV::Int),
        ExprV::Float(_) => Some(TypeV::Float),
        ExprV::Str(_) => Some(TypeV::String),
        ExprV::Bool(_) => Some(TypeV::Bool),
        ExprV::Duration(_) => Some(TypeV::Timestamp),
        ExprV::Ident(n) => lookup_in(sc, n),
        ExprV::Binary { left, op, .. } => if is_bool_op(op) {
            Some(TypeV::Bool)
        } else {
            infer(sc, *left)
        },
        ExprV::Unary { op, operand } => match op {
            UnaryOp::Not => Some(TypeV::Bool),
            UnaryOp::Neg => infer(sc, *operand),
        },
        ExprV::Array(elems) => if elems.len() > 0 {
            match infer(sc, elems[0]) {
                Some(t) => Some(TypeV::Array(Box::new(t))),
                None => None,
            }
        } else {
            None
        },
        _ => None,
    }
}

/// Whether a value of type `actual` may stand where `expected` is declared.
pub open spec fn compatible(expected: TypeV, actual: TypeV) -> bool
    decreases expected,
{
    match (expected, actual) {
        (TypeV::Float, TypeV::Int) => true,
        (TypeV::BoundedFloat { .. }, TypeV::Float) => true,
        (TypeV::BoundedFloat { .. }, TypeV::Int) => true,
        (TypeV::Optional(inner), other) => compatible(*inner, other),
        (a, b) => a == b,
    }
}

// ───────────────────────────── the errors ─────────────────────────────

pub open spec fn expr_errs(m: MemoriesV, e: ExprV) -> Seq<Seq<char>>
    decreases e,
{
    match e {
        ExprV::Binary { left, right, .. } => expr_errs(m, *left) + expr_errs(m, *right),
        ExprV::Unary { operand, .. } => expr_errs(m, *operand),
        ExprV::Call { func, args } => expr_errs(m, *func) + args_errs(m, args),
        ExprV::Pipe { left, right } => expr_errs(m, *left) + expr_errs(m, *right),
        ExprV::FieldAccess { object, .. } => expr_errs(m, *object),
        ExprV::OptionalChain { object, .. } => expr_errs(m, *object),
        ExprV::IndexAccess { object, index } => expr_errs(m, *object) + expr_errs(m, *index),
        ExprV::StructInit { name, fields } => if m.contains_key(name) {
            finits_errs(m, name, fields)
        } else {
            seq![msg_struct_unknown(name)]
        },
        ExprV::Lambda { body, .. } => expr_errs(m, *body),
        ExprV::Array(elems) => exprs_errs(m, elems),
        ExprV::InlineQuery(qb) => qbody_errs(m, *qb),
        _ => Seq::empty(),
    }
}

pub open spec fn exprs_errs(m: MemoriesV, es: Seq<ExprV>) -> Seq<Seq<char>>
    decreases es,
{
    if es.len() == 0 {
        Seq::empty()
    } else {
        exprs_errs(m, es.subrange(0, es.len() - 1)) + expr_errs(m, es[es.len() - 1])
    }
}

pub open spec fn args_errs(m: MemoriesV, args: Seq<CallArgV>) -> Seq<Seq<char>>
    decreases args,
{
    if args.len() == 0 {
        Seq::empty()
    } else {
        args_errs(m, args.subrange(0, args.len() - 1)) + expr_errs(m, args[args.len() - 1].value)
    }
}

/// The fields of a struct literal of memory `name`, which is registered.
pub open spec fn finits_errs(m: MemoriesV, name: Seq<char>, fs: Seq<FieldInitV>) -> Seq<Seq<char>>
    decreases fs,
{
    if fs.len() == 0 {
        Seq::empty()
    } else {
        let f = fs[fs.len() - 1];
        finits_errs(m, name, fs.subrange(0, fs.len() - 1)) + expr_errs(m, f.value) + if m[name].contains_key(
            f.name,
        ) {
            Seq::empty()
        } else {
            seq![msg_field_unknown(f.name, name)]
        }
    }
}

pub open spec fn sources_errs(m: MemoriesV, from: Seq<Seq<char>>) -> Seq<Seq<char>>
    decreases from.len(),
{
    if from.len() == 0 {
        Seq::empty()
    } else {
        sources_errs(m, from.drop_last()) + if m.contains_key(from.last()) {
            Seq::empty()
        } else {
            seq![msg_query_unknown(from.last())]
        }
    }
}

pub open spec fn opt_errs(m: MemoriesV, o: Option<ExprV>) -> Seq<Seq<char>>
    decreases o,
{
    match o {
        Some(e) => expr_errs(m, e),
        None => Seq::empty(),
    }
}

pub open spec fn qbody_errs(m: MemoriesV, qb: QueryBodyV) -> Seq<Seq<char>>
    decreases qb,
{
    sources_errs(m, qb.from) + opt_errs(m, qb.where_clause) + match qb.order_by {
        Some(ob) => expr_errs(m, ob.expr),
        None => Seq::empty(),
    } + opt_errs(m, qb.limit)
}

pub open spec fn stmt_errs(m: MemoriesV, s: StmtV) -> Seq<Seq<char>>
    decreases s,
{
    match s {
        StmtV::Let { value, .. } => expr_errs(m, value),
        StmtV::Assign { target, value } => expr_errs(m, target) + expr_errs(m, value),
        StmtV::If { condition, then_body, else_body } => expr_errs(m, condition) + stmts_errs(
            m,
            then_body,
        ) + match else_body {
            Some(b) => stmts_errs(m, b),
            None => Seq::empty(),
        },
        StmtV::For { iter, body, .. } => expr_errs(m, iter) + stmts_errs(m, body),
        StmtV::Return(o) => opt_errs(m, o),
        StmtV::Expr(e) => expr_errs(m, e),
    }
}

pub open spec fn stmts_errs(m: MemoriesV, ss: Seq<StmtV>) -> Seq<Seq<char>>
    decreases ss,
{
    if ss.len() == 0 {
        Seq::empty()
    } else {
        stmts_errs(m, ss.subrange(0, ss.len() - 1)) + stmt_errs(m, ss[ss.len() - 1])
    }
}

pub open spec fn rule_body(r: UpdateRuleV) -> Seq<StmtV> {
    match r {
        UpdateRuleV::OnAccess { body } => body,
        UpdateRuleV::OnConflict { body, .. } => body,
        UpdateRuleV::Every { body, .. } => body,
    }
}

pub open spec fn rules_errs(m: MemoriesV, rs: Seq<UpdateRuleV>) -> Seq<Seq<char>>
    decreases rs.len(),
{
    if rs.len() == 0 {
        Seq::empty()
    } else {
        rules_errs(m, rs.drop_last()) + stmts_errs(m, rule_body(rs.last()))
    }
}

/// The errors of field `i` of memory `mem`: a name that an earlier field has,
/// bounds in the wrong order, a default whose type does not fit.
pub open spec fn field_errs(mem: Seq<char>, fs: Seq<FieldDefV>, i: int) -> Seq<Seq<char>> {
    let f = fs[i];
    (if exists|j: int| 0 <= j < i && (#[trigger] fs[j]).name == f.name {
        seq![msg_duplicate(f.name, mem)]
    } else {
        Seq::empty()
    }) + (match f.ty {
        TypeV::BoundedFloat { min, max } => if dec_gt(min, max) {
            seq![msg_bounds(min, max, f.name, mem)]
        } else {
            Seq::empty()
        },
        _ => Seq::empty(),
    }) + match f.default {
        Some(d) => match infer(Seq::empty(), d) {
            Some(t) => if compatible(f.ty, t) {
                Seq::empty()
            } else {
                seq![msg_default(f.name, mem, f.ty, t)]
            },
            None => Seq::empty(),
        },
        None => Seq::empty(),
    }
}

/// The errors of the first `k` fields of memory `mem`.
pub open spec fn memory_errs(mem: Seq<char>, fs: Seq<FieldDefV>, k: int) -> Seq<Seq<char>>
    decreases k,
{
    if k <= 0 {
        Seq::empty()
    } else {
        memory_errs(mem, fs, k - 1) + field_errs(mem, fs, k - 1)
    }
}

pub open spec fn item_errs(m: MemoriesV, it: ItemV) -> Seq<Seq<char>>
    decreases it,
{
    match it {
        ItemV::Handler { body, .. } => stmts_errs(m, body),
        ItemV::Query { body, .. } => qbody_errs(m, body),
        ItemV::Update { target, rules } => (if m.contains_key(target) {
            Seq::empty()
        } else {
            seq![msg_update_unknown(target)]
        }) + rules_errs(m, rules),
        ItemV::Policy { rules, .. } => rules_errs(m, rules),
        ItemV::Memory { name, fields, .. } => memory_errs(name, fields, fields.len() as int),
        ItemV::Namespace { items, .. } => items_errs(m, items),
        _ => Seq::empty(),
    }
}

pub open spec fn items_errs(m: MemoriesV, items: Seq<ItemV>) -> Seq<Seq<char>>
    decreases items,
{
    if items.len() == 0 {
        Seq::empty()
    } else {
        items_errs(m, items.subrange(0, items.len() - 1)) + item_errs(m, items[items.len() - 1])
    }
}

/// Every error of a program, in the order in which the checker meets them.
pub open spec fn check_errors(p: Seq<ItemV>) -> Seq<Seq<char>> {
    items_errs(register(p, empty_registry()).memories, p)
}


// ───────────────────────────── laws ─────────────────────────────

/// Every error of an item is among the errors of a list that holds it.
pub proof fn lemma_items_errs_hold(m: MemoriesV, s: Seq<ItemV>, i: int)
    requires
        0 <= i < s.len(),
    ensures
        items_errs(m, s).len() >= item_errs(m, s[i]).len(),
    decreases s.len(),
{
    let d = s.subrange(0, s.len() - 1);
    if i < s.len() - 1 {
        assert(d[i] == s[i]);
        lemma_items_errs_hold(m, d, i);
    }
}

/// Every error of a field is among the errors of its memory.
pub proof fn lemma_memory_errs_hold(mem: Seq<char>, fs: Seq<FieldDefV>, n: int, k: int)
    requires
        0 <= k < n,
    ensures
        memory_errs(mem, fs, n).len() >= field_errs(mem, fs, k).len(),
    decreases n,
{
    if k < n - 1 {
        lemma_memory_errs_hold(mem, fs, n - 1, k);
    }
}

/// A program that updates a memory it does not declare does not check.
pub proof fn lemma_update_of_unknown_memory_fails(p: Seq<ItemV>, i: int)
    requires
        0 <= i < p.len(),
        p[i] matches ItemV::Update { target, .. } && !register(
            p,
            empty_registry(),
        ).memories.contains_key(target),
    ensures
        check_errors(p).len() > 0,
{
    let m = register(p, empty_registry()).memories;
    lemma_items_errs_hold(m, p, i);
}

/// A program with a memory that declares a field name twice does not check.
pub proof fn lemma_duplicate_field_fails(p: Seq<ItemV>, i: int, j: int, k: int)
    requires
        0 <= i < p.len(),
        p[i] matches ItemV::Memory { fields, .. } && 0 <= j < k < fields.len() && fields[j].name
            == fields[k].name,
    ensures
        check_errors(p).len() > 0,
{
    let m = register(p, empty_registry()).memories;
    lemma_items_errs_hold(m, p, i);
    match p[i] {
        ItemV::Memory { name, fields, .. } => {
            assert(exists|jj: int| 0 <= jj < k && (#[trigger] fields[jj]).name == fields[k].name);
            lemma_memory_errs_hold(name, fields, fields.len() as int, k);
        },
        _ => {},
    }
}

/// A memory whose bounded float field has its bounds in the wrong order does not check.
pub proof fn lemma_inverted_bounds_fail(p: Seq<ItemV>, i: int, k: int)
    requires
        0 <= i < p.len(),
        p[i] matches ItemV::Memory { fields, .. } && 0 <= k < fields.len() && (
        fields[k].ty matches TypeV::BoundedFloat { min, max } && dec_gt(min, max)),
    ensures
        check_errors(p).len() > 0,
{
    let m = register(p, empty_registry()).memories;
    lemma_items_errs_hold(m, p, i);
    match p[i] {
        ItemV::Memory { name, fields, .. } => {
            lemma_memory_errs_hold(name, fields, fields.len() as int, k);
        },
        _ => {},
    }
}

// ───────────────────────────── the symbol table ─────────────────────────────

pub open spec fn pairs_view(l: Seq<(String, Type)>) -> Seq<(Seq<char>, TypeV)> {
    l.map_values(|e: (String, Type)| (e.0@, e.1@))
}

pub open spec fn opt_ty(o: Option<Type>) -> Option<TypeV> {
    match o {
        Some(t) => Some(t@),
        None => None,
    }
}

/// The symbol table that the checker fills: the registered memories, queries,
/// handlers and extern functions, the scopes of locals, and the errors found.
#[derive(Debug)]
pub struct TypeEnv {
    memories: Vec<(String, Vec<(String, Type)>)>,
    queries: Vec<(String, (Vec<(String, Type)>, Type))>,
    handlers: Vec<(String, Vec<(String, Type)>)>,
    extern_fns: Vec<(String, (Vec<(String, Type)>, Option<Type>))>,
    scopes: Vec<Vec<(String, Type)>>,
    errors: Vec<String>,
}

impl TypeEnv {
    pub closed spec fn memories_list(&self) -> Seq<(Seq<char>, Map<Seq<char>, TypeV>)> {
        self.memories@.map_values(
            |e: (String, Vec<(String, Type)>)| (e.0@, assoc(pairs_view(e.1@))),
        )
    }

    /// What has been registered.
    pub closed spec fn registry(&self) -> RegistryV {
        RegistryV {
            memories: assoc(self.memories_list()),
            queries: assoc(
                self.queries@.map_values(
                    |e: (String, (Vec<(String, Type)>, Type))| (e.0@, (pairs_view(e.1.0@), e.1.1@)),
                ),
            ),
            handlers: assoc(
                self.handlers@.map_values(
                    |e: (String, Vec<(String, Type)>)| (e.0@, pairs_view(e.1@)),
                ),
            ),
            extern_fns: assoc(
                self.extern_fns@.map_values(
                    |e: (String, (Vec<(String, Type)>, Option<Type>))| (
                        e.0@,
                        (pairs_view(e.1.0@), opt_ty(e.1.1)),
                    ),
                ),
            ),
        }
    }

    /// The scopes of locals, innermost last.
    pub closed spec fn scopes_view(&self) -> Seq<Seq<(Seq<char>, TypeV)>> {
        self.scopes@.map_values(|s: Vec<(String, Type)>| pairs_view(s@))
    }

    /// The errors found so far.
    pub closed spec fn errors_view(&self) -> Seq<Seq<char>> {
        self.errors@.map_values(|m: String| m@)
    }

    /// The registered tables of `self` and `other` are the same.
    pub closed spec fn same_tables(&self, other: &TypeEnv) -> bool {
        &&& self.memories@ == other.memories@
        &&& self.queries@ == other.queries@
        &&& self.handlers@ == other.handlers@
        &&& self.extern_fns@ == other.extern_fns@
    }

    /// An empty table: nothing registered, no scope, no error.
    pub fn new() -> (r: TypeEnv)
        ensures
            r.registry() == empty_registry(),
            r.scopes_view().len() == 0,
            r.errors_view().len() == 0,
    {
        let r = TypeEnv {
            memories: Vec::new(),
            queries: Vec::new(),
            handlers: Vec::new(),
            extern_fns: Vec::new(),
            scopes: Vec::new(),
            errors: Vec::new(),
        };
        assert(r.memories_list() =~= Seq::empty());
        assert(r.registry().queries =~= Map::empty());
        assert(r.registry().handlers =~= Map::empty());
        assert(r.registry().extern_fns =~= Map::empty());
        r
    }

    fn push_scope(&mut self)
        ensures
            final(self).same_tables(&*old(self)),
            final(self).errors@ == old(self).errors@,
            final(self).scopes_view() == old(self).scopes_view().push(Seq::empty()),
            final(self).scopes@.len() == old(self).scopes@.len() + 1,
    {
        self.scopes.push(Vec::new());
        assert(pairs_view(Seq::<(String, Type)>::empty()) =~= Seq::empty());
        assert(self.scopes_view() =~= old(self).scopes_view().push(Seq::empty()));
    }

    fn pop_scope(&mut self)
        ensures
            final(self).same_tables(&*old(self)),
            final(self).errors@ == old(self).errors@,
            final(self).scopes_view() == if old(self).scopes@.len() > 0 {
                old(self).scopes_view().drop_last()
            } else {
                old(self).scopes_view()
            },
            final(self).scopes@.len() == if old(self).scopes@.len() > 0 {
                old(self).scopes@.len() - 1
            } else {
                0
            },
    {
        self.scopes.pop();
        assert(self.scopes_view() =~= if old(self).scopes@.len() > 0 {
            old(self).scopes_view().drop_last()
        } else {
            old(self).scopes_view()
        });
    }

    /// Adds a local to the innermost scope (nothing when there is no scope).
    fn define_local(&mut self, name: &str, ty: Type)
        ensures
            final(self).same_tables(&*old(self)),
            final(self).errors@ == old(self).errors@,
            final(self).scopes_view() == if old(self).scopes@.len() > 0 {
                old(self).scopes_view().update(
                    old(self).scopes@.len() - 1,
                    old(self).scopes_view().last().push((name@, ty@)),
                )
            } else {
                old(self).scopes_view()
            },
            final(self).scopes@.len() == old(self).scopes@.len(),
    {
        match self.scopes.pop() {
            Some(mut last) => {
                let ghost l0 = last@;
                last.push((String::from_str(name), ty));
                self.scopes.push(last);
                assert(pairs_view(last@) =~= pairs_view(l0).push((name@, ty@)));
                assert(self.scopes_view() =~= old(self).scopes_view().update(
                    old(self).scopes@.len() - 1,
                    old(self).scopes_view().last().push((name@, ty@)),
                ));
            },
            None => {},
        }
    }

    /// The type of a local, innermost scope first.
    fn lookup(&self, name: &String) -> (r: Option<Type>)
        ensures
            opt_ty(r) == lookup_in(self.scopes_view(), name@),
    {
        let ghost sc = self.scopes_view();
        let mut i = self.scopes.len();
        assert(sc.take(i as int) =~= sc);
        while i > 0
            invariant
                i <= self.scopes.len(),
                sc == self.scopes_view(),
                lookup_in(sc, name@) == lookup_in(sc.take(i as int), name@),
            decreases i,
        {
            i = i - 1;
            let scope = &self.scopes[i];
            let ghost l = pairs_view(scope@);
            assert(sc.take(i + 1).drop_last() =~= sc.take(i as int));
            assert(sc.take(i + 1).last() == l);
            let mut j = scope.len();
            while j > 0
                invariant
                    j <= scope.len(),
                    l == pairs_view(scope@),
                    forall|k: int| j <= k < l.len() ==> (#[trigger] l[k]).0 != name@,
                    i < sc.len(),
                    lookup_in(sc, name@) == lookup_in(sc.take(i + 1), name@),
                    sc.take(i + 1).drop_last() == sc.take(i as int),
                    sc.take(i + 1).last() == l,
                    sc == self.scopes_view(),
                decreases j,
            {
                j = j - 1;
                if scope[j].0 == *name {
                    proof {
                        lemma_assoc_last(l, j as int, name@);
                    }
                    return Some(clone_type(&scope[j].1));
                }
            }
            proof {
                lemma_assoc_dom(l, name@);
            }
        }
        assert(sc.take(0) =~= Seq::empty());
        None
    }

    fn error(&mut self, msg: String)
        ensures
            final(self).same_tables(&*old(self)),
            final(self).scopes@ == old(self).scopes@,
            final(self).errors_view() == old(self).errors_view().push(msg@),
    {
        self.errors.push(msg);
        assert(self.errors_view() =~= old(self).errors_view().push(msg@));
    }

    /// Index of the memory registered last under `name`.
    fn find_memory(&self, name: &String) -> (r: Option<usize>)
        ensures
            r is Some <==> self.registry().memories.contains_key(name@),
            r matches Some(i) ==> i < self.memories@.len() && self.registry().memories[name@]
                == assoc(pairs_view(self.memories@[i as int].1@)),
    {
        let ghost l = self.memories_list();
        let mut j = self.memories.len();
        while j > 0
            invariant
                j <= self.memories.len(),
                l == self.memories_list(),
                forall|k: int| j <= k < l.len() ==> (#[trigger] l[k]).0 != name@,
            decreases j,
        {
            j = j - 1;
            if self.memories[j].0 == *name {
                proof {
                    lemma_assoc_last(l, j as int, name@);
                }
                return Some(j);
            }
        }
        proof {
            lemma_assoc_dom(l, name@);
        }
        None
    }

    /// Whether memory `i` has a field `f`.
    fn memory_has_field(&self, i: usize, f: &String) -> (r: bool)
        requires
            i < self.memories@.len(),
        ensures
            r == assoc(pairs_view(self.memories@[i as int].1@)).contains_key(f@),
    {
        let fields = &self.memories[i].1;
        let ghost l = pairs_view(fields@);
        let mut j: usize = 0;
        while j < fields.len()
            invariant
                j <= fields.len(),
                l == pairs_view(fields@),
                forall|k: int| 0 <= k < j ==> (#[trigger] l[k]).0 != f@,
                i < self.memories@.len(),
                fields@ == self.memories@[i as int].1@,
            decreases fields.len() - j,
        {
            if fields[j].0 == *f {
                proof {
                    assert(l[j as int].0 == f@);
                    assert(exists|k: int| 0 <= k < l.len() && (#[trigger] l[k]).0 == f@);
                    lemma_assoc_dom(l, f@);
                }
                return true;
            }
            j = j + 1;
        }
        proof {
            lemma_assoc_dom(l, f@);
        }
        false
    }
}


// ───────────────────────────── messages ─────────────────────────────

fn push_quoted(out: &mut String, x: &str)
    ensures
        final(out)@ == old(out)@ + quoted(x@),
{
    out.append("'");
    out.append(x);
    out.append("'");
    assert(out@ =~= old(out)@ + quoted(x@));
}

fn update_unknown_text(target: &String) -> (r: String)
    ensures
        r@ == msg_update_unknown(target@),
{
    let mut m = String::from_str("update references unknown memory ");
    push_quoted(&mut m, target.as_str());
    m
}

fn query_unknown_text(source: &String) -> (r: String)
    ensures
        r@ == msg_query_unknown(source@),
{
    let mut m = String::from_str("query references unknown memory ");
    push_quoted(&mut m, source.as_str());
    m
}

fn struct_unknown_text(name: &String) -> (r: String)
    ensures
        r@ == msg_struct_unknown(name@),
{
    let mut m = String::from_str("unknown memory type ");
    push_quoted(&mut m, name.as_str());
    m.append(" in struct init");
    assert(m@ =~= msg_struct_unknown(name@));
    m
}

fn field_unknown_text(field: &String, mem: &String) -> (r: String)
    ensures
        r@ == msg_field_unknown(field@, mem@),
{
    let mut m = String::from_str("unknown field ");
    push_quoted(&mut m, field.as_str());
    m.append(" in memory ");
    push_quoted(&mut m, mem.as_str());
    assert(m@ =~= msg_field_unknown(field@, mem@));
    m
}

fn duplicate_text(field: &String, mem: &String) -> (r: String)
    ensures
        r@ == msg_duplicate(field@, mem@),
{
    let mut m = String::from_str("duplicate field ");
    push_quoted(&mut m, field.as_str());
    m.append(" in memory ");
    push_quoted(&mut m, mem.as_str());
    assert(m@ =~= msg_duplicate(field@, mem@));
    m
}

fn bounds_text(min: &String, max: &String, field: &String, mem: &String) -> (r: String)
    ensures
        r@ == msg_bounds(min@, max@, field@, mem@),
{
    let mut m = String::from_str("bounded float [");
    let a = decimal_text_exec(min);
    let b = decimal_text_exec(max);
    m.append(a.as_str());
    m.append(",");
    m.append(b.as_str());
    m.append("] has min > max in field ");
    push_quoted(&mut m, field.as_str());
    m.append(" of memory ");
    push_quoted(&mut m, mem.as_str());
    assert(m@ =~= msg_bounds(min@, max@, field@, mem@));
    m
}

fn default_text(field: &String, mem: &String, expected: &Type, got: &Type) -> (r: String)
    ensures
        r@ == msg_default(field@, mem@, expected@, got@),
{
    let mut m = String::from_str("default value type mismatch for field ");
    push_quoted(&mut m, field.as_str());
    m.append(" in memory ");
    push_quoted(&mut m, mem.as_str());
    m.append(": expected ");
    let a = expected.to_string();
    m.append(a.as_str());
    m.append(", got ");
    let b = got.to_string();
    m.append(b.as_str());
    assert(m@ =~= msg_default(field@, mem@, expected@, got@));
    m
}

// ───────────────────────────── inference ─────────────────────────────

fn bool_op(op: BinOp) -> (r: bool)
    ensures
        r == is_bool_op(op),
{
    match op {
        BinOp::Eq | BinOp::Ne | BinOp::Lt | BinOp::Le | BinOp::Gt | BinOp::Ge | BinOp::And
        | BinOp::Or => true,
        _ => false,
    }
}

/// The type of an expression where it can be told (see [`infer`]).
fn infer_expr_type(env: &TypeEnv, e: &Expr) -> (r: Option<Type>)
    ensures
        opt_ty(r) == infer(env.scopes_view(), expr_view(*e)),
    decreases e,
{
    match e {
        Expr::Int(_) => Some(Type::Int),
        Expr::Float(_) => Some(Type::Float),
        Expr::Str(_) => Some(Type::String),
        Expr::Bool(_) => Some(Type::Bool),
        Expr::Null => None,
        Expr::Duration(_) => Some(Type::Timestamp),
        Expr::Ident(n) => env.lookup(n),
        Expr::Binary { left, op, .. } => if bool_op(*op) {
            Some(Type::Bool)
        } else {
            infer_expr_type(env, left)
        },
        Expr::Unary { op, operand } => match op {
            UnaryOp::Not => Some(Type::Bool),
            UnaryOp::Neg => infer_expr_type(env, operand),
        },
        Expr::Array(elems) => {
            proof {
                lemma_exprs_view_index(elems@);
            }
            if elems.len() > 0 {
                match infer_expr_type(env, &elems[0]) {
                    Some(t) => Some(Type::Array(Box::new(t))),
                    None => None,
                }
            } else {
                None
            }
        },
        _ => None,
    }
}

/// Whether a value of type `actual` may stand where `expected` is declared (see [`compatible`]).
fn types_compatible(expected: &Type, actual: &Type) -> (r: bool)
    ensures
        r == compatible(expected@, actual@),
    decreases expected,
{
    match (expected, actual) {
        (Type::Float, Type::Int) => true,
        (Type::BoundedFloat { .. }, Type::Float) => true,
        (Type::BoundedFloat { .. }, Type::Int) => true,
        (Type::Optional(inner), other) => types_compatible(&**inner, other),
        (a, b) => type_eq(a, b),
    }
}


// ───────────────────────────── expressions ─────────────────────────────

/// Checks an expression (see [`expr_errs`]).
fn check_expr(env: &mut TypeEnv, e: &Expr)
    ensures
        final(env).same_tables(&*old(env)),
        final(env).scopes@ == old(env).scopes@,
        final(env).errors_view() == old(env).errors_view() + expr_errs(
            old(env).registry().memories,
            expr_view(*e),
        ),
    decreases e,
{
    let ghost e0 = env.errors_view();
    let ghost m = env.registry().memories;
    match e {
        Expr::Binary { left, right, .. } => {
            check_expr(env, left);
            check_expr(env, right);
            assert(env.errors_view() =~= e0 + expr_errs(m, expr_view(*e)));
        },
        Expr::Unary { operand, .. } => {
            check_expr(env, operand);
        },
        Expr::Call { func, args } => {
            check_expr(env, func);
            check_args(env, args);
            assert(env.errors_view() =~= e0 + expr_errs(m, expr_view(*e)));
        },
        Expr::Pipe { left, right } => {
            check_expr(env, left);
            check_expr(env, right);
            assert(env.errors_view() =~= e0 + expr_errs(m, expr_view(*e)));
        },
        Expr::FieldAccess { object, .. } => {
            check_expr(env, object);
        },
        Expr::OptionalChain { object, .. } => {
            check_expr(env, object);
        },
        Expr::IndexAccess { object, index } => {
            check_expr(env, object);
            check_expr(env, index);
            assert(env.errors_view() =~= e0 + expr_errs(m, expr_view(*e)));
        },
        Expr::StructInit { name, fields } => match env.find_memory(name) {
            None => {
                env.error(struct_unknown_text(name));
                assert(env.errors_view() =~= e0 + expr_errs(m, expr_view(*e)));
            },
            Some(i) => {
                check_finits(env, name, i, fields);
            },
        },
        Expr::Lambda { body, .. } => {
            check_expr(env, body);
        },
        Expr::Array(elems) => {
            check_exprs(env, elems);
        },
        Expr::InlineQuery(qb) => {
            check_query_body(env, qb);
        },
        _ => {
            assert(env.errors_view() =~= e0 + expr_errs(m, expr_view(*e)));
        },
    }
}

fn check_args(env: &mut TypeEnv, args: &Vec<CallArg>)
    ensures
        final(env).same_tables(&*old(env)),
        final(env).scopes@ == old(env).scopes@,
        final(env).errors_view() == old(env).errors_view() + args_errs(
            old(env).registry().memories,
            args_view(args@),
        ),
    decreases args,
{
    let ghost e0 = env.errors_view();
    let ghost m = env.registry().memories;
    let ghost env0 = *env;
    let mut i: usize = 0;
    assert(args_view(args@.take(0)) =~= Seq::<CallArgV>::empty());
    while i < args.len()
        invariant
            i <= args.len(),
            env.same_tables(&env0),
            env.scopes@ == env0.scopes@,
            m == env0.registry().memories,
            env.errors_view() == e0 + args_errs(m, args_view(args@.take(i as int))),
        decreases args.len() - i,
    {
        check_expr(env, &args[i].value);
        proof {
            lemma_args_view_take(args@, i as int);
            let y = args_view(args@.take(i as int));
            assert(y.push(arg_view(args@[i as int])).subrange(0, y.len() as int) =~= y);
        }
        i = i + 1;
        assert(env.errors_view() =~= e0 + args_errs(m, args_view(args@.take(i as int))));
    }
    assert(args@.take(i as int) =~= args@);
}

fn check_exprs(env: &mut TypeEnv, es: &Vec<Expr>)
    ensures
        final(env).same_tables(&*old(env)),
        final(env).scopes@ == old(env).scopes@,
        final(env).errors_view() == old(env).errors_view() + exprs_errs(
            old(env).registry().memories,
            exprs_view(es@),
        ),
    decreases es,
{
    let ghost e0 = env.errors_view();
    let ghost m = env.registry().memories;
    let ghost env0 = *env;
    let mut i: usize = 0;
    assert(exprs_view(es@.take(0)) =~= Seq::<ExprV>::empty());
    while i < es.len()
        invariant
            i <= es.len(),
            env.same_tables(&env0),
            env.scopes@ == env0.scopes@,
            m == env0.registry().memories,
            env.errors_view() == e0 + exprs_errs(m, exprs_view(es@.take(i as int))),
        decreases es.len() - i,
    {
        check_expr(env, &es[i]);
        proof {
            lemma_exprs_view_take(es@, i as int);
            let y = exprs_view(es@.take(i as int));
            assert(y.push(expr_view(es@[i as int])).subrange(0, y.len() as int) =~= y);
        }
        i = i + 1;
        assert(env.errors_view() =~= e0 + exprs_errs(m, exprs_view(es@.take(i as int))));
    }
    assert(es@.take(i as int) =~= es@);
}

/// The fields of a literal of memory `name`, registered at index `mi`.
fn check_finits(env: &mut TypeEnv, name: &String, mi: usize, fs: &Vec<FieldInit>)
    requires
        mi < old(env).memories@.len(),
        old(env).registry().memories.contains_key(name@),
        old(env).registry().memories[name@] == assoc(pairs_view(old(env).memories@[mi as int].1@)),
    ensures
        final(env).same_tables(&*old(env)),
        final(env).scopes@ == old(env).scopes@,
        final(env).errors_view() == old(env).errors_view() + finits_errs(
            old(env).registry().memories,
            name@,
            finits_view(fs@),
        ),
    decreases fs,
{
    let ghost e0 = env.errors_view();
    let ghost m = env.registry().memories;
    let ghost env0 = *env;
    let mut i: usize = 0;
    assert(finits_view(fs@.take(0)) =~= Seq::<FieldInitV>::empty());
    while i < fs.len()
        invariant
            i <= fs.len(),
            env.same_tables(&env0),
            env.scopes@ == env0.scopes@,
            m == env0.registry().memories,
            mi < env.memories@.len(),
            m.contains_key(name@),
            m[name@] == assoc(pairs_view(env.memories@[mi as int].1@)),
            env.errors_view() == e0 + finits_errs(m, name@, finits_view(fs@.take(i as int))),
        decreases fs.len() - i,
    {
        let ghost before = env.errors_view();
        check_expr(env, &fs[i].value);
        if !env.memory_has_field(mi, &fs[i].name) {
            env.error(field_unknown_text(&fs[i].name, name));
        }
        proof {
            lemma_finits_view_take(fs@, i as int);
            let y = finits_view(fs@.take(i as int));
            assert(y.push(finit_view(fs@[i as int])).subrange(0, y.len() as int) =~= y);
        }
        i = i + 1;
        assert(env.errors_view() =~= e0 + finits_errs(m, name@, finits_view(fs@.take(i as int))));
    }
    assert(fs@.take(i as int) =~= fs@);
}

fn check_query_body(env: &mut TypeEnv, qb: &QueryBody)
    ensures
        final(env).same_tables(&*old(env)),
        final(env).scopes@ == old(env).scopes@,
        final(env).errors_view() == old(env).errors_view() + qbody_errs(
            old(env).registry().memories,
            qbody_view(*qb),
        ),
    decreases qb,
{
    let ghost e0 = env.errors_view();
    let ghost m = env.registry().memories;
    let ghost env0 = *env;
    let ghost from = crate::ast::strs_view(qb.from@);
    let mut i: usize = 0;
    assert(from.take(0) =~= Seq::<Seq<char>>::empty());
    while i < qb.from.len()
        invariant
            i <= qb.from.len(),
            from == crate::ast::strs_view(qb.from@),
            env.same_tables(&env0),
            env.scopes@ == env0.scopes@,
            m == env0.registry().memories,
            env.errors_view() == e0 + sources_errs(m, from.take(i as int)),
        decreases qb.from.len() - i,
    {
        if env.find_memory(&qb.from[i]).is_none() {
            env.error(query_unknown_text(&qb.from[i]));
        }
        assert(from.take(i + 1).drop_last() =~= from.take(i as int));
        i = i + 1;
        assert(env.errors_view() =~= e0 + sources_errs(m, from.take(i as int)));
    }
    assert(from.take(i as int) =~= from);
    let ghost e1 = env.errors_view();
    if let Some(w) = &qb.where_clause {
        check_expr(env, w);
    }
    let ghost e2 = env.errors_view();
    if let Some(ob) = &qb.order_by {
        check_expr(env, &ob.expr);
    }
    let ghost e3 = env.errors_view();
    if let Some(l) = &qb.limit {
        check_expr(env, l);
    }
    assert(env.errors_view() =~= e0 + qbody_errs(m, qbody_view(*qb)));
}


// ───────────────────────────── statements ─────────────────────────────

fn check_stmt(env: &mut TypeEnv, st: &Stmt)
    ensures
        final(env).same_tables(&*old(env)),
        final(env).scopes@.len() == old(env).scopes@.len(),
        final(env).errors_view() == old(env).errors_view() + stmt_errs(
            old(env).registry().memories,
            stmt_view(*st),
        ),
    decreases st,
{
    let ghost e0 = env.errors_view();
    let ghost m = env.registry().memories;
    match st {
        Stmt::Let { name, value } => {
            check_expr(env, value);
            let ty = match infer_expr_type(env, value) {
                Some(t) => t,
                None => Type::String,
            };
            env.define_local(name.as_str(), ty);
        },
        Stmt::Assign { target, value } => {
            check_expr(env, target);
            check_expr(env, value);
            assert(env.errors_view() =~= e0 + stmt_errs(m, stmt_view(*st)));
        },
        Stmt::If { condition, then_body, else_body } => {
            check_expr(env, condition);
            env.push_scope();
            check_stmts(env, then_body);
            env.pop_scope();
            match else_body {
                Some(b) => {
                    env.push_scope();
                    check_stmts(env, b);
                    env.pop_scope();
                },
                None => {},
            }
            assert(env.errors_view() =~= e0 + stmt_errs(m, stmt_view(*st)));
        },
        Stmt::For { var, iter, body } => {
            check_expr(env, iter);
            env.push_scope();
            let elem_ty = match infer_expr_type(env, iter) {
                Some(Type::Array(inner)) => *inner,
                _ => Type::String,
            };
            env.define_local(var.as_str(), elem_ty);
            check_stmts(env, body);
            env.pop_scope();
            assert(env.errors_view() =~= e0 + stmt_errs(m, stmt_view(*st)));
        },
        Stmt::Return(o) => {
            match o {
                Some(x) => check_expr(env, x),
                None => {},
            }
            assert(env.errors_view() =~= e0 + stmt_errs(m, stmt_view(*st)));
        },
        Stmt::Expr(x) => {
            check_expr(env, x);
        },
    }
}

fn check_stmts(env: &mut TypeEnv, ss: &Vec<Stmt>)
    ensures
        final(env).same_tables(&*old(env)),
        final(env).scopes@.len() == old(env).scopes@.len(),
        final(env).errors_view() == old(env).errors_view() + stmts_errs(
            old(env).registry().memories,
            stmts_view(ss@),
        ),
    decreases ss,
{
    let ghost e0 = env.errors_view();
    let ghost m = env.registry().memories;
    let ghost env0 = *env;
    let mut i: usize = 0;
    assert(stmts_view(ss@.take(0)) =~= Seq::<StmtV>::empty());
    while i < ss.len()
        invariant
            i <= ss.len(),
            env.same_tables(&env0),
            env.scopes@.len() == env0.scopes@.len(),
            m == env0.registry().memories,
            env.errors_view() == e0 + stmts_errs(m, stmts_view(ss@.take(i as int))),
        decreases ss.len() - i,
    {
        check_stmt(env, &ss[i]);
        proof {
            lemma_stmts_view_take(ss@, i as int);
            let y = stmts_view(ss@.take(i as int));
            assert(y.push(stmt_view(ss@[i as int])).subrange(0, y.len() as int) =~= y);
        }
        i = i + 1;
        assert(env.errors_view() =~= e0 + stmts_errs(m, stmts_view(ss@.take(i as int))));
    }
    assert(ss@.take(i as int) =~= ss@);
}


// ───────────────────────────── memories ─────────────────────────────

fn check_memory(env: &mut TypeEnv, mem: &MemoryDef)
    requires
        old(env).scopes@.len() == 0,
    ensures
        final(env).same_tables(&*old(env)),
        final(env).scopes@ == old(env).scopes@,
        final(env).errors_view() == old(env).errors_view() + memory_errs(
            mem.name@,
            fields_view(mem.fields@),
            mem.fields@.len() as int,
        ),
{
    let ghost e0 = env.errors_view();
    let ghost env0 = *env;
    let ghost fv = fields_view(mem.fields@);
    assert(env.scopes_view() =~= Seq::empty());
    let mut k: usize = 0;
    while k < mem.fields.len()
        invariant
            k <= mem.fields.len(),
            fv == fields_view(mem.fields@),
            env.same_tables(&env0),
            env.scopes@ == env0.scopes@,
            env.scopes_view() == Seq::<Seq<(Seq<char>, TypeV)>>::empty(),
            env.errors_view() == e0 + memory_errs(mem.name@, fv, k as int),
        decreases mem.fields.len() - k,
    {
        check_field(env, mem, k);
        assert(env.errors_view() =~= e0 + memory_errs(mem.name@, fv, k + 1));
        k = k + 1;
    }
}

/// Checks field `k` of a memory (see [`field_errs`]).
fn check_field(env: &mut TypeEnv, mem: &MemoryDef, k: usize)
    requires
        k < mem.fields.len(),
        old(env).scopes_view() == Seq::<Seq<(Seq<char>, TypeV)>>::empty(),
    ensures
        final(env).same_tables(&*old(env)),
        final(env).scopes@ == old(env).scopes@,
        final(env).errors_view() == old(env).errors_view() + field_errs(
            mem.name@,
            fields_view(mem.fields@),
            k as int,
        ),
{
    let ghost fv = fields_view(mem.fields@);
    let ghost e0 = env.errors_view();
    let field = &mem.fields[k];
    let mut j: usize = 0;
    let mut dup = false;
    while j < k
        invariant
            j <= k < mem.fields.len(),
            fv == fields_view(mem.fields@),
            *field == mem.fields@[k as int],
            dup ==> exists|jj: int| 0 <= jj < k && (#[trigger] fv[jj]).name == fv[k as int].name,
            !dup ==> forall|jj: int| 0 <= jj < j ==> (#[trigger] fv[jj]).name != fv[k as int].name,
        decreases k - j,
    {
        if mem.fields[j].name == field.name {
            dup = true;
            assert(fv[j as int].name == fv[k as int].name);
        }
        j = j + 1;
    }
    if dup {
        env.error(duplicate_text(&field.name, &mem.name));
    }
    let ghost after_dup = env.errors_view();
    match &field.ty {
        Type::BoundedFloat { min, max } => {
            if decimal_gt(min, max) {
                env.error(bounds_text(min, max, &field.name, &mem.name));
            }
        },
        _ => {},
    }
    let ghost after_bounds = env.errors_view();
    match &field.default {
        Some(d) => match infer_expr_type(env, d) {
            Some(t) => {
                if !types_compatible(&field.ty, &t) {
                    env.error(default_text(&field.name, &mem.name, &field.ty, &t));
                }
            },
            None => {},
        },
        None => {},
    }
    assert(env.errors_view() =~= e0 + field_errs(mem.name@, fv, k as int));
}

// ───────────────────────────── update rules ─────────────────────────────

fn clone_pairs(l: &Vec<(String, Type)>) -> (r: Vec<(String, Type)>)
    ensures
        pairs_view(r@) == pairs_view(l@),
{
    let mut r: Vec<(String, Type)> = Vec::new();
    let mut i: usize = 0;
    while i < l.len()
        invariant
            i <= l.len(),
            pairs_view(r@) == pairs_view(l@).take(i as int),
        decreases l.len() - i,
    {
        let x = (l[i].0.clone(), clone_type(&l[i].1));
        let ghost xv = (x.0@, x.1@);
        let ghost old_r = r@;
        assert(xv == pairs_view(l@)[i as int]);
        r.push(x);
        assert(pairs_view(r@) =~= pairs_view(old_r).push(xv));
        i = i + 1;
        assert(pairs_view(r@) =~= pairs_view(l@).take(i as int));
    }
    assert(pairs_view(l@).take(i as int) =~= pairs_view(l@));
    r
}

fn dotted(a: &String, b: &String) -> (r: String)
    ensures
        r@ == a@ + "."@ + b@,
{
    let mut s = a.clone();
    s.append(".");
    s.append(b.as_str());
    s
}

fn rule_stmts(rule: &UpdateRule) -> (r: &Vec<Stmt>)
    ensures
        stmts_view(r@) == rule_body(rule_view(*rule)),
{
    match rule {
        UpdateRule::OnAccess { body } => body,
        UpdateRule::OnConflict { body, .. } => body,
        UpdateRule::Every { body, .. } => body,
    }
}

/// Checks a rule of `update target`, with the target's fields (and for
/// `on_conflict`, the old and new values) in scope.
fn check_update_rule(env: &mut TypeEnv, target: &String, rule: &UpdateRule)
    ensures
        final(env).same_tables(&*old(env)),
        final(env).scopes@.len() == old(env).scopes@.len(),
        final(env).errors_view() == old(env).errors_view() + stmts_errs(
            old(env).registry().memories,
            rule_body(rule_view(*rule)),
        ),
{
    let ghost env0 = *env;
    let ghost e0 = env.errors_view();
    env.push_scope();
    let idx = env.find_memory(target);
    let fields = match idx {
        Some(i) => clone_pairs(&env.memories[i].1),
        None => Vec::new(),
    };
    let mut k: usize = 0;
    while k < fields.len()
        invariant
            k <= fields.len(),
            env.same_tables(&env0),
            env.scopes@.len() == env0.scopes@.len() + 1,
            env.errors_view() == e0,
        decreases fields.len() - k,
    {
        env.define_local(fields[k].0.as_str(), clone_type(&fields[k].1));
        k = k + 1;
    }
    match rule {
        UpdateRule::OnConflict { old_name, new_name, .. } => {
            if idx.is_some() {
                env.define_local(old_name.as_str(), Type::Named(target.clone()));
                env.define_local(new_name.as_str(), Type::Named(target.clone()));
                let mut k: usize = 0;
                while k < fields.len()
                    invariant
                        k <= fields.len(),
                        env.same_tables(&env0),
                        env.scopes@.len() == env0.scopes@.len() + 1,
                        env.errors_view() == e0,
                    decreases fields.len() - k,
                {
                    env.define_local(dotted(old_name, &fields[k].0).as_str(), clone_type(&fields[k].1));
                    env.define_local(dotted(new_name, &fields[k].0).as_str(), clone_type(&fields[k].1));
                    k = k + 1;
                }
            }
        },
        _ => {},
    }
    check_stmts(env, rule_stmts(rule));
    env.pop_scope();
}

fn check_rules(env: &mut TypeEnv, target: &String, rules: &Vec<UpdateRule>)
    ensures
        final(env).same_tables(&*old(env)),
        final(env).scopes@.len() == old(env).scopes@.len(),
        final(env).errors_view() == old(env).errors_view() + rules_errs(
            old(env).registry().memories,
            rules_view(rules@),
        ),
{
    let ghost e0 = env.errors_view();
    let ghost m = env.registry().memories;
    let ghost env0 = *env;
    let ghost rv = rules_view(rules@);
    let mut i: usize = 0;
    assert(rv.take(0) =~= Seq::<UpdateRuleV>::empty());
    while i < rules.len()
        invariant
            i <= rules.len(),
            rv == rules_view(rules@),
            env.same_tables(&env0),
            env.scopes@.len() == env0.scopes@.len(),
            m == env0.registry().memories,
            env.errors_view() == e0 + rules_errs(m, rv.take(i as int)),
        decreases rules.len() - i,
    {
        check_update_rule(env, target, &rules[i]);
        assert(rv.take(i + 1).drop_last() =~= rv.take(i as int));
        i = i + 1;
        assert(env.errors_view() =~= e0 + rules_errs(m, rv.take(i as int)));
    }
    assert(rv.take(i as int) =~= rv);
}

/// The rules of a policy, each in a scope of its own.
fn check_policy_rules(env: &mut TypeEnv, rules: &Vec<UpdateRule>)
    ensures
        final(env).same_tables(&*old(env)),
        final(env).scopes@.len() == old(env).scopes@.len(),
        final(env).errors_view() == old(env).errors_view() + rules_errs(
            old(env).registry().memories,
            rules_view(rules@),
        ),
{
    let ghost e0 = env.errors_view();
    let ghost m = env.registry().memories;
    let ghost env0 = *env;
    let ghost rv = rules_view(rules@);
    let mut i: usize = 0;
    assert(rv.take(0) =~= Seq::<UpdateRuleV>::empty());
    while i < rules.len()
        invariant
            i <= rules.len(),
            rv == rules_view(rules@),
            env.same_tables(&env0),
            env.scopes@.len() == env0.scopes@.len(),
            m == env0.registry().memories,
            env.errors_view() == e0 + rules_errs(m, rv.take(i as int)),
        decreases rules.len() - i,
    {
        env.push_scope();
        check_stmts(env, rule_stmts(&rules[i]));
        env.pop_scope();
        assert(rv.take(i + 1).drop_last() =~= rv.take(i as int));
        i = i + 1;
        assert(env.errors_view() =~= e0 + rules_errs(m, rv.take(i as int)));
    }
    assert(rv.take(i as int) =~= rv);
}


// ───────────────────────────── items ─────────────────────────────

fn param_list(ps: &Vec<Param>) -> (r: Vec<(String, Type)>)
    ensures
        pairs_view(r@) == param_pairs(params_view(ps@)),
{
    let ghost target = param_pairs(params_view(ps@));
    let mut r: Vec<(String, Type)> = Vec::new();
    let mut i: usize = 0;
    while i < ps.len()
        invariant
            i <= ps.len(),
            target == param_pairs(params_view(ps@)),
            pairs_view(r@) == target.take(i as int),
        decreases ps.len() - i,
    {
        let x = (ps[i].name.clone(), clone_type(&ps[i].ty));
        let ghost xv = (x.0@, x.1@);
        let ghost old_r = r@;
        assert(xv == target[i as int]);
        r.push(x);
        assert(pairs_view(r@) =~= pairs_view(old_r).push(xv));
        i = i + 1;
        assert(pairs_view(r@) =~= target.take(i as int));
    }
    assert(target.take(i as int) =~= target);
    r
}

fn field_list(fs: &Vec<FieldDef>) -> (r: Vec<(String, Type)>)
    ensures
        pairs_view(r@) == field_pairs(fields_view(fs@)),
{
    let ghost target = field_pairs(fields_view(fs@));
    let mut r: Vec<(String, Type)> = Vec::new();
    let mut i: usize = 0;
    while i < fs.len()
        invariant
            i <= fs.len(),
            target == field_pairs(fields_view(fs@)),
            pairs_view(r@) == target.take(i as int),
        decreases fs.len() - i,
    {
        let x = (fs[i].name.clone(), clone_type(&fs[i].ty));
        let ghost xv = (x.0@, x.1@);
        let ghost old_r = r@;
        assert(xv == target[i as int]);
        r.push(x);
        assert(pairs_view(r@) =~= pairs_view(old_r).push(xv));
        i = i + 1;
        assert(pairs_view(r@) =~= target.take(i as int));
    }
    assert(target.take(i as int) =~= target);
    r
}

fn clone_opt_type(o: &Option<Type>) -> (r: Option<Type>)
    ensures
        opt_ty(r) == opt_ty(*o),
{
    match o {
        Some(t) => Some(clone_type(t)),
        None => None,
    }
}

/// Registers one item (see [`register_item`]).
fn register_one(env: &mut TypeEnv, it: &Item)
    ensures
        final(env).registry() == register_item(item_view(*it), old(env).registry()),
        final(env).scopes@ == old(env).scopes@,
        final(env).errors@ == old(env).errors@,
    decreases it,
{
    let ghost r0 = env.registry();
    match it {
        Item::Memory(mem) => {
            let fl = field_list(&mem.fields);
            let ghost l0 = env.memories_list();
            let ghost x = (mem.name@, assoc(pairs_view(fl@)));
            env.memories.push((mem.name.clone(), fl));
            proof {
                assert(env.memories_list() =~= l0.push(x));
                lemma_assoc_push(l0, x);
            }
            assert(env.registry() =~= register_item(item_view(*it), r0));
        },
        Item::Query(q) => {
            let pl = param_list(&q.params);
            let ghost l0 = env.queries@.map_values(
                |e: (String, (Vec<(String, Type)>, Type))| (e.0@, (pairs_view(e.1.0@), e.1.1@)),
            );
            let ghost x = (q.name@, (pairs_view(pl@), q.return_ty@));
            env.queries.push((q.name.clone(), (pl, clone_type(&q.return_ty))));
            proof {
                assert(env.queries@.map_values(
                    |e: (String, (Vec<(String, Type)>, Type))| (e.0@, (pairs_view(e.1.0@), e.1.1@)),
                ) =~= l0.push(x));
                lemma_assoc_push(l0, x);
            }
            assert(env.registry() =~= register_item(item_view(*it), r0));
        },
        Item::Handler(h) => {
            let pl = param_list(&h.params);
            let ghost l0 = env.handlers@.map_values(
                |e: (String, Vec<(String, Type)>)| (e.0@, pairs_view(e.1@)),
            );
            let ghost x = (h.event@, pairs_view(pl@));
            env.handlers.push((h.event.clone(), pl));
            proof {
                assert(env.handlers@.map_values(
                    |e: (String, Vec<(String, Type)>)| (e.0@, pairs_view(e.1@)),
                ) =~= l0.push(x));
                lemma_assoc_push(l0, x);
            }
            assert(env.registry() =~= register_item(item_view(*it), r0));
        },
        Item::ExternFn(ef) => {
            let pl = param_list(&ef.params);
            let ghost l0 = env.extern_fns@.map_values(
                |e: (String, (Vec<(String, Type)>, Option<Type>))| (
                    e.0@,
                    (pairs_view(e.1.0@), opt_ty(e.1.1)),
                ),
            );
            let rt = clone_opt_type(&ef.return_ty);
            let ghost x = (ef.name@, (pairs_view(pl@), opt_ty(rt)));
            env.extern_fns.push((ef.name.clone(), (pl, rt)));
            proof {
                assert(env.extern_fns@.map_values(
                    |e: (String, (Vec<(String, Type)>, Option<Type>))| (
                        e.0@,
                        (pairs_view(e.1.0@), opt_ty(e.1.1)),
                    ),
                ) =~= l0.push(x));
                lemma_assoc_push(l0, x);
                assert(opt_ty(ef.return_ty) == crate::ast::opt_type_view(ef.return_ty));
            }
            assert(env.registry() =~= register_item(item_view(*it), r0));
        },
        Item::Namespace(ns) => {
            register_items(env, &ns.items);
        },
        _ => {},
    }
}

/// Registers the items in order (see [`register`]).
fn register_items(env: &mut TypeEnv, items: &Vec<Item>)
    ensures
        final(env).registry() == register(items_view(items@), old(env).registry()),
        final(env).scopes@ == old(env).scopes@,
        final(env).errors@ == old(env).errors@,
    decreases items,
{
    let ghost r0 = env.registry();
    let ghost env0 = *env;
    let mut i: usize = 0;
    assert(items_view(items@.take(0)) =~= Seq::<ItemV>::empty());
    while i < items.len()
        invariant
            i <= items.len(),
            env.scopes@ == env0.scopes@,
            env.errors@ == env0.errors@,
            env.registry() == register(items_view(items@.take(i as int)), r0),
        decreases items.len() - i,
    {
        register_one(env, &items[i]);
        proof {
            lemma_items_view_take(items@, i as int);
            let y = items_view(items@.take(i as int));
            assert(y.push(item_view(items@[i as int])).subrange(0, y.len() as int) =~= y);
        }
        i = i + 1;
    }
    assert(items@.take(i as int) =~= items@);
}

/// Checks one item (see [`item_errs`]).
fn check_item(env: &mut TypeEnv, it: &Item)
    requires
        old(env).scopes@.len() == 0,
    ensures
        final(env).same_tables(&*old(env)),
        final(env).scopes@.len() == 0,
        final(env).errors_view() == old(env).errors_view() + item_errs(
            old(env).registry().memories,
            item_view(*it),
        ),
    decreases it,
{
    let ghost e0 = env.errors_view();
    let ghost m = env.registry().memories;
    let ghost env0 = *env;
    match it {
        Item::Handler(h) => {
            env.push_scope();
            let mut k: usize = 0;
            while k < h.params.len()
                invariant
                    k <= h.params.len(),
                    env.same_tables(&env0),
                    env.scopes@.len() == 1,
                    env.errors_view() == e0,
                decreases h.params.len() - k,
            {
                env.define_local(h.params[k].name.as_str(), clone_type(&h.params[k].ty));
                k = k + 1;
            }
            check_stmts(env, &h.body);
            env.pop_scope();
        },
        Item::Query(q) => {
            env.push_scope();
            let mut k: usize = 0;
            while k < q.params.len()
                invariant
                    k <= q.params.len(),
                    env.same_tables(&env0),
                    env.scopes@.len() == 1,
                    env.errors_view() == e0,
                decreases q.params.len() - k,
            {
                env.define_local(q.params[k].name.as_str(), clone_type(&q.params[k].ty));
                k = k + 1;
            }
            check_query_body(env, &q.body);
            env.pop_scope();
        },
        Item::Update(u) => {
            if env.find_memory(&u.target).is_none() {
                env.error(update_unknown_text(&u.target));
            }
            check_rules(env, &u.target, &u.rules);
            assert(env.errors_view() =~= e0 + item_errs(m, item_view(*it)));
        },
        Item::Policy(p) => {
            check_policy_rules(env, &p.rules);
        },
        Item::Memory(mem) => {
            check_memory(env, mem);
        },
        Item::Namespace(ns) => {
            check_items(env, &ns.items);
        },
        _ => {
            assert(env.errors_view() =~= e0 + item_errs(m, item_view(*it)));
        },
    }
}

/// Checks the items in order (see [`items_errs`]).
fn check_items(env: &mut TypeEnv, items: &Vec<Item>)
    requires
        old(env).scopes@.len() == 0,
    ensures
        final(env).same_tables(&*old(env)),
        final(env).scopes@.len() == 0,
        final(env).errors_view() == old(env).errors_view() + items_errs(
            old(env).registry().memories,
            items_view(items@),
        ),
    decreases items,
{
    let ghost e0 = env.errors_view();
    let ghost m = env.registry().memories;
    let ghost env0 = *env;
    let mut i: usize = 0;
    assert(items_view(items@.take(0)) =~= Seq::<ItemV>::empty());
    while i < items.len()
        invariant
            i <= items.len(),
            env.same_tables(&env0),
            env.scopes@.len() == 0,
            m == env0.registry().memories,
            env.errors_view() == e0 + items_errs(m, items_view(items@.take(i as int))),
        decreases items.len() - i,
    {
        check_item(env, &items[i]);
        proof {
            lemma_items_view_take(items@, i as int);
            let y = items_view(items@.take(i as int));
            assert(y.push(item_view(items@[i as int])).subrange(0, y.len() as int) =~= y);
        }
        i = i + 1;
        assert(env.errors_view() =~= e0 + items_errs(m, items_view(items@.take(i as int))));
    }
    assert(items@.take(i as int) =~= items@);
}

impl TypeEnv {
    /// The errors found, one per line.
    fn joined_errors(&self) -> (r: String)
        ensures
            r@ == join_lines(self.errors_view()),
    {
        let ghost ev = self.errors_view();
        let mut out = String::new();
        let mut i: usize = 0;
        assert(ev.take(0) =~= Seq::<Seq<char>>::empty());
        while i < self.errors.len()
            invariant
                i <= self.errors.len(),
                ev == self.errors_view(),
                out@ == join_lines(ev.take(i as int)),
            decreases self.errors.len() - i,
        {
            if i > 0 {
                out.append("\n");
            }
            out.append(self.errors[i].as_str());
            assert(ev.take(i + 1).drop_last() =~= ev.take(i as int));
            i = i + 1;
            assert(out@ =~= join_lines(ev.take(i as int)));
        }
        assert(ev.take(i as int) =~= ev);
        out
    }
}

/// Type-checks a program: registers its declarations, then checks the bodies
/// of its handlers, queries, updates and policies and the fields of its
/// memories. Succeeds with the symbol table when no error was found;
/// otherwise fails with every error, one per line (see [`check_errors`]).
pub fn check(program: &Program) -> (r: Result<TypeEnv, SynapseError>)
    ensures
        r is Ok <==> check_errors(program@).len() == 0,
        r matches Ok(env) ==> env.registry() == register(program@, empty_registry())
            && env.scopes_view().len() == 0 && env.errors_view().len() == 0,
        r matches Err(e) ==> e matches SynapseError::Validation(m) && m@ == join_lines(
            check_errors(program@),
        ),
{
    let mut env = TypeEnv::new();
    register_items(&mut env, &program.items);
    check_items(&mut env, &program.items);
    assert(env.errors_view() =~= check_errors(program@));
    if env.errors.len() == 0 {
        Ok(env)
    } else {
        let m = env.joined_errors();
        Err(SynapseError::Validation(m))
    }
}

// ───────────────────────────── laws of defaults ─────────────────────────────

/// Numbers widen towards floats: an integer fits where a float or a bounded
/// float (whatever its bounds) is declared, a float fits where a bounded
/// float is declared, a float does not fit where an integer is declared, and
/// an optional type accepts what its inner type accepts.
pub proof fn lemma_numbers_fit_floats(min: Seq<char>, max: Seq<char>, t: TypeV, a: TypeV)
    ensures
        compatible(TypeV::Float, TypeV::Int),
        compatible(TypeV::BoundedFloat { min, max }, TypeV::Int),
        compatible(TypeV::BoundedFloat { min, max }, TypeV::Float),
        !compatible(TypeV::Int, TypeV::Float),
        compatible(TypeV::Optional(Box::new(t)), a) == compatible(t, a),
{
}

/// A field declared `float` or `float[min, max]` whose default is an
/// integer or float literal (an integer only for `float`) has the same
/// errors as the field without a default: such a default is never a type
/// mismatch.
pub proof fn lemma_number_default_on_float_field(mem: Seq<char>, fs: Seq<FieldDefV>, i: int, d: ExprV)
    requires
        0 <= i < fs.len(),
        fs[i].default == Some(d),
        (fs[i].ty is BoundedFloat && (d is Int || d is Float)) || (fs[i].ty is Float && d is Int),
    ensures
        field_errs(mem, fs, i) == field_errs(
            mem,
            fs.update(i, FieldDefV { name: fs[i].name, ty: fs[i].ty, default: None, decorators: fs[i].decorators }),
            i,
        ),
{
    let gs = fs.update(i, FieldDefV { name: fs[i].name, ty: fs[i].ty, default: None, decorators: fs[i].decorators });
    assert forall|j: int| 0 <= j < i implies gs[j] == fs[j] by {}
    assert((exists|j: int| 0 <= j < i && (#[trigger] fs[j]).name == fs[i].name)
        == (exists|j: int| 0 <= j < i && (#[trigger] gs[j]).name == gs[i].name)) by {
        if exists|j: int| 0 <= j < i && (#[trigger] fs[j]).name == fs[i].name {
            let j = choose|j: int| 0 <= j < i && (#[trigger] fs[j]).name == fs[i].name;
            assert(gs[j].name == gs[i].name);
        }
        if exists|j: int| 0 <= j < i && (#[trigger] gs[j]).name == gs[i].name {
            let j = choose|j: int| 0 <= j < i && (#[trigger] gs[j]).name == gs[i].name;
            assert(fs[j].name == fs[i].name);
        }
    }
}

/// What the checks of a field report: a name that an earlier field of the
/// memory has is a duplicate; `float[min, max]` with `min` greater than
/// `max` is reported; a field with a fresh name, bounds in order (or none)
/// and no default has no errors.
pub proof fn lemma_field_checks(mem: Seq<char>, fs: Seq<FieldDefV>, i: int)
    requires
        0 <= i < fs.len(),
    ensures
        (exists|j: int| 0 <= j < i && (#[trigger] fs[j]).name == fs[i].name) ==> field_errs(mem, fs, i).contains(
            msg_duplicate(fs[i].name, mem),
        ),
        (fs[i].ty matches TypeV::BoundedFloat { min, max } && dec_gt(min, max)) ==> field_errs(mem, fs, i).contains(
            msg_bounds(fs[i].ty->min, fs[i].ty->max, fs[i].name, mem),
        ),
        (forall|j: int| 0 <= j < i ==> (#[trigger] fs[j]).name != fs[i].name) && !(fs[i].ty matches TypeV::BoundedFloat {
            min,
            max,
        } && dec_gt(min, max)) && fs[i].default is None ==> field_errs(mem, fs, i).len() == 0,
{
    let e = field_errs(mem, fs, i);
    let f = fs[i];
    let a: Seq<Seq<char>> = if exists|j: int| 0 <= j < i && (#[trigger] fs[j]).name == f.name {
        seq![msg_duplicate(f.name, mem)]
    } else {
        Seq::empty()
    };
    let b: Seq<Seq<char>> = match f.ty {
        TypeV::BoundedFloat { min, max } => if dec_gt(min, max) {
            seq![msg_bounds(min, max, f.name, mem)]
        } else {
            Seq::empty()
        },
        _ => Seq::empty(),
    };
    let c: Seq<Seq<char>> = match f.default {
        Some(d) => match infer(Seq::empty(), d) {
            Some(t) => if compatible(f.ty, t) {
                Seq::empty()
            } else {
                seq![msg_default(f.name, mem, f.ty, t)]
            },
            None => Seq::empty(),
        },
        None => Seq::empty(),
    };
    assert(e == a + b + c);
    if a.len() == 1 {
        assert(e[0] == a[0]);
    }
    if b.len() == 1 {
        assert(e[a.len() as int] == b[0]);
    }
}

} // verus!
