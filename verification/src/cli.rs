//! What the command line reports: item counts, which log lines to show, and
//! which parts of an inspection of the stores to show.
use vstd::prelude::*;
use crate::ast::{item_view, items_view, lemma_items_view_take, Item, ItemV};
use crate::stdtext::{contains, lowercase, occurs_in, to_lowercase};
use crate::text::text_eq;

verus! {

/// The kinds of items that `check` counts.
#[derive(Debug, Clone, Copy, PartialEq, Eq, Structural)]
pub enum ItemKind {
    Memory,
    Handler,
    Query,
    Update,
    Policy,
    ExternFn,
}

/// The number of items of kind `k` in `it`, inside namespaces too.
pub open spec fn count_in(it: ItemV, k: ItemKind) -> nat
    decreases it,
{
    match it {
        ItemV::Memory { .. } => if k == ItemKind::Memory { 1 } else { 0 },
        ItemV::Handler { .. } => if k == ItemKind::Handler { 1 } else { 0 },
        ItemV::Query { .. } => if k == ItemKind::Query { 1 } else { 0 },
        ItemV::Update { .. } => if k == ItemKind::Update { 1 } else { 0 },
        ItemV::Policy { .. } => if k == ItemKind::Policy { 1 } else { 0 },
        ItemV::ExternFn { .. } => if k == ItemKind::ExternFn { 1 } else { 0 },
        ItemV::Namespace { items, .. } => item_count(items, k),
        _ => 0,
    }
}

/// The number of items of kind `k` in `items`, inside namespaces too.
pub open spec fn item_count(items: Seq<ItemV>, k: ItemKind) -> nat
    decreases items,
{
    if items.len() == 0 {
        0
    } else {
        item_count(items.subrange(0, items.len() - 1), k) + count_in(items[items.len() - 1], k)
    }
}

proof fn lemma_count_step(s: Seq<Item>, i: int, k: ItemKind)
    requires
        0 <= i < s.len(),
    ensures
        item_count(items_view(s.take(i + 1)), k) == item_count(items_view(s.take(i)), k)
            + count_in(item_view(s[i]), k),
{
    lemma_items_view_take(s, i);
    let y = items_view(s.take(i));
    assert(y.push(item_view(s[i])).subrange(0, y.len() as int) =~= y);
}

proof fn lemma_count_prefix(s: Seq<Item>, i: int, k: ItemKind)
    requires
        0 <= i <= s.len(),
    ensures
        item_count(items_view(s.take(i)), k) <= item_count(items_view(s), k),
    decreases s.len() - i,
{
    if i < s.len() {
        lemma_count_step(s, i, k);
        lemma_count_prefix(s, i + 1, k);
    } else {
        assert(s.take(i) =~= s);
    }
}

/// Adds to each counter the number of items of its kind, namespaces included.
pub fn count_items(
    items: &[Item],
    memories: &mut usize,
    handlers: &mut usize,
    queries: &mut usize,
    updates: &mut usize,
    policies: &mut usize,
    extern_fns: &mut usize,
)
    requires
        *old(memories) + item_count(items_view(items@), ItemKind::Memory) <= usize::MAX,
        *old(handlers) + item_count(items_view(items@), ItemKind::Handler) <= usize::MAX,
        *old(queries) + item_count(items_view(items@), ItemKind::Query) <= usize::MAX,
        *old(updates) + item_count(items_view(items@), ItemKind::Update) <= usize::MAX,
        *old(policies) + item_count(items_view(items@), ItemKind::Policy) <= usize::MAX,
        *old(extern_fns) + item_count(items_view(items@), ItemKind::ExternFn) <= usize::MAX,
    ensures
        *final(memories) == *old(memories) + item_count(items_view(items@), ItemKind::Memory),
        *final(handlers) == *old(handlers) + item_count(items_view(items@), ItemKind::Handler),
        *final(queries) == *old(queries) + item_count(items_view(items@), ItemKind::Query),
        *final(updates) == *old(updates) + item_count(items_view(items@), ItemKind::Update),
        *final(policies) == *old(policies) + item_count(items_view(items@), ItemKind::Policy),
        *final(extern_fns) == *old(extern_fns) + item_count(
            items_view(items@),
            ItemKind::ExternFn,
        ),
    decreases items@,
{
    let ghost s = items@;
    let ghost all = items_view(s);
    let ghost m0 = *memories;
    let ghost h0 = *handlers;
    let ghost q0 = *queries;
    let ghost u0 = *updates;
    let ghost p0 = *policies;
    let ghost e0 = *extern_fns;
    let mut i: usize = 0;
    assert(items_view(s.take(0)) =~= Seq::<ItemV>::empty());
    while i < items.len()
        invariant
            i <= items.len(),
            s == items@,
            all == items_view(s),
            *memories == m0 + item_count(items_view(s.take(i as int)), ItemKind::Memory),
            *handlers == h0 + item_count(items_view(s.take(i as int)), ItemKind::Handler),
            *queries == q0 + item_count(items_view(s.take(i as int)), ItemKind::Query),
            *updates == u0 + item_count(items_view(s.take(i as int)), ItemKind::Update),
            *policies == p0 + item_count(items_view(s.take(i as int)), ItemKind::Policy),
            *extern_fns == e0 + item_count(items_view(s.take(i as int)), ItemKind::ExternFn),
            m0 + item_count(all, ItemKind::Memory) <= usize::MAX,
            h0 + item_count(all, ItemKind::Handler) <= usize::MAX,
            q0 + item_count(all, ItemKind::Query) <= usize::MAX,
            u0 + item_count(all, ItemKind::Update) <= usize::MAX,
            p0 + item_count(all, ItemKind::Policy) <= usize::MAX,
            e0 + item_count(all, ItemKind::ExternFn) <= usize::MAX,
        decreases items.len() - i,
    {
        proof {
            lemma_count_step(s, i as int, ItemKind::Memory);
            lemma_count_step(s, i as int, ItemKind::Handler);
            lemma_count_step(s, i as int, ItemKind::Query);
            lemma_count_step(s, i as int, ItemKind::Update);
            lemma_count_step(s, i as int, ItemKind::Policy);
            lemma_count_step(s, i as int, ItemKind::ExternFn);
            lemma_count_prefix(s, i + 1, ItemKind::Memory);
            lemma_count_prefix(s, i + 1, ItemKind::Handler);
            lemma_count_prefix(s, i + 1, ItemKind::Query);
            lemma_count_prefix(s, i + 1, ItemKind::Update);
            lemma_count_prefix(s, i + 1, ItemKind::Policy);
            lemma_count_prefix(s, i + 1, ItemKind::ExternFn);
        }
        match &items[i] {
            Item::Memory(_) => *memories += 1,
            Item::Handler(_) => *handlers += 1,
            Item::Query(_) => *queries += 1,
            Item::Update(_) => *updates += 1,
            Item::Policy(_) => *policies += 1,
            Item::ExternFn(_) => *extern_fns += 1,
            Item::Namespace(ns) => {
                count_items(
                    ns.items.as_slice(),
                    memories,
                    handlers,
                    queries,
                    updates,
                    policies,
                    extern_fns,
                );
            },
            _ => {},
        }
        i = i + 1;
    }
    assert(s.take(i as int) =~= s);
}

// ───────────────────────────── log levels ─────────────────────────────

/// The log levels from least to most severe.
pub open spec fn level_name(i: int) -> Seq<char> {
    if i == 0 {
        "trace"@
    } else if i == 1 {
        "debug"@
    } else if i == 2 {
        "info"@
    } else if i == 3 {
        "warn"@
    } else {
        "error"@
    }
}

/// A level name in capitals.
pub open spec fn level_caps(i: int) -> Seq<char> {
    if i == 0 {
        "TRACE"@
    } else if i == 1 {
        "DEBUG"@
    } else if i == 2 {
        "INFO"@
    } else if i == 3 {
        "WARN"@
    } else {
        "ERROR"@
    }
}

/// The rank of a level filter; a filter that names no level counts as `info`.
pub open spec fn filter_rank(f: Seq<char>) -> int {
    if f == "trace"@ {
        0
    } else if f == "debug"@ {
        1
    } else if f == "info"@ {
        2
    } else if f == "warn"@ {
        3
    } else if f == "error"@ {
        4
    } else {
        2
    }
}

/// The first level from `i` on that a line mentions, in capitals or not.
pub open spec fn line_level_from(line: Seq<char>, i: int) -> Option<int>
    decreases 5 - i,
{
    if i >= 5 || i < 0 {
        None
    } else if occurs_in(line, level_caps(i)) || occurs_in(line, level_name(i)) {
        Some(i)
    } else {
        line_level_from(line, i + 1)
    }
}

/// A line is shown when the first level it mentions is at least the filter's
/// level; a line that mentions no level is always shown.
pub open spec fn shows(line: Seq<char>, filter: Seq<char>) -> bool {
    match line_level_from(line, 0) {
        Some(i) => i >= filter_rank(filter),
        None => true,
    }
}

fn level_text(i: usize) -> (r: &'static str)
    requires
        i < 5,
    ensures
        r@ == level_name(i as int),
{
    if i == 0 {
        "trace"
    } else if i == 1 {
        "debug"
    } else if i == 2 {
        "info"
    } else if i == 3 {
        "warn"
    } else {
        "error"
    }
}

fn level_caps_text(i: usize) -> (r: &'static str)
    requires
        i < 5,
    ensures
        r@ == level_caps(i as int),
{
    if i == 0 {
        "TRACE"
    } else if i == 1 {
        "DEBUG"
    } else if i == 2 {
        "INFO"
    } else if i == 3 {
        "WARN"
    } else {
        "ERROR"
    }
}

/// Whether a log line passes a level filter (see [`shows`]).
pub fn should_show_line(line: &str, level_filter: &str) -> (r: bool)
    ensures
        r == shows(line@, level_filter@),
{
    let filter_idx: usize = if text_eq(level_filter, "trace") {
        0
    } else if text_eq(level_filter, "debug") {
        1
    } else if text_eq(level_filter, "info") {
        2
    } else if text_eq(level_filter, "warn") {
        3
    } else if text_eq(level_filter, "error") {
        4
    } else {
        2
    };
    let mut i: usize = 0;
    while i < 5
        invariant
            i <= 5,
            filter_idx == filter_rank(level_filter@),
            line_level_from(line@, 0) == line_level_from(line@, i as int),
        decreases 5 - i,
    {
        if contains(line, level_caps_text(i)) || contains(line, level_text(i)) {
            return i >= filter_idx;
        }
        i = i + 1;
    }
    true
}

/// The names under which an inspection shows the section of a store:
/// `sqlite`; `qdrant` or `vector`; `neo4j` or `graph`.
pub open spec fn store_aliases(key: Seq<char>) -> Seq<Seq<char>> {
    if key == "sqlite"@ {
        seq!["sqlite"@]
    } else if key == "qdrant"@ {
        seq!["qdrant"@, "vector"@]
    } else if key == "neo4j"@ {
        seq!["neo4j"@, "graph"@]
    } else {
        Seq::empty()
    }
}

/// Whether the inspection shows the section of store `key`: always without a
/// filter, else when the filter in lower case is one of the store's names.
pub fn shows_store(key: &str, filter: Option<&str>) -> (r: bool)
    ensures
        r == match filter {
            None => true,
            Some(f) => store_aliases(key@).contains(lowercase(f@)),
        },
{
    match filter {
        None => true,
        Some(f) => {
            let lower = to_lowercase(f);
            let l = lower.as_str();
            let ghost a = store_aliases(key@);
            if text_eq(key, "sqlite") {
                let r = text_eq(l, "sqlite");
                assert(r ==> a[0] == l@);
                r
            } else if text_eq(key, "qdrant") {
                let r = text_eq(l, "qdrant") || text_eq(l, "vector");
                assert(a[0] == "qdrant"@ && a[1] == "vector"@);
                r
            } else if text_eq(key, "neo4j") {
                let r = text_eq(l, "neo4j") || text_eq(l, "graph");
                assert(a[0] == "neo4j"@ && a[1] == "graph"@);
                r
            } else {
                false
            }
        },
    }
}

/// A character with ASCII capitals folded to small letters, as a code point.
pub open spec fn ascii_fold(c: char) -> u32 {
    let u = c as u32;
    if 65 <= u && u <= 90 {
        (u + 32) as u32
    } else {
        u
    }
}

/// Two texts are equal up to the case of ASCII letters (what
/// `str::eq_ignore_ascii_case` tells: folding touches ASCII bytes only, so
/// comparing characters gives the same answer as comparing bytes).
pub open spec fn same_ignoring_ascii_case(a: Seq<char>, b: Seq<char>) -> bool {
    a.len() == b.len() && forall|i: int| 0 <= i < a.len() ==> ascii_fold(#[trigger] a[i]) == ascii_fold(
        b[i],
    )
}

fn fold_char(c: char) -> (r: u32)
    ensures
        r == ascii_fold(c),
{
    let u = c as u32;
    if 65 <= u && u <= 90 {
        u + 32
    } else {
        u
    }
}

/// Whether the inspection shows memory `table`: always without a filter,
/// else when the filter names it up to the case of ASCII letters.
pub fn shows_memory(table: &str, filter: Option<&str>) -> (r: bool)
    ensures
        r == match filter {
            None => true,
            Some(f) => same_ignoring_ascii_case(table@, f@),
        },
{
    match filter {
        None => true,
        Some(f) => {
            let n = table.unicode_len();
            if n != f.unicode_len() {
                return false;
            }
            let mut i: usize = 0;
            while i < n
                invariant
                    i <= n,
                    filter == Some(f),
                    n == table@.len(),
                    n == f@.len(),
                    forall|j: int| 0 <= j < i ==> ascii_fold(#[trigger] table@[j]) == ascii_fold(
                        f@[j],
                    ),
                decreases n - i,
            {
                if fold_char(table.get_char(i)) != fold_char(f.get_char(i)) {
                    assert(ascii_fold(table@[i as int]) != ascii_fold(f@[i as int]));
                    return false;
                }
                i = i + 1;
            }
            true
        },
    }
}

} // verus!
