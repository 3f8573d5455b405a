//! The definitions of a program by name, as the runtime looks them up.
use vstd::prelude::*;
use crate::ast::{
    fields_view, item_view, items_view, lemma_items_view_take, rule_view, rules_view, unit_secs,
    FieldDef, FieldDefV, HandlerDef, Item, ItemV, QueryDef, UpdateDef, UpdateRule, UpdateRuleV,
};
use crate::ast_copy::{copy_fields, copy_rules};
use crate::interpreter::{storage_type, type_to_storage_string};
use crate::strmap::{
    assoc, lemma_assoc_dom, lemma_assoc_last, lemma_put_mapped, put_pair, unique_keys,
};
use crate::text::text_eq;

verus! {

/// The handlers of a program by event, its queries by name, its update
/// rules by target memory and the fields of its memories by name, namespaces
/// included. A later definition replaces an earlier one with the same name,
/// in its place: each list holds a name once.
#[derive(Debug)]
pub struct Definitions {
    pub handlers: Vec<(String, HandlerDef)>,
    pub queries: Vec<(String, QueryDef)>,
    pub updates: Vec<(String, UpdateDef)>,
    pub memories: Vec<(String, Vec<FieldDef>)>,
}

pub struct DefinitionsV {
    pub handlers: Map<Seq<char>, ItemV>,
    pub queries: Map<Seq<char>, ItemV>,
    pub updates: Map<Seq<char>, ItemV>,
    pub memories: Map<Seq<char>, Seq<FieldDefV>>,
}

pub open spec fn handler_pairs(v: Seq<(String, HandlerDef)>) -> Seq<(Seq<char>, ItemV)> {
    v.map_values(|p: (String, HandlerDef)| (p.0@, item_view(Item::Handler(p.1))))
}

pub open spec fn query_pairs(v: Seq<(String, QueryDef)>) -> Seq<(Seq<char>, ItemV)> {
    v.map_values(|p: (String, QueryDef)| (p.0@, item_view(Item::Query(p.1))))
}

pub open spec fn update_pairs(v: Seq<(String, UpdateDef)>) -> Seq<(Seq<char>, ItemV)> {
    v.map_values(|p: (String, UpdateDef)| (p.0@, item_view(Item::Update(p.1))))
}

pub open spec fn memory_pairs(v: Seq<(String, Vec<FieldDef>)>) -> Seq<(Seq<char>, Seq<FieldDefV>)> {
    v.map_values(|p: (String, Vec<FieldDef>)| (p.0@, fields_view(p.1@)))
}

impl View for Definitions {
    type V = DefinitionsV;

    open spec fn view(&self) -> DefinitionsV {
        DefinitionsV {
            handlers: assoc(handler_pairs(self.handlers@)),
            queries: assoc(query_pairs(self.queries@)),
            updates: assoc(update_pairs(self.updates@)),
            memories: assoc(memory_pairs(self.memories@)),
        }
    }
}

impl Definitions {
    /// Each list holds a name at most once.
    pub open spec fn well_keyed(&self) -> bool {
        &&& unique_keys(self.handlers@)
        &&& unique_keys(self.queries@)
        &&& unique_keys(self.updates@)
        &&& unique_keys(self.memories@)
    }
}

pub open spec fn no_definitions() -> DefinitionsV {
    DefinitionsV {
        handlers: Map::empty(),
        queries: Map::empty(),
        updates: Map::empty(),
        memories: Map::empty(),
    }
}

/// `d` with the definitions of `it` added.
pub open spec fn define(it: ItemV, d: DefinitionsV) -> DefinitionsV
    decreases it,
{
    match it {
        ItemV::Handler { event, .. } => DefinitionsV { handlers: d.handlers.insert(event, it), ..d },
        ItemV::Query { name, .. } => DefinitionsV { queries: d.queries.insert(name, it), ..d },
        ItemV::Update { target, .. } => DefinitionsV { updates: d.updates.insert(target, it), ..d },
        ItemV::Memory { name, fields, .. } => DefinitionsV {
            memories: d.memories.insert(name, fields),
            ..d
        },
        ItemV::Namespace { items, .. } => define_all(items, d),
        _ => d,
    }
}

/// `d` with the definitions of `items` added in order.
pub open spec fn define_all(items: Seq<ItemV>, d: DefinitionsV) -> DefinitionsV
    decreases items,
{
    if items.len() == 0 {
        d
    } else {
        define(items[items.len() - 1], define_all(items.subrange(0, items.len() - 1), d))
    }
}

proof fn lemma_define_step(s: Seq<Item>, i: int, d: DefinitionsV)
    requires
        0 <= i < s.len(),
    ensures
        define_all(items_view(s.take(i + 1)), d) == define(
            item_view(s[i]),
            define_all(items_view(s.take(i)), d),
        ),
{
    lemma_items_view_take(s, i);
    let y = items_view(s.take(i));
    assert(y.push(item_view(s[i])).subrange(0, y.len() as int) =~= y);
}

fn define_from(items: &[Item], d: Definitions) -> (r: Definitions)
    requires
        d.well_keyed(),
    ensures
        r@ == define_all(items_view(items@), d@),
        r.well_keyed(),
    decreases items@,
{
    let ghost s = items@;
    let ghost d0 = d@;
    let mut cur = d;
    let mut i: usize = 0;
    assert(items_view(s.take(0)) =~= Seq::<ItemV>::empty());
    while i < items.len()
        invariant
            i <= items.len(),
            s == items@,
            cur@ == define_all(items_view(s.take(i as int)), d0),
            cur.well_keyed(),
        decreases items.len() - i,
    {
        proof {
            lemma_define_step(s, i as int, d0);
        }
        match &items[i] {
            Item::Handler(h) => {
                let ghost l0 = cur.handlers@;
                let ghost m0 = handler_pairs(l0);
                let k = h.event.clone();
                let v = h.clone();
                let ghost xv = (k@, item_view(Item::Handler(v)));
                let r = put_pair(&mut cur.handlers, k, v);
                proof {
                    match r {
                        Some(j) => assert(handler_pairs(cur.handlers@) =~= m0.update(j as int, xv)),
                        None => assert(handler_pairs(cur.handlers@) =~= m0.push(xv)),
                    }
                    lemma_put_mapped(l0, m0, handler_pairs(cur.handlers@), r, xv);
                }
            },
            Item::Query(q) => {
                let ghost l0 = cur.queries@;
                let ghost m0 = query_pairs(l0);
                let k = q.name.clone();
                let v = q.clone();
                let ghost xv = (k@, item_view(Item::Query(v)));
                let r = put_pair(&mut cur.queries, k, v);
                proof {
                    match r {
                        Some(j) => assert(query_pairs(cur.queries@) =~= m0.update(j as int, xv)),
                        None => assert(query_pairs(cur.queries@) =~= m0.push(xv)),
                    }
                    lemma_put_mapped(l0, m0, query_pairs(cur.queries@), r, xv);
                }
            },
            Item::Update(u) => {
                let ghost l0 = cur.updates@;
                let ghost m0 = update_pairs(l0);
                let k = u.target.clone();
                let v = u.clone();
                let ghost xv = (k@, item_view(Item::Update(v)));
                let r = put_pair(&mut cur.updates, k, v);
                proof {
                    match r {
                        Some(j) => assert(update_pairs(cur.updates@) =~= m0.update(j as int, xv)),
                        None => assert(update_pairs(cur.updates@) =~= m0.push(xv)),
                    }
                    lemma_put_mapped(l0, m0, update_pairs(cur.updates@), r, xv);
                }
            },
            Item::Memory(m) => {
                let ghost l0 = cur.memories@;
                let ghost m0 = memory_pairs(l0);
                let k = m.name.clone();
                let v = copy_fields(&m.fields);
                let ghost xv = (k@, fields_view(v@));
                let r = put_pair(&mut cur.memories, k, v);
                proof {
                    match r {
                        Some(j) => assert(memory_pairs(cur.memories@) =~= m0.update(j as int, xv)),
                        None => assert(memory_pairs(cur.memories@) =~= m0.push(xv)),
                    }
                    lemma_put_mapped(l0, m0, memory_pairs(cur.memories@), r, xv);
                }
            },
            Item::Namespace(ns) => {
                cur = define_from(ns.items.as_slice(), cur);
            },
            _ => {},
        }
        i = i + 1;
    }
    assert(s.take(i as int) =~= s);
    cur
}

/// The definitions of the items of a program (see [`define_all`]).
pub fn collect_definitions(items: &[Item]) -> (r: Definitions)
    ensures
        r@ == define_all(items_view(items@), no_definitions()),
        r.well_keyed(),
{
    let d = Definitions {
        handlers: Vec::new(),
        queries: Vec::new(),
        updates: Vec::new(),
        memories: Vec::new(),
    };
    assert(d@ =~= no_definitions()) by {
        assert(handler_pairs(d.handlers@) =~= Seq::empty());
        assert(query_pairs(d.queries@) =~= Seq::empty());
        assert(update_pairs(d.updates@) =~= Seq::empty());
        assert(memory_pairs(d.memories@) =~= Seq::empty());
        assert(assoc(handler_pairs(d.handlers@)) =~= Map::empty());
        assert(assoc(query_pairs(d.queries@)) =~= Map::empty());
        assert(assoc(update_pairs(d.updates@)) =~= Map::empty());
        assert(assoc(memory_pairs(d.memories@)) =~= Map::empty());
    }
    define_from(items, d)
}

/// The texts of a list of strings.
pub open spec fn str_texts(v: Seq<&str>) -> Seq<Seq<char>> {
    v.map_values(|k: &str| k@)
}

/// The keys of `l`, each once, latest first.
fn distinct_keys<'a, V>(l: &'a Vec<(String, V)>) -> (r: Vec<&'a str>)
    ensures
        str_texts(r@).no_duplicates(),
        forall|k: Seq<char>|
            #[trigger] str_texts(r@).contains(k) <==> exists|j: int|
                0 <= j < l@.len() && (#[trigger] l@[j]).0@ == k,
{
    let mut out: Vec<&'a str> = Vec::new();
    let mut j = l.len();
    while j > 0
        invariant
            j <= l.len(),
            str_texts(out@).no_duplicates(),
            forall|k: Seq<char>|
                #[trigger] str_texts(out@).contains(k) <==> exists|m: int|
                    j <= m < l@.len() && (#[trigger] l@[m]).0@ == k,
        decreases j,
    {
        j = j - 1;
        let key = l[j].0.as_str();
        let mut seen = false;
        let mut t: usize = 0;
        while t < out.len()
            invariant
                t <= out.len(),
                seen == exists|u: int| 0 <= u < t && (#[trigger] out@[u])@ == key@,
            decreases out.len() - t,
        {
            if text_eq(out[t], key) {
                seen = true;
            }
            t = t + 1;
        }
        let ghost before = str_texts(out@);
        if seen {
            proof {
                let u = choose|u: int| 0 <= u < out@.len() && (#[trigger] out@[u])@ == key@;
                assert(before[u] == key@);
            }
            assert forall|k: Seq<char>| before.contains(k) <==> exists|m: int|
                j <= m < l@.len() && (#[trigger] l@[m]).0@ == k by {
                if exists|m: int| j <= m < l@.len() && (#[trigger] l@[m]).0@ == k {
                    let m = choose|m: int| j <= m < l@.len() && (#[trigger] l@[m]).0@ == k;
                    if m > j {
                        assert(exists|m2: int| j + 1 <= m2 < l@.len() && (#[trigger] l@[m2]).0@ == k);
                    }
                }
                if before.contains(k) {
                    assert(exists|m2: int| j + 1 <= m2 < l@.len() && (#[trigger] l@[m2]).0@ == k);
                }
            }
        } else {
            out.push(key);
            let ghost after = str_texts(out@);
            assert(after =~= before.push(key@));
            assert forall|a: int, b: int| 0 <= a < b < after.len() implies after[a] != after[b] by {
                if b == after.len() - 1 {
                    assert(after[a] == out@[a]@);
                }
            }
            assert forall|k: Seq<char>| after.contains(k) <==> exists|m: int|
                j <= m < l@.len() && (#[trigger] l@[m]).0@ == k by {
                if after.contains(k) {
                    let p = choose|p: int| 0 <= p < after.len() && after[p] == k;
                    if p < before.len() {
                        assert(before[p] == k);
                        assert(before.contains(k));
                    }
                }
                if exists|m: int| j <= m < l@.len() && (#[trigger] l@[m]).0@ == k {
                    let m = choose|m: int| j <= m < l@.len() && (#[trigger] l@[m]).0@ == k;
                    if m > j {
                        assert(exists|m2: int| j + 1 <= m2 < l@.len() && (#[trigger] l@[m2]).0@ == k);
                        assert(before.contains(k));
                        let p = choose|p: int| 0 <= p < before.len() && before[p] == k;
                        assert(after[p] == k);
                    } else {
                        assert(after[after.len() - 1] == k);
                    }
                }
            }
        }
    }
    out
}

proof fn lemma_names_dom<V, W>(l: Seq<(String, V)>, pairs: Seq<(Seq<char>, W)>, names: Seq<Seq<char>>)
    requires
        pairs.len() == l.len(),
        forall|j: int| 0 <= j < l.len() ==> (#[trigger] pairs[j]).0 == l[j].0@,
        forall|k: Seq<char>|
            #[trigger] names.contains(k) <==> exists|j: int| 0 <= j < l.len() && (#[trigger] l[j]).0@ == k,
    ensures
        names.to_set() == assoc(pairs).dom(),
{
    assert forall|k: Seq<char>| #[trigger] names.to_set().contains(k) == assoc(pairs).dom().contains(
        k,
    ) by {
        assert(names.to_set().contains(k) == names.contains(k));
        lemma_assoc_dom(pairs, k);
        if exists|j: int| 0 <= j < pairs.len() && (#[trigger] pairs[j]).0 == k {
            let j = choose|j: int| 0 <= j < pairs.len() && (#[trigger] pairs[j]).0 == k;
            assert(l[j].0@ == k);
        }
        if exists|j: int| 0 <= j < l.len() && (#[trigger] l[j]).0@ == k {
            let j = choose|j: int| 0 <= j < l.len() && (#[trigger] l[j]).0@ == k;
            assert(pairs[j].0 == k);
        }
    }
    assert(names.to_set() =~= assoc(pairs).dom());
}

impl Definitions {
    /// The events that have a handler, each once.
    pub fn handler_names(&self) -> (r: Vec<&str>)
        ensures
            str_texts(r@).no_duplicates(),
            str_texts(r@).to_set() == self@.handlers.dom(),
    {
        let r = distinct_keys(&self.handlers);
        proof {
            lemma_names_dom(self.handlers@, handler_pairs(self.handlers@), str_texts(r@));
        }
        r
    }

    /// The names of the queries, each once.
    pub fn query_names(&self) -> (r: Vec<&str>)
        ensures
            str_texts(r@).no_duplicates(),
            str_texts(r@).to_set() == self@.queries.dom(),
    {
        let r = distinct_keys(&self.queries);
        proof {
            lemma_names_dom(self.queries@, query_pairs(self.queries@), str_texts(r@));
        }
        r
    }

    /// The names of the memories, each once.
    pub fn memory_names(&self) -> (r: Vec<&str>)
        ensures
            str_texts(r@).no_duplicates(),
            str_texts(r@).to_set() == self@.memories.dom(),
    {
        let r = distinct_keys(&self.memories);
        proof {
            lemma_names_dom(self.memories@, memory_pairs(self.memories@), str_texts(r@));
        }
        r
    }
}

/// The columns of a memory's table: each field's name and storage type.
pub open spec fn column_specs(fs: Seq<FieldDefV>) -> Seq<(Seq<char>, Seq<char>)> {
    fs.map_values(|f: FieldDefV| (f.name, storage_type(f.ty)))
}

pub open spec fn text_pairs(v: Seq<(String, String)>) -> Seq<(Seq<char>, Seq<char>)> {
    v.map_values(|p: (String, String)| (p.0@, p.1@))
}

fn columns_of(fields: &Vec<FieldDef>) -> (r: Vec<(String, String)>)
    ensures
        text_pairs(r@) == column_specs(fields_view(fields@)),
{
    let ghost want = column_specs(fields_view(fields@));
    let mut out: Vec<(String, String)> = Vec::new();
    let mut i: usize = 0;
    while i < fields.len()
        invariant
            i <= fields.len(),
            want == column_specs(fields_view(fields@)),
            text_pairs(out@) == want.take(i as int),
        decreases fields.len() - i,
    {
        let f = &fields[i];
        let x = (f.name.clone(), type_to_storage_string(&f.ty));
        let ghost before = text_pairs(out@);
        let ghost xv = (x.0@, x.1@);
        assert(want[i as int] == xv);
        out.push(x);
        assert(text_pairs(out@) =~= before.push(xv));
        assert(want.take(i + 1) =~= want.take(i as int).push(xv));
        i = i + 1;
    }
    assert(want.take(i as int) =~= want);
    out
}

fn last_with_key<V>(l: &Vec<(String, V)>, k: &str) -> (r: Option<usize>)
    ensures
        r matches Some(i) ==> i < l@.len() && l@[i as int].0@ == k@ && forall|j: int|
            i < j < l@.len() ==> (#[trigger] l@[j]).0@ != k@,
        r is None ==> forall|j: int| 0 <= j < l@.len() ==> (#[trigger] l@[j]).0@ != k@,
{
    let mut j = l.len();
    while j > 0
        invariant
            j <= l.len(),
            forall|m: int| j <= m < l@.len() ==> (#[trigger] l@[m]).0@ != k@,
        decreases j,
    {
        j = j - 1;
        if text_eq(l[j].0.as_str(), k) {
            return Some(j);
        }
    }
    None
}

impl Definitions {
    /// The tables that storage needs: one per memory, each named after it
    /// with its columns (see [`column_specs`]).
    pub fn table_specs(&self) -> (r: Vec<(String, Vec<(String, String)>)>)
        ensures
            r@.map_values(|t: (String, Vec<(String, String)>)| t.0@).no_duplicates(),
            r@.map_values(|t: (String, Vec<(String, String)>)| t.0@).to_set()
                == self@.memories.dom(),
            forall|i: int|
                0 <= i < r@.len() ==> text_pairs((#[trigger] r@[i]).1@) == column_specs(
                    self@.memories[r@[i].0@],
                ),
    {
        let names = self.memory_names();
        let ghost pairs = memory_pairs(self.memories@);
        let mut out: Vec<(String, Vec<(String, String)>)> = Vec::new();
        let mut i: usize = 0;
        while i < names.len()
            invariant
                i <= names.len(),
                pairs == memory_pairs(self.memories@),
                str_texts(names@).no_duplicates(),
                str_texts(names@).to_set() == self@.memories.dom(),
                out@.map_values(|t: (String, Vec<(String, String)>)| t.0@) == str_texts(names@).take(
                    i as int,
                ),
                forall|m: int|
                    0 <= m < out@.len() ==> text_pairs((#[trigger] out@[m]).1@) == column_specs(
                        self@.memories[out@[m].0@],
                    ),
            decreases names.len() - i,
        {
            let name = names[i];
            assert(str_texts(names@)[i as int] == name@);
            assert(str_texts(names@).to_set().contains(name@));
            proof {
                lemma_assoc_dom(pairs, name@);
            }
            match last_with_key(&self.memories, name) {
                Some(k) => {
                    proof {
                        assert(pairs[k as int].0 == name@);
                        assert forall|j: int| k < j < pairs.len() implies (#[trigger] pairs[j]).0
                            != name@ by {
                            assert(pairs[j].0 == self.memories@[j].0@);
                        }
                        lemma_assoc_last(pairs, k as int, name@);
                    }
                    let cols = columns_of(&self.memories[k].1);
                    let ghost before = out@.map_values(|t: (String, Vec<(String, String)>)| t.0@);
                    out.push((String::from_str(name), cols));
                    assert(out@.map_values(|t: (String, Vec<(String, String)>)| t.0@) =~= before.push(
                        name@,
                    ));
                    assert(str_texts(names@).take(i + 1) =~= str_texts(names@).take(i as int).push(
                        name@,
                    ));
                },
                None => {
                    proof {
                        let j = choose|j: int| 0 <= j < pairs.len() && (#[trigger] pairs[j]).0
                            == name@;
                        assert(self.memories@[j].0@ == name@);
                    }
                },
            }
            i = i + 1;
        }
        assert(str_texts(names@).take(i as int) =~= str_texts(names@));
        out
    }
}

impl Definitions {
    /// The handler of `event`, or the error `unknown event: <event>`.
    pub fn handler_for(&self, event: &str) -> (r: Result<&HandlerDef, String>)
        ensures
            r is Ok <==> self@.handlers.contains_key(event@),
            r matches Ok(h) ==> item_view(Item::Handler(*h)) == self@.handlers[event@],
            r matches Err(m) ==> m@ == "unknown event: "@ + event@,
    {
        let ghost pairs = handler_pairs(self.handlers@);
        proof {
            lemma_assoc_dom(pairs, event@);
        }
        match last_with_key(&self.handlers, event) {
            Some(k) => {
                proof {
                    assert forall|j: int| k < j < pairs.len() implies (#[trigger] pairs[j]).0
                        != event@ by {
                        assert(pairs[j].0 == self.handlers@[j].0@);
                    }
                    lemma_assoc_last(pairs, k as int, event@);
                }
                Ok(&self.handlers[k].1)
            },
            None => {
                proof {
                    if exists|j: int| 0 <= j < pairs.len() && (#[trigger] pairs[j]).0 == event@ {
                        let j = choose|j: int| 0 <= j < pairs.len() && (#[trigger] pairs[j]).0
                            == event@;
                        assert(self.handlers@[j].0@ == event@);
                    }
                }
                let mut m = String::from_str("unknown event: ");
                m.append(event);
                Err(m)
            },
        }
    }

    /// The query named `name`, or the error `unknown query: <name>`.
    pub fn query_for(&self, name: &str) -> (r: Result<&QueryDef, String>)
        ensures
            r is Ok <==> self@.queries.contains_key(name@),
            r matches Ok(q) ==> item_view(Item::Query(*q)) == self@.queries[name@],
            r matches Err(m) ==> m@ == "unknown query: "@ + name@,
    {
        let ghost pairs = query_pairs(self.queries@);
        proof {
            lemma_assoc_dom(pairs, name@);
        }
        match last_with_key(&self.queries, name) {
            Some(k) => {
                proof {
                    assert forall|j: int| k < j < pairs.len() implies (#[trigger] pairs[j]).0
                        != name@ by {
                        assert(pairs[j].0 == self.queries@[j].0@);
                    }
                    lemma_assoc_last(pairs, k as int, name@);
                }
                Ok(&self.queries[k].1)
            },
            None => {
                proof {
                    if exists|j: int| 0 <= j < pairs.len() && (#[trigger] pairs[j]).0 == name@ {
                        let j = choose|j: int| 0 <= j < pairs.len() && (#[trigger] pairs[j]).0
                            == name@;
                        assert(self.queries@[j].0@ == name@);
                    }
                }
                let mut m = String::from_str("unknown query: ");
                m.append(name);
                Err(m)
            },
        }
    }
}

// ───────────────────────────── periodic rules ─────────────────────────────

/// Every `every` interval among `rules` fits in `u64` seconds.
pub open spec fn rules_fit(rules: Seq<UpdateRuleV>) -> bool {
    forall|i: int|
        0 <= i < rules.len() ==> ((#[trigger] rules[i]) matches UpdateRuleV::Every { interval, .. }
            ==> interval.value * unit_secs(interval.unit) <= u64::MAX)
}

/// Every `every` interval of an update or policy of `it` fits in `u64` seconds.
pub open spec fn intervals_fit(it: ItemV) -> bool
    decreases it,
{
    match it {
        ItemV::Update { rules, .. } => rules_fit(rules),
        ItemV::Policy { rules, .. } => rules_fit(rules),
        ItemV::Namespace { items, .. } => all_intervals_fit(items),
        _ => true,
    }
}

pub open spec fn all_intervals_fit(items: Seq<ItemV>) -> bool
    decreases items,
{
    if items.len() == 0 {
        true
    } else {
        all_intervals_fit(items.subrange(0, items.len() - 1)) && intervals_fit(
            items[items.len() - 1],
        )
    }
}

/// One entry per `every` rule among the first `n` of `rules`: the name the
/// rule runs under, its interval in seconds, and the update it belongs to.
pub open spec fn every_entries(
    name: Seq<char>,
    rules: Seq<UpdateRuleV>,
    owner: ItemV,
    n: int,
) -> Seq<(Seq<char>, int, ItemV)>
    decreases n,
{
    if n <= 0 {
        Seq::empty()
    } else {
        every_entries(name, rules, owner, n - 1) + match rules[n - 1] {
            UpdateRuleV::Every { interval, .. } => seq![
                (name, interval.value * unit_secs(interval.unit), owner),
            ],
            _ => Seq::empty(),
        }
    }
}

/// The periodic rules of `it`: those of an update, under its target; those
/// of a policy, under its name and as an update of that name with the
/// policy's rules; those inside a namespace.
pub open spec fn periodic_of(it: ItemV) -> Seq<(Seq<char>, int, ItemV)>
    decreases it,
{
    match it {
        ItemV::Update { target, rules } => every_entries(target, rules, it, rules.len() as int),
        ItemV::Policy { name, rules } => every_entries(
            name,
            rules,
            ItemV::Update { target: name, rules },
            rules.len() as int,
        ),
        ItemV::Namespace { items, .. } => periodic_in(items),
        _ => Seq::empty(),
    }
}

/// The periodic rules of `items`, in order.
pub open spec fn periodic_in(items: Seq<ItemV>) -> Seq<(Seq<char>, int, ItemV)>
    decreases items,
{
    if items.len() == 0 {
        Seq::empty()
    } else {
        periodic_in(items.subrange(0, items.len() - 1)) + periodic_of(items[items.len() - 1])
    }
}

pub open spec fn periodic_view(v: Seq<(String, u64, UpdateDef)>) -> Seq<(Seq<char>, int, ItemV)> {
    v.map_values(|e: (String, u64, UpdateDef)| (e.0@, e.1 as int, item_view(Item::Update(e.2))))
}

proof fn lemma_periodic_step(s: Seq<Item>, i: int)
    requires
        0 <= i < s.len(),
    ensures
        periodic_in(items_view(s.take(i + 1))) == periodic_in(items_view(s.take(i)))
            + periodic_of(item_view(s[i])),
        all_intervals_fit(items_view(s.take(i + 1))) == (all_intervals_fit(items_view(s.take(i)))
            && intervals_fit(item_view(s[i]))),
{
    lemma_items_view_take(s, i);
    let y = items_view(s.take(i));
    assert(y.push(item_view(s[i])).subrange(0, y.len() as int) =~= y);
}

proof fn lemma_fit_prefix(s: Seq<Item>, i: int)
    requires
        0 <= i <= s.len(),
        all_intervals_fit(items_view(s)),
    ensures
        all_intervals_fit(items_view(s.take(i))),
    decreases s.len() - i,
{
    if i < s.len() {
        lemma_periodic_step(s, i);
        lemma_fit_prefix(s, i + 1);
    } else {
        assert(s.take(i) =~= s);
    }
}

fn push_every_rules(
    out: &mut Vec<(String, u64, UpdateDef)>,
    name: &String,
    rules: &Vec<UpdateRule>,
    owner: &UpdateDef,
)
    requires
        rules_fit(rules_view(rules@)),
    ensures
        periodic_view(final(out)@) == periodic_view(old(out)@) + every_entries(
            name@,
            rules_view(rules@),
            item_view(Item::Update(*owner)),
            rules@.len() as int,
        ),
{
    let ghost rv = rules_view(rules@);
    let ghost ov = item_view(Item::Update(*owner));
    let ghost base = periodic_view(out@);
    let mut i: usize = 0;
    assert(base + every_entries(name@, rv, ov, 0) =~= base);
    while i < rules.len()
        invariant
            i <= rules.len(),
            rv == rules_view(rules@),
            rv.len() == rules@.len(),
            rules_fit(rv),
            ov == item_view(Item::Update(*owner)),
            periodic_view(out@) == base + every_entries(name@, rv, ov, i as int),
        decreases rules.len() - i,
    {
        assert(rv[i as int] == rule_view(rules@[i as int]));
        let ghost before = periodic_view(out@);
        match &rules[i] {
            UpdateRule::Every { interval, .. } => {
                assert(rv[i as int] matches UpdateRuleV::Every { .. });
                let secs = interval.to_secs();
                let e = (name.clone(), secs, owner.clone());
                let ghost ev = (e.0@, e.1 as int, item_view(Item::Update(e.2)));
                out.push(e);
                assert(periodic_view(out@) =~= before.push(ev));
            },
            _ => {},
        }
        i = i + 1;
    }
}

/// Appends the periodic rules of `items` to `rules` (see [`periodic_in`]):
/// each with the name it runs under, its interval in seconds and its update.
pub fn collect_periodic_rules(items: &[Item], rules: &mut Vec<(String, u64, UpdateDef)>)
    requires
        all_intervals_fit(items_view(items@)),
    ensures
        periodic_view(final(rules)@) == periodic_view(old(rules)@) + periodic_in(items_view(items@)),
    decreases items@,
{
    let ghost s = items@;
    let ghost base = periodic_view(rules@);
    let mut i: usize = 0;
    assert(items_view(s.take(0)) =~= Seq::<ItemV>::empty());
    assert(base + periodic_in(items_view(s.take(0))) =~= base);
    while i < items.len()
        invariant
            i <= items.len(),
            s == items@,
            all_intervals_fit(items_view(s)),
            periodic_view(rules@) == base + periodic_in(items_view(s.take(i as int))),
        decreases items.len() - i,
    {
        proof {
            lemma_periodic_step(s, i as int);
            lemma_fit_prefix(s, i + 1);
        }
        let ghost before = periodic_view(rules@);
        match &items[i] {
            Item::Update(u) => {
                push_every_rules(rules, &u.target, &u.rules, u);
            },
            Item::Policy(p) => {
                let pseudo = UpdateDef { target: p.name.clone(), rules: copy_rules(&p.rules) };
                push_every_rules(rules, &p.name, &p.rules, &pseudo);
            },
            Item::Namespace(ns) => {
                collect_periodic_rules(ns.items.as_slice(), rules);
            },
            _ => {},
        }
        assert(periodic_view(rules@) =~= base + periodic_in(items_view(s.take(i + 1))));
        i = i + 1;
    }
    assert(s.take(i as int) =~= s);
}

} // verus!
