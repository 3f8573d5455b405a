//! How field types are stored, which names a Cypher query may take from
//! scope, and the scopes of variables that handlers run in.
use vstd::prelude::*;
use crate::ast::strs_view;
use crate::stdtext::{alphanumeric, is_alphanumeric};
use crate::strmap::{assoc, lemma_assoc_dom, lemma_assoc_last, lemma_assoc_push};
use crate::text::{collect_chars, text_eq};
use crate::types::{Type, TypeV};

verus! {

/// The storage type name of a field type: optionals are stored as their
/// inner type, arrays as JSON text, references to other memories as text keys.
pub open spec fn storage_type(t: TypeV) -> Seq<char>
    decreases t,
{
    match t {
        TypeV::String => "string"@,
        TypeV::Int => "int"@,
        TypeV::Float => "float"@,
        TypeV::BoundedFloat { .. } => "float"@,
        TypeV::Bool => "bool"@,
        TypeV::Timestamp => "timestamp"@,
        TypeV::Optional(inner) => storage_type(*inner),
        TypeV::Array(_) => "string"@,
        TypeV::Named(_) => "string"@,
    }
}

/// The storage type name of a field type (see [`storage_type`]).
pub fn type_to_storage_string(ty: &Type) -> (r: String)
    ensures
        r@ == storage_type(ty@),
    decreases ty,
{
    match ty {
        Type::String => String::from_str("string"),
        Type::Int => String::from_str("int"),
        Type::Float | Type::BoundedFloat { .. } => String::from_str("float"),
        Type::Bool => String::from_str("bool"),
        Type::Timestamp => String::from_str("timestamp"),
        Type::Optional(inner) => type_to_storage_string(&**inner),
        Type::Array(_) => String::from_str("string"),
        Type::Named(_) => String::from_str("string"),
    }
}

// ───────────────────────────── Cypher parameters ─────────────────────────────

/// A character of a parameter name: alphanumeric or `_`.
pub open spec fn name_char(c: char) -> bool {
    alphanumeric(c) || c == '_'
}

/// The end of the run of name characters of `s` that starts at `j`.
pub open spec fn name_end(s: Seq<char>, j: int) -> int
    decreases s.len() - j,
{
    if 0 <= j < s.len() && name_char(s[j]) {
        name_end(s, j + 1)
    } else {
        j
    }
}

/// The non-empty name that starts at `j`, as a list of at most one name.
pub open spec fn name_at(s: Seq<char>, j: int) -> Seq<Seq<char>> {
    if name_end(s, j) > j {
        seq![s.subrange(j, name_end(s, j))]
    } else {
        Seq::empty()
    }
}

/// The names right after each `$` of `s` from index `i` on.
pub open spec fn dollar_names(s: Seq<char>, i: int) -> Seq<Seq<char>>
    decreases s.len() - i,
{
    if i < 0 || i >= s.len() {
        Seq::empty()
    } else {
        (if s[i] == '$' {
            name_at(s, i + 1)
        } else {
            Seq::empty()
        }) + dollar_names(s, i + 1)
    }
}

/// The names that a Cypher query may take from the variables in scope: the
/// name that begins each piece of the text between `$` signs (the first
/// piece included), where it is not empty.
pub open spec fn cypher_scope_names(s: Seq<char>) -> Seq<Seq<char>> {
    name_at(s, 0) + dollar_names(s, 0)
}

proof fn lemma_name_end(s: Seq<char>, j: int)
    requires
        0 <= j <= s.len(),
    ensures
        j <= name_end(s, j) <= s.len(),
    decreases s.len() - j,
{
    if j < s.len() && name_char(s[j]) {
        lemma_name_end(s, j + 1);
    }
}

fn name_end_exec(v: &Vec<char>, j: usize) -> (r: usize)
    requires
        j <= v.len(),
    ensures
        r == name_end(v@, j as int),
{
    let mut k = j;
    while k < v.len() && (is_alphanumeric(v[k]) || v[k] == '_')
        invariant
            j <= k <= v.len(),
            name_end(v@, j as int) == name_end(v@, k as int),
        decreases v.len() - k,
    {
        k = k + 1;
    }
    k
}

fn push_name_at(out: &mut Vec<String>, query: &str, v: &Vec<char>, j: usize)
    requires
        v@ == query@,
        j <= v.len(),
    ensures
        strs_view(final(out)@) == strs_view(old(out)@) + name_at(v@, j as int),
{
    proof {
        lemma_name_end(v@, j as int);
    }
    let e = name_end_exec(v, j);
    let ghost before = out@;
    if e > j {
        out.push(String::from_str(query.substring_char(j, e)));
        assert(strs_view(out@) =~= strs_view(before) + name_at(v@, j as int));
    } else {
        assert(strs_view(out@) =~= strs_view(before) + name_at(v@, j as int));
    }
}

/// The names that a Cypher query may take from scope (see [`cypher_scope_names`]).
pub fn cypher_param_names(query: &str) -> (r: Vec<String>)
    ensures
        strs_view(r@) == cypher_scope_names(query@),
{
    let v = collect_chars(query);
    let ghost s = query@;
    let mut out: Vec<String> = Vec::new();
    assert(strs_view(out@) =~= Seq::<Seq<char>>::empty());
    push_name_at(&mut out, query, &v, 0);
    let mut i: usize = 0;
    while i < v.len()
        invariant
            v@ == s,
            s == query@,
            i <= v.len(),
            strs_view(out@) + dollar_names(s, i as int) == cypher_scope_names(s),
        decreases v.len() - i,
    {
        let ghost before = strs_view(out@);
        if v[i] == '$' {
            push_name_at(&mut out, query, &v, i + 1);
        }
        assert(strs_view(out@) + dollar_names(s, i + 1) =~= before + dollar_names(s, i as int));
        i = i + 1;
    }
    assert(strs_view(out@) =~= strs_view(out@) + dollar_names(s, i as int));
    out
}

// ───────────────────────────── variable scopes ─────────────────────────────

/// Nested scopes of variables, innermost last. A name is set in the
/// innermost scope, and read from the innermost scope that has it.
#[derive(Debug)]
pub struct Scopes<V> {
    scopes: Vec<Vec<(String, V)>>,
}

pub open spec fn scope_view<V>(s: Seq<(String, V)>) -> Map<Seq<char>, V> {
    assoc(s.map_values(|p: (String, V)| (p.0@, p.1)))
}

/// The value of `name` in the innermost of the first `n` scopes that has it.
pub open spec fn lookup<V>(scopes: Seq<Map<Seq<char>, V>>, name: Seq<char>, n: int) -> Option<V>
    decreases n,
{
    if n <= 0 {
        None
    } else if scopes[n - 1].contains_key(name) {
        Some(scopes[n - 1][name])
    } else {
        lookup(scopes, name, n - 1)
    }
}

impl<V> View for Scopes<V> {
    type V = Seq<Map<Seq<char>, V>>;

    closed spec fn view(&self) -> Seq<Map<Seq<char>, V>> {
        self.scopes@.map_values(|s: Vec<(String, V)>| scope_view(s@))
    }
}

impl<V> Scopes<V> {
    /// One empty scope.
    pub fn new() -> (r: Scopes<V>)
        ensures
            r@ == seq![Map::<Seq<char>, V>::empty()],
    {
        let mut scopes: Vec<Vec<(String, V)>> = Vec::new();
        scopes.push(Vec::new());
        let r = Scopes { scopes };
        assert(scope_view(r.scopes@[0]@) =~= Map::<Seq<char>, V>::empty()) by {
            assert(r.scopes@[0]@.map_values(|p: (String, V)| (p.0@, p.1)) =~= Seq::empty());
        }
        assert(r@ =~= seq![Map::<Seq<char>, V>::empty()]);
        r
    }

    /// Opens a new innermost scope.
    pub fn push_scope(&mut self)
        ensures
            final(self)@ == old(self)@.push(Map::empty()),
    {
        let ghost before = self@;
        self.scopes.push(Vec::new());
        assert(scope_view(self.scopes@.last()@) =~= Map::<Seq<char>, V>::empty()) by {
            assert(self.scopes@.last()@.map_values(|p: (String, V)| (p.0@, p.1)) =~= Seq::empty());
        }
        assert(self@ =~= before.push(Map::empty()));
    }

    /// Closes the innermost scope, if there is one.
    pub fn pop_scope(&mut self)
        ensures
            final(self)@ == if old(self)@.len() > 0 {
                old(self)@.drop_last()
            } else {
                old(self)@
            },
    {
        let ghost before = self@;
        let _ = self.scopes.pop();
        assert(self@ =~= if before.len() > 0 {
            before.drop_last()
        } else {
            before
        });
    }

    /// Sets `name` to `value` in the innermost scope (nothing happens when
    /// every scope has been closed).
    pub fn set(&mut self, name: &str, value: V)
        ensures
            final(self)@ == if old(self)@.len() > 0 {
                old(self)@.update(
                    old(self)@.len() - 1,
                    old(self)@.last().insert(name@, value),
                )
            } else {
                old(self)@
            },
    {
        let ghost before = self@;
        let n = self.scopes.len();
        if n > 0 {
            let mut last = self.scopes.pop().unwrap();
            let ghost l0 = last@;
            let ghost x = (name@, value);
            last.push((String::from_str(name), value));
            proof {
                assert(last@.map_values(|p: (String, V)| (p.0@, p.1)) =~= l0.map_values(
                    |p: (String, V)| (p.0@, p.1),
                ).push(x));
                lemma_assoc_push(l0.map_values(|p: (String, V)| (p.0@, p.1)), x);
            }
            self.scopes.push(last);
            assert(self@ =~= before.update(before.len() - 1, before.last().insert(name@, value)));
        }
    }

    /// The value of `name` in the innermost scope that has it.
    pub fn get(&self, name: &str) -> (r: Option<&V>)
        ensures
            r matches Some(v) ==> lookup(self@, name@, self@.len() as int) == Some(*v),
            r is None ==> lookup(self@, name@, self@.len() as int) is None,
    {
        let mut k = self.scopes.len();
        while k > 0
            invariant
                k <= self.scopes.len(),
                lookup(self@, name@, self@.len() as int) == lookup(self@, name@, k as int),
            decreases k,
        {
            let scope = &self.scopes[k - 1];
            let ghost pairs = scope@.map_values(|p: (String, V)| (p.0@, p.1));
            assert(self@[k - 1] == assoc(pairs));
            let mut j = scope.len();
            while j > 0
                invariant
                    j <= scope.len(),
                    0 < k <= self.scopes.len(),
                    scope == self.scopes@[k - 1],
                    self@[k - 1] == assoc(pairs),
                    lookup(self@, name@, self@.len() as int) == lookup(self@, name@, k as int),
                    pairs == scope@.map_values(|p: (String, V)| (p.0@, p.1)),
                    forall|m: int| j <= m < scope@.len() ==> (#[trigger] scope@[m]).0@ != name@,
                decreases j,
            {
                j = j - 1;
                if text_eq(scope[j].0.as_str(), name) {
                    proof {
                        assert forall|m: int| j < m < pairs.len() implies (#[trigger] pairs[m]).0
                            != name@ by {
                            assert(pairs[m].0 == scope@[m].0@);
                        }
                        lemma_assoc_last(pairs, j as int, name@);
                    }
                    return Some(&scope[j].1);
                }
            }
            proof {
                lemma_assoc_dom(pairs, name@);
                if assoc(pairs).contains_key(name@) {
                    let m = choose|m: int| 0 <= m < pairs.len() && (#[trigger] pairs[m]).0 == name@;
                    assert(scope@[m].0@ == name@);
                }
            }
            k = k - 1;
        }
        None
    }
}

/// A variable reads back as it was last set, and closing a scope just
/// opened gives back the scopes there were before.
pub proof fn lemma_scopes_read_write<V>(
    scopes: Seq<Map<Seq<char>, V>>,
    name: Seq<char>,
    value: V,
)
    requires
        scopes.len() > 0,
    ensures
        ({
            let after = scopes.update(scopes.len() - 1, scopes.last().insert(name, value));
            lookup(after, name, after.len() as int) == Some(value)
        }),
        scopes.push(Map::empty()).drop_last() == scopes,
{
    assert(scopes.push(Map::empty()).drop_last() =~= scopes);
}

} // verus!
