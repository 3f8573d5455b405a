//! How a query is spread over the backends: what the relational store is
//! asked, and which record ids the graph and vector stores let through.
use vstd::prelude::*;
use crate::storage::query_text::order_view;
use crate::strmap::{find_key, map_of};
use crate::text::text_eq;

verus! {

/// What the relational store is asked, and the limit that is applied only
/// once the candidates of the other stores have been merged in.
#[derive(Debug, Clone, PartialEq, Eq)]
pub struct BackendSettings {
    /// Field and direction (`true` for ascending) to order by.
    pub order_by: Option<(String, bool)>,
    pub limit: Option<usize>,
    pub deferred_limit: Option<usize>,
}

/// Ordering by `_score`, or by a score alias, is done after the backends answer.
pub open spec fn virtual_order(
    order_by: Option<(Seq<char>, bool)>,
    aliases: Map<Seq<char>, Seq<char>>,
) -> bool {
    match order_by {
        Some((f, _)) => f == "_score"@ || aliases.contains_key(f),
        None => false,
    }
}

/// Settings for the relational store: a virtual ordering is left out, and
/// when a graph match, semantic match or Cypher query will narrow the results
/// the limit waits until they have.
pub fn backend_settings(
    order_by: &Option<(String, bool)>,
    limit: Option<usize>,
    has_graph_match: bool,
    has_semantic_match: bool,
    has_cypher_query: bool,
    score_aliases: &Vec<(String, String)>,
) -> (r: BackendSettings)
    ensures
        ({
            let candidates = has_graph_match || has_semantic_match || has_cypher_query;
            &&& order_view(r.order_by) == if virtual_order(
                order_view(*order_by),
                map_of(score_aliases@),
            ) {
                None
            } else {
                order_view(*order_by)
            }
            &&& r.limit == if candidates {
                None
            } else {
                limit
            }
            &&& r.deferred_limit == if candidates {
                limit
            } else {
                None
            }
        }),
{
    let candidates = has_graph_match || has_semantic_match || has_cypher_query;
    let is_virtual = match order_by {
        Some((f, _)) => text_eq(f.as_str(), "_score") || find_key(score_aliases, f.as_str()).is_some(),
        None => false,
    };
    let order = if is_virtual {
        None
    } else {
        match order_by {
            Some((f, asc)) => Some((f.clone(), *asc)),
            None => None,
        }
    };
    BackendSettings {
        order_by: order,
        limit: if candidates {
            None
        } else {
            limit
        },
        deferred_limit: if candidates {
            limit
        } else {
            None
        },
    }
}

/// The ids in a list, as a set of texts.
pub open spec fn id_set(v: Seq<String>) -> Set<Seq<char>> {
    Set::new(|x: Seq<char>| exists|i: int| 0 <= i < v.len() && (#[trigger] v[i])@ == x)
}

pub open spec fn opt_ids(o: Option<Vec<String>>) -> Option<Set<Seq<char>>> {
    match o {
        Some(v) => Some(id_set(v@)),
        None => None,
    }
}

/// The ids that the graph store lets through: those of the graph match, of
/// the Cypher query, or of both (then only ids found by both).
pub open spec fn graph_candidates(
    graph_match: Option<Set<Seq<char>>>,
    cypher: Option<Set<Seq<char>>>,
) -> Option<Set<Seq<char>>> {
    match (graph_match, cypher) {
        (Some(g), Some(c)) => Some(g.intersect(c)),
        (Some(g), None) => Some(g),
        (None, c) => c,
    }
}

/// The ids that the graph and vector stores let through, if either narrows
/// the query: a semantic search narrows it only when it found something, and
/// the two sets join.
pub open spec fn candidates(
    graph_match: Option<Set<Seq<char>>>,
    cypher: Option<Set<Seq<char>>>,
    semantic: Option<Set<Seq<char>>>,
) -> Option<Set<Seq<char>>> {
    let s = match semantic {
        Some(x) => if x.is_empty() {
            None
        } else {
            Some(x)
        },
        None => None,
    };
    match (graph_candidates(graph_match, cypher), s) {
        (Some(g), Some(x)) => Some(g.union(x)),
        (Some(g), None) => Some(g),
        (None, x) => x,
    }
}

/// Every candidate id was found by the graph match, the Cypher query or the
/// semantic search.
pub proof fn lemma_candidates_were_found(
    graph_match: Option<Set<Seq<char>>>,
    cypher: Option<Set<Seq<char>>>,
    semantic: Option<Set<Seq<char>>>,
    id: Seq<char>,
)
    requires
        candidates(graph_match, cypher, semantic) matches Some(c) && c.contains(id),
    ensures
        (graph_match matches Some(g) && g.contains(id)) || (cypher matches Some(c) && c.contains(id))
            || (semantic matches Some(s) && s.contains(id)),
{
}

/// Whether `x` is among the ids of `v`.
pub fn has_id(v: &Vec<String>, x: &str) -> (r: bool)
    ensures
        r == id_set(v@).contains(x@),
{
    let mut i: usize = 0;
    while i < v.len()
        invariant
            i <= v.len(),
            forall|j: int| 0 <= j < i ==> (#[trigger] v@[j])@ != x@,
        decreases v.len() - i,
    {
        if text_eq(v[i].as_str(), x) {
            assert(v@[i as int]@ == x@);
            return true;
        }
        i = i + 1;
    }
    false
}

fn keep_shared(a: &Vec<String>, b: &Vec<String>) -> (r: Vec<String>)
    ensures
        id_set(r@) == id_set(a@).intersect(id_set(b@)),
{
    let mut out: Vec<String> = Vec::new();
    let mut i: usize = 0;
    while i < a.len()
        invariant
            i <= a.len(),
            forall|x: Seq<char>|
                id_set(out@).contains(x) <==> (id_set(a@.take(i as int)).contains(x) && id_set(
                    b@,
                ).contains(x)),
        decreases a.len() - i,
    {
        let ghost before = out@;
        let ghost t = a@.take(i as int);
        let ghost t1 = a@.take(i + 1);
        assert forall|x: Seq<char>| id_set(t1).contains(x) <==> (id_set(t).contains(x) || x
            == a@[i as int]@) by {
            if id_set(t1).contains(x) {
                let j = choose|j: int| 0 <= j < t1.len() && (#[trigger] t1[j])@ == x;
                if j < i {
                    assert(t[j] == t1[j]);
                }
            }
            if id_set(t).contains(x) {
                let j = choose|j: int| 0 <= j < t.len() && (#[trigger] t[j])@ == x;
                assert(t1[j] == t[j]);
            }
            if x == a@[i as int]@ {
                assert(t1[i as int] == a@[i as int]);
            }
        }
        let keep = has_id(b, a[i].as_str());
        assert(keep == id_set(b@).contains(a@[i as int]@));
        if keep {
            out.push(a[i].clone());
            assert forall|x: Seq<char>| id_set(out@).contains(x) <==> (id_set(before).contains(x)
                || x == a@[i as int]@) by {
                if id_set(out@).contains(x) {
                    let j = choose|j: int| 0 <= j < out@.len() && (#[trigger] out@[j])@ == x;
                    if j < before.len() {
                        assert(before[j] == out@[j]);
                    }
                }
                if id_set(before).contains(x) {
                    let j = choose|j: int| 0 <= j < before.len() && (#[trigger] before[j])@ == x;
                    assert(out@[j] == before[j]);
                }
                if x == a@[i as int]@ {
                    assert(out@[before.len() as int]@ == x);
                }
            }
        }
        assert forall|x: Seq<char>| id_set(out@).contains(x) <==> (id_set(t1).contains(x) && id_set(
            b@,
        ).contains(x)) by {
            assert(id_set(t1).contains(x) <==> (id_set(t).contains(x) || x == a@[i as int]@));
            assert(id_set(before).contains(x) <==> (id_set(t).contains(x) && id_set(b@).contains(
                x,
            )));
            if keep {
                assert(id_set(out@).contains(x) <==> (id_set(before).contains(x) || x
                    == a@[i as int]@));
            } else {
                assert(out@ == before);
            }
        }
        i = i + 1;
    }
    assert(a@.take(i as int) =~= a@);
    assert(id_set(out@) =~= id_set(a@).intersect(id_set(b@)));
    out
}

fn join_ids(a: &Vec<String>, b: &Vec<String>) -> (r: Vec<String>)
    ensures
        id_set(r@) == id_set(a@).union(id_set(b@)),
{
    let mut out: Vec<String> = Vec::new();
    let mut i: usize = 0;
    while i < a.len()
        invariant
            i <= a.len(),
            forall|j: int| 0 <= j < out@.len() ==> (#[trigger] out@[j])@ == a@[j]@,
            out@.len() == i,
        decreases a.len() - i,
    {
        out.push(a[i].clone());
        i = i + 1;
    }
    let mut k: usize = 0;
    while k < b.len()
        invariant
            k <= b.len(),
            out@.len() == a@.len() + k,
            forall|j: int| 0 <= j < a@.len() ==> (#[trigger] out@[j])@ == a@[j]@,
            forall|j: int| 0 <= j < k ==> (#[trigger] out@[a@.len() + j])@ == b@[j]@,
        decreases b.len() - k,
    {
        out.push(b[k].clone());
        assert(out@[a@.len() + k]@ == b@[k as int]@);
        k = k + 1;
    }
    assert forall|x: Seq<char>| id_set(out@).contains(x) <==> (id_set(a@).contains(x) || id_set(
        b@,
    ).contains(x)) by {
        if id_set(out@).contains(x) {
            let j = choose|j: int| 0 <= j < out@.len() && (#[trigger] out@[j])@ == x;
            if j >= a@.len() {
                assert(out@[a@.len() + (j - a@.len())] == out@[j]);
                assert(b@[j - a@.len()]@ == x);
            }
        }
        if id_set(a@).contains(x) {
            let j = choose|j: int| 0 <= j < a@.len() && (#[trigger] a@[j])@ == x;
            assert(out@[j]@ == x);
        }
        if id_set(b@).contains(x) {
            let j = choose|j: int| 0 <= j < b@.len() && (#[trigger] b@[j])@ == x;
            assert(out@[a@.len() + j]@ == x);
        }
    }
    assert(id_set(out@) =~= id_set(a@).union(id_set(b@)));
    out
}

/// The ids that the graph and vector stores let through (see [`candidates`]):
/// `graph_match` holds the ids of a graph match, `cypher` those of a Cypher
/// query and `semantic` those of a semantic search, each where one was made.
pub fn candidate_ids(
    graph_match: Option<Vec<String>>,
    cypher: Option<Vec<String>>,
    semantic: Option<Vec<String>>,
) -> (r: Option<Vec<String>>)
    ensures
        opt_ids(r) == candidates(opt_ids(graph_match), opt_ids(cypher), opt_ids(semantic)),
{
    let graph = match (graph_match, cypher) {
        (Some(g), Some(c)) => Some(keep_shared(&g, &c)),
        (Some(g), None) => Some(g),
        (None, c) => c,
    };
    let sem = match semantic {
        Some(x) => {
            if x.len() == 0 {
                assert(id_set(x@) =~= Set::<Seq<char>>::empty());
                None
            } else {
                assert(id_set(x@).contains(x@[0]@));
                Some(x)
            }
        },
        None => None,
    };
    match (graph, sem) {
        (Some(g), Some(x)) => Some(join_ids(&g, &x)),
        (Some(g), None) => Some(g),
        (None, x) => x,
    }
}

/// The positions, in order, of the ids of `ids` that `cands` holds.
pub open spec fn positions_within(ids: Seq<Seq<char>>, cands: Set<Seq<char>>) -> Seq<int>
    decreases ids.len(),
{
    if ids.len() == 0 {
        Seq::empty()
    } else {
        let r = positions_within(ids.drop_last(), cands);
        if cands.contains(ids.last()) {
            r.push(ids.len() - 1)
        } else {
            r
        }
    }
}

/// The records that stay when the relational store's answer is narrowed to
/// the candidate ids: by position in `record_ids` (the id of each record),
/// in order.
pub fn within_candidates(record_ids: &Vec<String>, candidates: &Vec<String>) -> (r: Vec<usize>)
    ensures
        r@.map_values(|p: usize| p as int) == positions_within(
            record_ids@.map_values(|x: String| x@),
            id_set(candidates@),
        ),
{
    let ghost ids = record_ids@.map_values(|x: String| x@);
    let ghost cs = id_set(candidates@);
    let mut out: Vec<usize> = Vec::new();
    let mut i: usize = 0;
    while i < record_ids.len()
        invariant
            i <= record_ids.len(),
            ids == record_ids@.map_values(|x: String| x@),
            cs == id_set(candidates@),
            out@.map_values(|p: usize| p as int) == positions_within(ids.take(i as int), cs),
        decreases record_ids.len() - i,
    {
        assert(ids.take(i + 1).drop_last() =~= ids.take(i as int));
        assert(ids.take(i + 1).last() == record_ids@[i as int]@);
        let ghost before = out@;
        if has_id(candidates, record_ids[i].as_str()) {
            out.push(i);
            assert(out@.map_values(|p: usize| p as int) =~= before.map_values(|p: usize| p as int).push(
                i as int,
            ));
        }
        i = i + 1;
    }
    assert(ids.take(i as int) =~= ids);
    out
}

/// Where the records of a query come from once the relational store has answered.
#[derive(Debug, Clone, Copy, PartialEq, Eq, Structural)]
pub enum ResultSource {
    /// The relational store's records, as they are.
    Relational,
    /// The relational store's records whose ids are among the candidates.
    RelationalCandidates,
    /// The records of the graph (else vector) stores whose id or name is a candidate.
    StoredCandidates,
    /// All records of the graph (else vector) stores, filtered and ordered here.
    AllStored,
}

/// Where the records come from: candidates narrow what the relational store
/// found, or are looked up in the other stores when it found nothing; without
/// candidates, an empty answer falls back on the other stores, if there are any.
pub fn result_source(has_candidates: bool, relational_empty: bool, has_other_stores: bool) -> (r:
    ResultSource)
    ensures
        r == if has_candidates {
            if relational_empty {
                ResultSource::StoredCandidates
            } else {
                ResultSource::RelationalCandidates
            }
        } else if relational_empty && has_other_stores {
            ResultSource::AllStored
        } else {
            ResultSource::Relational
        },
{
    if has_candidates {
        if relational_empty {
            ResultSource::StoredCandidates
        } else {
            ResultSource::RelationalCandidates
        }
    } else if relational_empty && has_other_stores {
        ResultSource::AllStored
    } else {
        ResultSource::Relational
    }
}

/// Which of the named backends a query uses: the one it names; without a
/// name, the one named `default`, or else some backend. `names` lists the
/// backends' names, each once; the result is an index into it.
pub fn chosen_backend(names: &Vec<String>, requested: Option<&str>) -> (r: Option<usize>)
    ensures
        r matches Some(i) ==> i < names@.len(),
        requested matches Some(n) ==> (r is Some <==> id_set(names@).contains(n@)) && (r matches Some(
            i,
        ) ==> names@[i as int]@ == n@),
        requested is None ==> (r is Some <==> names@.len() > 0) && (id_set(names@).contains(
            "default"@,
        ) ==> (r matches Some(i) && names@[i as int]@ == "default"@)),
{
    let wanted = match requested {
        Some(n) => n,
        None => "default",
    };
    let mut i: usize = 0;
    while i < names.len()
        invariant
            i <= names.len(),
            forall|j: int| 0 <= j < i ==> (#[trigger] names@[j])@ != wanted@,
            wanted@ == match requested {
                Some(n) => n@,
                None => "default"@,
            },
        decreases names.len() - i,
    {
        if text_eq(names[i].as_str(), wanted) {
            assert(id_set(names@).contains(names@[i as int]@));
            return Some(i);
        }
        i = i + 1;
    }
    assert(!id_set(names@).contains(wanted@)) by {
        if id_set(names@).contains(wanted@) {
            let j = choose|j: int| 0 <= j < names@.len() && (#[trigger] names@[j])@ == wanted@;
            assert(names@[j]@ != wanted@);
        }
    }
    match requested {
        Some(_) => None,
        None => if names.len() > 0 {
            Some(0)
        } else {
            None
        },
    }
}

} // verus!
