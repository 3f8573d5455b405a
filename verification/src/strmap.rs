//! Maps with text keys, held as lists of key/value pairs. The map of a list
//! takes, for each key, the value of the last pair with the key; the lists
//! that the library builds hold each key once.
use vstd::prelude::*;

verus! {

/// The map that key/value pairs describe when a later pair replaces an
/// earlier one with the same key.
pub open spec fn assoc<V>(l: Seq<(Seq<char>, V)>) -> Map<Seq<char>, V>
    decreases l.len(),
{
    if l.len() == 0 {
        Map::empty()
    } else {
        assoc(l.drop_last()).insert(l.last().0, l.last().1)
    }
}

pub proof fn lemma_assoc_push<V>(l: Seq<(Seq<char>, V)>, x: (Seq<char>, V))
    ensures
        assoc(l.push(x)) == assoc(l).insert(x.0, x.1),
{
    assert(l.push(x).drop_last() =~= l);
}

/// A key is in the map exactly when some pair has it.
pub proof fn lemma_assoc_dom<V>(l: Seq<(Seq<char>, V)>, k: Seq<char>)
    ensures
        assoc(l).contains_key(k) <==> exists|j: int| 0 <= j < l.len() && (#[trigger] l[j]).0 == k,
    decreases l.len(),
{
    if l.len() > 0 {
        lemma_assoc_dom(l.drop_last(), k);
        if assoc(l.drop_last()).contains_key(k) {
            let j = choose|j: int| 0 <= j < l.drop_last().len() && (#[trigger] l.drop_last()[j]).0 == k;
            assert(l[j] == l.drop_last()[j]);
        }
        if exists|j: int| 0 <= j < l.len() && (#[trigger] l[j]).0 == k {
            let j = choose|j: int| 0 <= j < l.len() && (#[trigger] l[j]).0 == k;
            if j < l.len() - 1 {
                assert(l.drop_last()[j] == l[j]);
            }
        }
    }
}

/// The value of a key is that of the last pair with the key.
pub proof fn lemma_assoc_last<V>(l: Seq<(Seq<char>, V)>, i: int, k: Seq<char>)
    requires
        0 <= i < l.len(),
        l[i].0 == k,
        forall|j: int| i < j < l.len() ==> (#[trigger] l[j]).0 != k,
    ensures
        assoc(l).contains_key(k),
        assoc(l)[k] == l[i].1,
    decreases l.len(),
{
    if i < l.len() - 1 {
        let d = l.drop_last();
        assert forall|j: int| i < j < d.len() implies (#[trigger] d[j]).0 != k by {
            assert(d[j] == l[j]);
        }
        assert(d[i] == l[i]);
        lemma_assoc_last(d, i, k);
    }
}


/// The pairs of a list, keys and values taken by their views.
pub open spec fn keyed<V: View>(l: Seq<(String, V)>) -> Seq<(Seq<char>, V::V)> {
    l.map_values(|e: (String, V)| (e.0@, e.1@))
}

/// The map that a list of pairs holds.
pub open spec fn map_of<V: View>(l: Seq<(String, V)>) -> Map<Seq<char>, V::V> {
    assoc(keyed(l))
}

/// Index of the pair that holds key `k`.
pub fn find_key<V: View>(l: &Vec<(String, V)>, k: &str) -> (r: Option<usize>)
    ensures
        r is Some <==> map_of(l@).contains_key(k@),
        r matches Some(i) ==> i < l@.len() && l@[i as int].0@ == k@ && map_of(l@)[k@]
            == l@[i as int].1@,
        r matches Some(i) ==> forall|j: int| i < j < l@.len() ==> (#[trigger] l@[j]).0@ != k@,
{
    let ghost kl = keyed(l@);
    let key = String::from_str(k);
    let mut j = l.len();
    while j > 0
        invariant
            j <= l.len(),
            kl == keyed(l@),
            key@ == k@,
            forall|m: int| j <= m < kl.len() ==> (#[trigger] kl[m]).0 != k@,
        decreases j,
    {
        j = j - 1;
        if l[j].0 == key {
            proof {
                lemma_assoc_last(kl, j as int, k@);
            }
            assert forall|m: int| j < m < l@.len() implies (#[trigger] l@[m]).0@ != k@ by {
                assert(kl[m].0 == l@[m].0@);
            }
            return Some(j);
        }
    }
    proof {
        lemma_assoc_dom(kl, k@);
    }
    None
}

/// No two pairs of the list have the same key.
pub open spec fn unique_keys<V>(l: Seq<(String, V)>) -> bool {
    forall|i: int, j: int| 0 <= i < j < l.len() ==> (#[trigger] l[i]).0@ != (#[trigger] l[j]).0@
}

/// Some pair of the list has key `k`.
pub open spec fn has_key<V>(l: Seq<(String, V)>, k: Seq<char>) -> bool {
    exists|i: int| 0 <= i < l.len() && (#[trigger] l[i]).0@ == k
}

/// Replacing the last pair with a key gives the map with that key set.
pub proof fn lemma_assoc_update_last<V>(l: Seq<(Seq<char>, V)>, i: int, x: (Seq<char>, V))
    requires
        0 <= i < l.len(),
        l[i].0 == x.0,
        forall|j: int| i < j < l.len() ==> (#[trigger] l[j]).0 != x.0,
    ensures
        assoc(l.update(i, x)) == assoc(l).insert(x.0, x.1),
    decreases l.len(),
{
    let d = l.drop_last();
    if i == l.len() - 1 {
        assert(l.update(i, x).drop_last() =~= d);
        assert(assoc(l.update(i, x)) =~= assoc(l).insert(x.0, x.1));
    } else {
        assert forall|j: int| i < j < d.len() implies (#[trigger] d[j]).0 != x.0 by {
            assert(d[j] == l[j]);
        }
        lemma_assoc_update_last(d, i, x);
        assert(l.update(i, x).drop_last() =~= d.update(i, x));
        assert(l.update(i, x).last() == l.last());
        assert(l.last().0 != x.0);
        assert(assoc(l.update(i, x)) =~= assoc(l).insert(x.0, x.1));
    }
}

/// A key is in the map of a list exactly when some pair has it.
pub proof fn lemma_has_key_map_of<V: View>(l: Seq<(String, V)>, k: Seq<char>)
    ensures
        has_key(l, k) <==> map_of(l).contains_key(k),
{
    let kl = keyed(l);
    lemma_assoc_dom(kl, k);
    if has_key(l, k) {
        let i = choose|i: int| 0 <= i < l.len() && (#[trigger] l[i]).0@ == k;
        assert(kl[i].0 == k);
    }
    if map_of(l).contains_key(k) {
        let j = choose|j: int| 0 <= j < kl.len() && (#[trigger] kl[j]).0 == k;
        assert(l[j].0@ == k);
    }
}

/// The index of the last pair of `l` with key `k`.
pub fn last_with_key<V>(l: &Vec<(String, V)>, k: &str) -> (r: Option<usize>)
    ensures
        r is None <==> !has_key(l@, k@),
        r matches Some(i) ==> i < l@.len() && l@[i as int].0@ == k@ && forall|j: int|
            i < j < l@.len() ==> (#[trigger] l@[j]).0@ != k@,
{
    let mut j = l.len();
    while j > 0
        invariant
            j <= l.len(),
            forall|m: int| j <= m < l@.len() ==> (#[trigger] l@[m]).0@ != k@,
        decreases j,
    {
        j = j - 1;
        if crate::text::text_eq(l[j].0.as_str(), k) {
            return Some(j);
        }
    }
    None
}

/// Puts pair `(k, v)` into `l`: in place of the last pair with key `k`
/// where there is one, else at the end.
pub fn put_pair<V>(l: &mut Vec<(String, V)>, k: String, v: V) -> (r: Option<usize>)
    ensures
        r is None <==> !has_key(old(l)@, k@),
        r is None ==> final(l)@ == old(l)@.push((k, v)),
        r matches Some(i) ==> {
            &&& i < old(l)@.len()
            &&& old(l)@[i as int].0@ == k@
            &&& forall|j: int| i < j < old(l)@.len() ==> (#[trigger] old(l)@[j]).0@ != k@
            &&& final(l)@ == old(l)@.update(i as int, (k, v))
        },
        unique_keys(old(l)@) ==> unique_keys(final(l)@),
{
    let ghost l0 = l@;
    match last_with_key(l, k.as_str()) {
        Some(i) => {
            l.set(i, (k, v));
            proof {
                if unique_keys(l0) {
                    assert forall|a: int, b: int| 0 <= a < b < l@.len() implies (#[trigger] l@[a]).0@
                        != (#[trigger] l@[b]).0@ by {
                        assert(l0[a].0@ != l0[b].0@);
                    }
                }
            }
            Some(i)
        },
        None => {
            l.push((k, v));
            proof {
                if unique_keys(l0) {
                    assert forall|a: int, b: int| 0 <= a < b < l@.len() implies (#[trigger] l@[a]).0@
                        != (#[trigger] l@[b]).0@ by {
                        if b == l0.len() {
                            assert(l@[a] == l0[a]);
                            assert(!has_key(l0, k@));
                            assert(l0[a].0@ != k@);
                        } else {
                            assert(l0[a].0@ != l0[b].0@);
                        }
                    }
                }
            }
            None
        },
    }
}

/// Sets the value of key `k`: a pair that has the key gets the new value in
/// its place, and where none has it the pair goes at the end.
pub fn set_key<V: View>(l: &mut Vec<(String, V)>, k: String, v: V)
    ensures
        map_of(final(l)@) == map_of(old(l)@).insert(k@, v@),
        !has_key(old(l)@, k@) ==> final(l)@ == old(l)@.push((k, v)),
        has_key(old(l)@, k@) ==> exists|i: int|
            0 <= i < old(l)@.len() && (#[trigger] old(l)@[i]).0@ == k@ && final(l)@ == old(
                l,
            )@.update(i, (k, v)),
        unique_keys(old(l)@) ==> unique_keys(final(l)@),
{
    let ghost kl = keyed(l@);
    let ghost x = (k@, v@);
    let ghost l0 = l@;
    match put_pair(l, k, v) {
        Some(i) => {
            proof {
                assert forall|j: int| i < j < kl.len() implies (#[trigger] kl[j]).0 != x.0 by {
                    assert(kl[j].0 == l0[j].0@);
                }
                lemma_assoc_update_last(kl, i as int, x);
                assert(keyed(l@) =~= kl.update(i as int, x));
            }
        },
        None => {
            proof {
                lemma_assoc_push(kl, x);
                assert(keyed(l@) =~= kl.push(x));
            }
        },
    }
}

/// What [`put_pair`] does to a list, seen through a view of its pairs that
/// keeps their keys: the map gets the new pair's key set.
pub proof fn lemma_put_mapped<V, W>(
    l0: Seq<(String, V)>,
    m0: Seq<(Seq<char>, W)>,
    m1: Seq<(Seq<char>, W)>,
    r: Option<usize>,
    xv: (Seq<char>, W),
)
    requires
        m0.len() == l0.len(),
        forall|j: int| 0 <= j < m0.len() ==> (#[trigger] m0[j]).0 == l0[j].0@,
        r is None ==> m1 == m0.push(xv),
        r matches Some(i) ==> {
            &&& i < l0.len()
            &&& l0[i as int].0@ == xv.0
            &&& forall|j: int| i < j < l0.len() ==> (#[trigger] l0[j]).0@ != xv.0
            &&& m1 == m0.update(i as int, xv)
        },
    ensures
        assoc(m1) == assoc(m0).insert(xv.0, xv.1),
{
    match r {
        Some(i) => {
            assert forall|j: int| i < j < m0.len() implies (#[trigger] m0[j]).0 != xv.0 by {
                assert(m0[j].0 == l0[j].0@);
            }
            assert(m0[i as int].0 == xv.0);
            lemma_assoc_update_last(m0, i as int, xv);
        },
        None => {
            lemma_assoc_push(m0, xv);
        },
    }
}

} // verus!
