//! Runtime values: what expressions evaluate to, records, truthiness, the
//! binary operators, indexing, grouping and the text of a value.
//!
//! A float is held as the decimal text of the `f64` it stands for. What can
//! be decided on that text exactly (zero or not, negation, a comparison that
//! needs no rounding) is decided here; arithmetic and comparisons that need
//! `f64` rounding are reported as [`BinopOutcome::NeedsFloat`].
use vstd::prelude::*;
use crate::ast::BinOp;
use crate::text::{int_text, i64_to_text, join, join_texts, text_eq, texts_view};

verus! {

/// A record: an instance of memory type `memory`, with its id and named fields.
#[derive(Debug)]
pub struct Record {
    pub memory: String,
    pub id: String,
    /// Field name/value pairs; the value of a name is that of its last pair.
    pub fields: Vec<(String, Value)>,
}

/// A runtime value.
#[derive(Debug)]
pub enum Value {
    Null,
    Bool(bool),
    Int(i64),
    /// The decimal text of an `f64` as Rust prints it.
    Float(String),
    Str(String),
    /// An instant as RFC 3339 text.
    Timestamp(String),
    Array(Vec<Value>),
    Record(Record),
}

pub struct RecordV {
    pub memory: Seq<char>,
    pub id: Seq<char>,
    pub fields: Seq<(Seq<char>, ValueV)>,
}

pub enum ValueV {
    Null,
    Bool(bool),
    Int(i64),
    Float(Seq<char>),
    Str(Seq<char>),
    Timestamp(Seq<char>),
    Array(Seq<ValueV>),
    Record(RecordV),
}

pub open spec fn value_view(v: Value) -> ValueV
    decreases v,
{
    match v {
        Value::Null => ValueV::Null,
        Value::Bool(b) => ValueV::Bool(b),
        Value::Int(n) => ValueV::Int(n),
        Value::Float(s) => ValueV::Float(s@),
        Value::Str(s) => ValueV::Str(s@),
        Value::Timestamp(s) => ValueV::Timestamp(s@),
        Value::Array(a) => ValueV::Array(values_view(a@)),
        Value::Record(r) => ValueV::Record(record_view(r)),
    }
}

pub open spec fn values_view(s: Seq<Value>) -> Seq<ValueV>
    decreases s,
{
    if s.len() == 0 {
        Seq::empty()
    } else {
        values_view(s.subrange(0, s.len() - 1)).push(value_view(s[s.len() - 1]))
    }
}

pub open spec fn record_view(r: Record) -> RecordV
    decreases r,
{
    RecordV { memory: r.memory@, id: r.id@, fields: fields_view(r.fields@) }
}

pub open spec fn field_view(p: (String, Value)) -> (Seq<char>, ValueV)
    decreases p,
{
    (p.0@, value_view(p.1))
}

pub open spec fn fields_view(s: Seq<(String, Value)>) -> Seq<(Seq<char>, ValueV)>
    decreases s,
{
    if s.len() == 0 {
        Seq::empty()
    } else {
        fields_view(s.subrange(0, s.len() - 1)).push(field_view(s[s.len() - 1]))
    }
}

impl View for Value {
    type V = ValueV;

    open spec fn view(&self) -> ValueV {
        value_view(*self)
    }
}

impl View for Record {
    type V = RecordV;

    open spec fn view(&self) -> RecordV {
        record_view(*self)
    }
}

pub proof fn lemma_values_view_index(s: Seq<Value>)
    ensures
        values_view(s).len() == s.len(),
        forall|i: int| 0 <= i < s.len() ==> values_view(s)[i] == value_view(#[trigger] s[i]),
    decreases s.len(),
{
    if s.len() > 0 {
        let d = s.subrange(0, s.len() - 1);
        lemma_values_view_index(d);
        assert forall|i: int| 0 <= i < s.len() implies values_view(s)[i] == value_view(
            #[trigger] s[i],
        ) by {
            if i < s.len() - 1 {
                assert(d[i] == s[i]);
            }
        }
    }
}

pub proof fn lemma_fields_view_index(s: Seq<(String, Value)>)
    ensures
        fields_view(s).len() == s.len(),
        forall|i: int| 0 <= i < s.len() ==> fields_view(s)[i] == field_view(#[trigger] s[i]),
    decreases s.len(),
{
    if s.len() > 0 {
        let d = s.subrange(0, s.len() - 1);
        lemma_fields_view_index(d);
        assert forall|i: int| 0 <= i < s.len() implies fields_view(s)[i] == field_view(
            #[trigger] s[i],
        ) by {
            if i < s.len() - 1 {
                assert(d[i] == s[i]);
            }
        }
    }
}

pub proof fn lemma_values_view_push(s: Seq<Value>, x: Value)
    ensures
        values_view(s.push(x)) == values_view(s).push(value_view(x)),
{
    assert(s.push(x).subrange(0, s.len() as int) =~= s);
}

pub proof fn lemma_fields_view_push(s: Seq<(String, Value)>, x: (String, Value))
    ensures
        fields_view(s.push(x)) == fields_view(s).push(field_view(x)),
{
    assert(s.push(x).subrange(0, s.len() as int) =~= s);
}

// ───────────────────────────── copies ─────────────────────────────

/// A copy of a value.
pub fn copy_value(v: &Value) -> (r: Value)
    ensures
        r@ == v@,
    decreases v,
{
    match v {
        Value::Null => Value::Null,
        Value::Bool(b) => Value::Bool(*b),
        Value::Int(n) => Value::Int(*n),
        Value::Float(s) => Value::Float(s.clone()),
        Value::Str(s) => Value::Str(s.clone()),
        Value::Timestamp(s) => Value::Timestamp(s.clone()),
        Value::Array(a) => Value::Array(copy_values(a)),
        Value::Record(r) => Value::Record(copy_record(r)),
    }
}

/// A copy of a list of values.
pub fn copy_values(a: &Vec<Value>) -> (r: Vec<Value>)
    ensures
        values_view(r@) == values_view(a@),
    decreases a,
{
    let mut r: Vec<Value> = Vec::new();
    let mut i: usize = 0;
    assert(values_view(a@.take(0)) =~= Seq::<ValueV>::empty());
    assert(values_view(r@) =~= Seq::<ValueV>::empty());
    while i < a.len()
        invariant
            i <= a.len(),
            values_view(r@) == values_view(a@.take(i as int)),
        decreases a.len() - i,
    {
        let x = copy_value(&a[i]);
        proof {
            lemma_values_view_push(r@, x);
            lemma_values_view_push(a@.take(i as int), a@[i as int]);
            assert(a@.take(i + 1) =~= a@.take(i as int).push(a@[i as int]));
        }
        r.push(x);
        i = i + 1;
    }
    assert(a@.take(i as int) =~= a@);
    r
}

/// A copy of a record.
pub fn copy_record(r: &Record) -> (c: Record)
    ensures
        c@ == r@,
    decreases r,
{
    let mut f: Vec<(String, Value)> = Vec::new();
    let mut i: usize = 0;
    assert(fields_view(r.fields@.take(0)) =~= Seq::<(Seq<char>, ValueV)>::empty());
    assert(fields_view(f@) =~= Seq::<(Seq<char>, ValueV)>::empty());
    while i < r.fields.len()
        invariant
            i <= r.fields.len(),
            fields_view(f@) == fields_view(r.fields@.take(i as int)),
        decreases r.fields.len() - i,
    {
        let x = (r.fields[i].0.clone(), copy_value(&r.fields[i].1));
        proof {
            lemma_fields_view_push(f@, x);
            lemma_fields_view_push(r.fields@.take(i as int), r.fields@[i as int]);
            assert(r.fields@.take(i + 1) =~= r.fields@.take(i as int).push(r.fields@[i as int]));
        }
        f.push(x);
        i = i + 1;
    }
    assert(r.fields@.take(i as int) =~= r.fields@);
    Record { memory: r.memory.clone(), id: r.id.clone(), fields: f }
}

// ───────────────────────────── fields ─────────────────────────────

/// The value of field `k`: that of its last pair.
pub open spec fn field_get(fields: Seq<(Seq<char>, ValueV)>, k: Seq<char>) -> Option<ValueV>
    decreases fields.len(),
{
    if fields.len() == 0 {
        None
    } else if fields.last().0 == k {
        Some(fields.last().1)
    } else {
        field_get(fields.drop_last(), k)
    }
}

/// The index of the last pair of `fields` with name `k`.
pub fn field_index(fields: &Vec<(String, Value)>, k: &str) -> (r: Option<usize>)
    ensures
        match r {
            Some(i) => i < fields.len() && fields@[i as int].0@ == k@ && field_get(
                fields_view(fields@),
                k@,
            ) == Some(value_view(fields@[i as int].1)) && forall|j: int|
                i < j < fields@.len() ==> (#[trigger] fields@[j]).0@ != k@,
            None => field_get(fields_view(fields@), k@) is None,
        },
{
    let ghost fv = fields_view(fields@);
    proof {
        lemma_fields_view_index(fields@);
    }
    let mut j = fields.len();
    assert(fv.take(j as int) =~= fv);
    while j > 0
        invariant
            j <= fields.len(),
            fv == fields_view(fields@),
            fv.len() == fields@.len(),
            forall|m: int| 0 <= m < fields@.len() ==> fv[m] == field_view(#[trigger] fields@[m]),
            field_get(fv, k@) == field_get(fv.take(j as int), k@),
            forall|m: int| j <= m < fields@.len() ==> (#[trigger] fields@[m]).0@ != k@,
        decreases j,
    {
        let ghost t = fv.take(j as int);
        assert(t.drop_last() =~= fv.take(j - 1));
        assert(t.last() == fv[j - 1]);
        j = j - 1;
        if text_eq(fields[j].0.as_str(), k) {
            return Some(j);
        }
    }
    assert(fv.take(0) =~= Seq::<(Seq<char>, ValueV)>::empty());
    None
}

/// Pairs with `n` set to `v`: in place of the last pair for `n`, or at the
/// end.
pub open spec fn put(s: Seq<(Seq<char>, ValueV)>, n: Seq<char>, v: ValueV) -> Seq<(Seq<char>, ValueV)> {
    if exists|i: int| 0 <= i < s.len() && (#[trigger] s[i]).0 == n && forall|j: int|
        i < j < s.len() ==> (#[trigger] s[j]).0 != n {
        let i = choose|i: int| 0 <= i < s.len() && (#[trigger] s[i]).0 == n && forall|j: int|
            i < j < s.len() ==> (#[trigger] s[j]).0 != n;
        s.update(i, (n, v))
    } else {
        s.push((n, v))
    }
}

/// Sets field `k` of a record: in place of its last pair, or at the end.
pub fn set_field(r: &mut Record, k: &str, v: Value)
    ensures
        final(r).memory@ == old(r).memory@,
        final(r).id@ == old(r).id@,
        fields_view(final(r).fields@) == put(fields_view(old(r).fields@), k@, v@),
        field_get(fields_view(final(r).fields@), k@) == Some(v@),
        forall|n: Seq<char>| n != k@ ==> field_get(fields_view(final(r).fields@), n) == field_get(
            fields_view(old(r).fields@),
            n,
        ),
{
    let ghost v0 = v@;
    match field_index(&r.fields, k) {
        Some(i) => {
            let ghost old_fields = r.fields@;
            let ghost x = (k@, v0);
            let pair = (String::from_str(k), v);
            let ghost gp = pair;
            assert(field_view(gp) == x);
            r.fields.set(i, pair);
            assert(r.fields@ == old_fields.update(i as int, gp));
            proof {
                lemma_fields_view_index(old_fields);
                lemma_fields_view_index(r.fields@);
                let fv = fields_view(old_fields);
                assert forall|j: int| i < j < fv.len() implies (#[trigger] fv[j]).0 != x.0 by {
                    assert(fv[j] == field_view(old_fields[j]));
                }
                lemma_field_get_update(fv, i as int, x);
                assert forall|j: int| 0 <= j < fv.len() implies fields_view(r.fields@)[j] == fv.update(
                    i as int,
                    x,
                )[j] by {
                    if j != i {
                        assert(r.fields@[j] == old_fields[j]);
                    } else {
                        assert(r.fields@[j] == gp);
                        assert(fields_view(r.fields@)[j] == field_view(gp));
                    }
                }
                assert(fields_view(r.fields@) =~= fv.update(i as int, x));
                let c = choose|c: int| 0 <= c < fv.len() && (#[trigger] fv[c]).0 == k@ && forall|j: int|
                    c < j < fv.len() ==> (#[trigger] fv[j]).0 != k@;
                assert(fv[i as int].0 == k@);
                if c != i {
                    if c < i {
                        assert(fv[i as int].0 != k@);
                    } else {
                        assert(fv[c].0 != k@);
                    }
                }
            }
        },
        None => {
            let ghost old_fields = r.fields@;
            r.fields.push((String::from_str(k), v));
            proof {
                lemma_fields_view_push(old_fields, r.fields@.last());
                assert(r.fields@ =~= old_fields.push(r.fields@.last()));
                let fv = fields_view(r.fields@);
                assert(fv.drop_last() =~= fields_view(old_fields));
                let ov = fields_view(old_fields);
                lemma_fields_view_index(old_fields);
                if exists|i: int| 0 <= i < ov.len() && (#[trigger] ov[i]).0 == k@ {
                    let i = choose|i: int| 0 <= i < ov.len() && (#[trigger] ov[i]).0 == k@;
                    assert(ov[i] == field_view(old_fields[i]));
                    lemma_field_get_some(ov, k@);
                }
                assert(fv =~= ov.push((k@, v0)));
            }
        },
    }
}

/// Replacing the last pair with a name sets that name and keeps the others.
pub proof fn lemma_field_get_update(fv: Seq<(Seq<char>, ValueV)>, i: int, x: (Seq<char>, ValueV))
    requires
        0 <= i < fv.len(),
        fv[i].0 == x.0,
        forall|j: int| i < j < fv.len() ==> (#[trigger] fv[j]).0 != x.0,
    ensures
        forall|n: Seq<char>|
            #[trigger] field_get(fv.update(i, x), n) == if n == x.0 {
                Some(x.1)
            } else {
                field_get(fv, n)
            },
    decreases fv.len(),
{
    let u = fv.update(i, x);
    if i == fv.len() - 1 {
        assert(u.drop_last() =~= fv.drop_last());
        assert(u.last() == x);
        assert forall|n: Seq<char>|
            #[trigger] field_get(u, n) == if n == x.0 {
                Some(x.1)
            } else {
                field_get(fv, n)
            } by {}
    } else {
        let d = fv.drop_last();
        assert forall|j: int| i < j < d.len() implies (#[trigger] d[j]).0 != x.0 by {
            assert(d[j] == fv[j]);
        }
        lemma_field_get_update(d, i, x);
        assert(u.drop_last() =~= d.update(i, x));
        assert(u.last() == fv.last());
        assert(fv.last().0 != x.0);
        assert forall|n: Seq<char>|
            #[trigger] field_get(u, n) == if n == x.0 {
                Some(x.1)
            } else {
                field_get(fv, n)
            } by {
            assert(field_get(d.update(i, x), n) == if n == x.0 {
                Some(x.1)
            } else {
                field_get(d, n)
            });
        }
    }
}

// ───────────────────────────── truthiness ─────────────────────────────

/// The decimal text of a zero: digits that are all `0`, with at most a sign
/// and a point besides (`NaN` and the infinities are no zero).
pub open spec fn zero_text(s: Seq<char>) -> bool {
    &&& exists|i: int| 0 <= i < s.len() && s[i] == '0'
    &&& forall|i: int| 0 <= i < s.len() ==> (#[trigger] s[i] == '0' || s[i] == '.' || s[i] == '-')
}

pub fn is_zero_text(s: &str) -> (r: bool)
    ensures
        r == zero_text(s@),
{
    let n = s.unicode_len();
    let mut i: usize = 0;
    let mut seen = false;
    while i < n
        invariant
            i <= n,
            n == s@.len(),
            seen <==> exists|j: int| 0 <= j < i && s@[j] == '0',
            forall|j: int| 0 <= j < i ==> (#[trigger] s@[j] == '0' || s@[j] == '.' || s@[j] == '-'),
        decreases n - i,
    {
        let c = s.get_char(i);
        if c == '0' {
            seen = true;
        } else if c != '.' && c != '-' {
            return false;
        }
        i = i + 1;
    }
    seen
}

/// Whether a value counts as true: `null` and `false` do not, nor zero, an
/// empty text or an empty list; anything else does.
pub open spec fn truthy(v: ValueV) -> bool {
    match v {
        ValueV::Null => false,
        ValueV::Bool(b) => b,
        ValueV::Int(n) => n != 0,
        ValueV::Float(s) => !zero_text(s),
        ValueV::Str(s) => s.len() > 0,
        ValueV::Array(a) => a.len() > 0,
        _ => true,
    }
}

pub fn is_truthy(v: &Value) -> (r: bool)
    ensures
        r == truthy(v@),
{
    match v {
        Value::Null => false,
        Value::Bool(b) => *b,
        Value::Int(n) => *n != 0,
        Value::Float(s) => !is_zero_text(s.as_str()),
        Value::Str(s) => s.unicode_len() > 0,
        Value::Array(a) => {
            proof {
                lemma_values_view_index(a@);
            }
            a.len() > 0
        },
        _ => true,
    }
}


// ───────────────────────────── equality ─────────────────────────────

/// Whether a float occurs in `v`, at any depth.
pub open spec fn has_float(v: ValueV) -> bool
    decreases v, 0int,
{
    match v {
        ValueV::Float(_) => true,
        ValueV::Array(a) => list_has_float(a, 0),
        ValueV::Record(r) => fields_have_float(r.fields, 0),
        _ => false,
    }
}

pub open spec fn list_has_float(s: Seq<ValueV>, i: int) -> bool
    decreases s, s.len() - i,
{
    if 0 <= i < s.len() {
        has_float(s[i]) || list_has_float(s, i + 1)
    } else {
        false
    }
}

pub open spec fn fields_have_float(s: Seq<(Seq<char>, ValueV)>, i: int) -> bool
    decreases s, s.len() - i,
{
    if 0 <= i < s.len() {
        has_float(s[i].1) || fields_have_float(s, i + 1)
    } else {
        false
    }
}

/// Pair `i` is the last pair with its name.
pub open spec fn last_of_name(s: Seq<(Seq<char>, ValueV)>, i: int) -> bool {
    forall|j: int| i < j < s.len() ==> (#[trigger] s[j]).0 != s[i].0
}

/// Every name of `b` is a name of `a`.
pub open spec fn names_within(b: Seq<(Seq<char>, ValueV)>, a: Seq<(Seq<char>, ValueV)>) -> bool {
    forall|i: int| 0 <= i < b.len() ==> exists|j: int| 0 <= j < a.len() && (#[trigger] a[j]).0 == (
    #[trigger] b[i]).0
}

/// Equality of values without floats: lists element by element, records by
/// type, id and fields taken as maps (the order of fields does not count).
pub open spec fn value_eq(a: ValueV, b: ValueV) -> bool
    decreases a, 0int,
{
    match (a, b) {
        (ValueV::Null, ValueV::Null) => true,
        (ValueV::Bool(x), ValueV::Bool(y)) => x == y,
        (ValueV::Int(x), ValueV::Int(y)) => x == y,
        (ValueV::Float(x), ValueV::Float(y)) => x == y,
        (ValueV::Str(x), ValueV::Str(y)) => x == y,
        (ValueV::Timestamp(x), ValueV::Timestamp(y)) => x == y,
        (ValueV::Array(x), ValueV::Array(y)) => x.len() == y.len() && list_eq(x, y, 0),
        (ValueV::Record(x), ValueV::Record(y)) => x.memory == y.memory && x.id == y.id
            && names_within(y.fields, x.fields) && fields_eq(x.fields, y.fields, 0),
        _ => false,
    }
}

pub open spec fn list_eq(x: Seq<ValueV>, y: Seq<ValueV>, i: int) -> bool
    decreases x, x.len() - i,
{
    if 0 <= i < x.len() {
        value_eq(x[i], y[i]) && list_eq(x, y, i + 1)
    } else {
        true
    }
}

/// From pair `i` on, the value of each name of `x` (its last pair) equals
/// the value of the name in `y`.
pub open spec fn fields_eq(x: Seq<(Seq<char>, ValueV)>, y: Seq<(Seq<char>, ValueV)>, i: int) -> bool
    decreases x, x.len() - i,
{
    if 0 <= i < x.len() {
        (!last_of_name(x, i) || match field_get(y, x[i].0) {
            Some(w) => value_eq(x[i].1, w),
            None => false,
        }) && fields_eq(x, y, i + 1)
    } else {
        true
    }
}

pub fn value_has_float(v: &Value) -> (r: bool)
    ensures
        r == has_float(v@),
    decreases v, 0int,
{
    match v {
        Value::Float(_) => true,
        Value::Array(a) => {
            proof {
                lemma_values_view_index(a@);
            }
            values_have_float(a, 0)
        },
        Value::Record(rec) => {
            proof {
                lemma_fields_view_index(rec.fields@);
            }
            record_fields_have_float(&rec.fields, 0)
        },
        _ => false,
    }
}

fn values_have_float(s: &Vec<Value>, i: usize) -> (r: bool)
    requires
        i <= s.len(),
    ensures
        r == list_has_float(values_view(s@), i as int),
    decreases s, s@.len() - i,
{
    proof {
        lemma_values_view_index(s@);
    }
    if i < s.len() {
        value_has_float(&s[i]) || values_have_float(s, i + 1)
    } else {
        false
    }
}

fn record_fields_have_float(s: &Vec<(String, Value)>, i: usize) -> (r: bool)
    requires
        i <= s.len(),
    ensures
        r == fields_have_float(fields_view(s@), i as int),
    decreases s, s@.len() - i,
{
    proof {
        lemma_fields_view_index(s@);
    }
    if i < s.len() {
        value_has_float(&s[i].1) || record_fields_have_float(s, i + 1)
    } else {
        false
    }
}

fn is_last_of_name(s: &Vec<(String, Value)>, i: usize) -> (r: bool)
    requires
        i < s.len(),
    ensures
        r == last_of_name(fields_view(s@), i as int),
{
    proof {
        lemma_fields_view_index(s@);
    }
    let mut j = i + 1;
    while j < s.len()
        invariant
            i < j <= s.len(),
            fields_view(s@).len() == s@.len(),
            forall|m: int| 0 <= m < s@.len() ==> fields_view(s@)[m] == field_view(#[trigger] s@[m]),
            forall|m: int| i < m < j ==> (#[trigger] fields_view(s@)[m]).0 != fields_view(s@)[i as int].0,
        decreases s.len() - j,
    {
        if text_eq(s[j].0.as_str(), s[i].0.as_str()) {
            assert(fields_view(s@)[j as int].0 == fields_view(s@)[i as int].0);
            return false;
        }
        j = j + 1;
    }
    true
}

fn all_names_within(b: &Vec<(String, Value)>, a: &Vec<(String, Value)>) -> (r: bool)
    ensures
        r == names_within(fields_view(b@), fields_view(a@)),
{
    proof {
        lemma_fields_view_index(a@);
        lemma_fields_view_index(b@);
    }
    let ghost av = fields_view(a@);
    let ghost bv = fields_view(b@);
    let mut i: usize = 0;
    while i < b.len()
        invariant
            i <= b.len(),
            av == fields_view(a@),
            bv == fields_view(b@),
            av.len() == a@.len(),
            bv.len() == b@.len(),
            forall|m: int| 0 <= m < a@.len() ==> av[m] == field_view(#[trigger] a@[m]),
            forall|m: int| 0 <= m < b@.len() ==> bv[m] == field_view(#[trigger] b@[m]),
            forall|m: int|
                0 <= m < i ==> exists|j: int| 0 <= j < av.len() && (#[trigger] av[j]).0 == (
                #[trigger] bv[m]).0,
        decreases b.len() - i,
    {
        match field_index(a, b[i].0.as_str()) {
            Some(j) => {
                assert(av[j as int].0 == bv[i as int].0);
            },
            None => {
                proof {
                    lemma_field_get_some(av, bv[i as int].0);
                }
                return false;
            },
        }
        i = i + 1;
    }
    true
}

/// A name some pair has has a value.
pub proof fn lemma_field_get_some(s: Seq<(Seq<char>, ValueV)>, k: Seq<char>)
    ensures
        (exists|j: int| 0 <= j < s.len() && (#[trigger] s[j]).0 == k) ==> field_get(s, k) is Some,
    decreases s.len(),
{
    if s.len() > 0 {
        lemma_field_get_some(s.drop_last(), k);
        if exists|j: int| 0 <= j < s.len() && (#[trigger] s[j]).0 == k {
            let j = choose|j: int| 0 <= j < s.len() && (#[trigger] s[j]).0 == k;
            if j < s.len() - 1 {
                assert(s.drop_last()[j] == s[j]);
            }
        }
    }
}

/// Whether two values without floats are equal (see [`value_eq`]).
pub fn values_equal(a: &Value, b: &Value) -> (r: bool)
    ensures
        r == value_eq(a@, b@),
    decreases a, 0int,
{
    match (a, b) {
        (Value::Null, Value::Null) => true,
        (Value::Bool(x), Value::Bool(y)) => *x == *y,
        (Value::Int(x), Value::Int(y)) => *x == *y,
        (Value::Float(x), Value::Float(y)) => text_eq(x.as_str(), y.as_str()),
        (Value::Str(x), Value::Str(y)) => text_eq(x.as_str(), y.as_str()),
        (Value::Timestamp(x), Value::Timestamp(y)) => text_eq(x.as_str(), y.as_str()),
        (Value::Array(x), Value::Array(y)) => {
            proof {
                lemma_values_view_index(x@);
                lemma_values_view_index(y@);
            }
            x.len() == y.len() && lists_equal(x, y, 0)
        },
        (Value::Record(x), Value::Record(y)) => {
            text_eq(x.memory.as_str(), y.memory.as_str()) && text_eq(x.id.as_str(), y.id.as_str())
                && all_names_within(&y.fields, &x.fields) && record_fields_equal(
                &x.fields,
                &y.fields,
                0,
            )
        },
        _ => false,
    }
}

fn lists_equal(x: &Vec<Value>, y: &Vec<Value>, i: usize) -> (r: bool)
    requires
        i <= x.len(),
        x.len() == y.len(),
    ensures
        r == list_eq(values_view(x@), values_view(y@), i as int),
    decreases x, x@.len() - i,
{
    proof {
        lemma_values_view_index(x@);
        lemma_values_view_index(y@);
    }
    if i < x.len() {
        values_equal(&x[i], &y[i]) && lists_equal(x, y, i + 1)
    } else {
        true
    }
}

fn record_fields_equal(x: &Vec<(String, Value)>, y: &Vec<(String, Value)>, i: usize) -> (r: bool)
    requires
        i <= x.len(),
    ensures
        r == fields_eq(fields_view(x@), fields_view(y@), i as int),
    decreases x, x@.len() - i,
{
    proof {
        lemma_fields_view_index(x@);
        lemma_fields_view_index(y@);
    }
    if i < x.len() {
        let here = if is_last_of_name(x, i) {
            match field_index(y, x[i].0.as_str()) {
                Some(j) => values_equal(&x[i].1, &y[j].1),
                None => false,
            }
        } else {
            true
        };
        here && record_fields_equal(x, y, i + 1)
    } else {
        true
    }
}


// ───────────────────────────── binary operators ─────────────────────────────

/// What a binary operator gives: a value, or the word that it needs `f64`
/// arithmetic or rounding (done outside), or that integer arithmetic
/// overflowed.
#[derive(Debug)]
pub enum BinopOutcome {
    Value(Value),
    NeedsFloat,
    Overflow,
}

pub enum BinopOutcomeV {
    Value(ValueV),
    NeedsFloat,
    Overflow,
}

impl View for BinopOutcome {
    type V = BinopOutcomeV;

    open spec fn view(&self) -> BinopOutcomeV {
        match self {
            BinopOutcome::Value(v) => BinopOutcomeV::Value(v@),
            BinopOutcome::NeedsFloat => BinopOutcomeV::NeedsFloat,
            BinopOutcome::Overflow => BinopOutcomeV::Overflow,
        }
    }
}

pub open spec fn is_number(v: ValueV) -> bool {
    v is Int || v is Float
}

/// Both are numbers and one is a float.
pub open spec fn float_pair(a: ValueV, b: ValueV) -> bool {
    is_number(a) && is_number(b) && (a is Float || b is Float)
}

/// A number that is zero.
pub open spec fn zero_number(v: ValueV) -> bool {
    match v {
        ValueV::Int(n) => n == 0,
        ValueV::Float(s) => zero_text(s),
        _ => false,
    }
}

/// The largest integer that `f64` holds exactly, and every one below it.
pub open spec fn exact_in_f64(n: i64) -> bool {
    -0x20_0000_0000_0000 <= n && n <= 0x20_0000_0000_0000
}

/// `a` comes before `b` in the order of code points (the order of `str`).
pub open spec fn text_less(a: Seq<char>, b: Seq<char>) -> bool
    decreases a.len(),
{
    if b.len() == 0 {
        false
    } else if a.len() == 0 {
        true
    } else if a[0] != b[0] {
        (a[0] as u32) < (b[0] as u32)
    } else {
        text_less(a.drop_first(), b.drop_first())
    }
}

pub open spec fn arith(op: BinOp, a: i64, b: i64) -> Option<i64> {
    match op {
        BinOp::Add => a.checked_add(b),
        BinOp::Sub => a.checked_sub(b),
        BinOp::Mul => a.checked_mul(b),
        BinOp::Div => a.checked_div(b),
        _ => a.checked_rem(b),
    }
}

/// What `l op r` gives.
///
/// - `+ - * / %` on integers compute exactly (division and remainder by zero
///   give `null`; a result out of range is an overflow); `+` joins texts;
///   `+ - * /` with a float need `f64` (a float division by zero gives
///   `null`); any other operands give `null`.
/// - `==` and `!=` compare values without floats (see [`value_eq`]); with a
///   float anywhere they need `f64`.
/// - `< <= > >=` compare integers that `f64` holds exactly; texts compare by
///   code points, and then `<=` holds only of a smaller text and `>=` only of
///   a greater one; numbers with a float or larger integers need `f64`;
///   anything else gives `false`.
/// - `and` and `or` combine truthiness.
pub open spec fn binop_spec(l: ValueV, op: BinOp, r: ValueV) -> BinopOutcomeV {
    match op {
        BinOp::Add | BinOp::Sub | BinOp::Mul | BinOp::Div | BinOp::Mod => {
            if l is Int && r is Int {
                let a = l->Int_0;
                let b = r->Int_0;
                if (op == BinOp::Div || op == BinOp::Mod) && b == 0 {
                    BinopOutcomeV::Value(ValueV::Null)
                } else {
                    match arith(op, a, b) {
                        Some(n) => BinopOutcomeV::Value(ValueV::Int(n)),
                        None => BinopOutcomeV::Overflow,
                    }
                }
            } else if op == BinOp::Add && l is Str && r is Str {
                BinopOutcomeV::Value(ValueV::Str(l->Str_0 + r->Str_0))
            } else if op != BinOp::Mod && float_pair(l, r) {
                if op == BinOp::Div && zero_number(r) {
                    BinopOutcomeV::Value(ValueV::Null)
                } else {
                    BinopOutcomeV::NeedsFloat
                }
            } else {
                BinopOutcomeV::Value(ValueV::Null)
            }
        },
        BinOp::Eq | BinOp::Ne => {
            if has_float(l) || has_float(r) {
                BinopOutcomeV::NeedsFloat
            } else {
                BinopOutcomeV::Value(ValueV::Bool(value_eq(l, r) == (op == BinOp::Eq)))
            }
        },
        BinOp::Lt | BinOp::Le | BinOp::Gt | BinOp::Ge => {
            if l is Int && r is Int && exact_in_f64(l->Int_0) && exact_in_f64(r->Int_0) {
                let a = l->Int_0;
                let b = r->Int_0;
                BinopOutcomeV::Value(
                    ValueV::Bool(
                        match op {
                            BinOp::Lt => a < b,
                            BinOp::Le => a <= b,
                            BinOp::Gt => a > b,
                            _ => a >= b,
                        },
                    ),
                )
            } else if is_number(l) && is_number(r) {
                BinopOutcomeV::NeedsFloat
            } else if l is Str && r is Str {
                BinopOutcomeV::Value(
                    ValueV::Bool(
                        if op == BinOp::Lt || op == BinOp::Le {
                            text_less(l->Str_0, r->Str_0)
                        } else {
                            text_less(r->Str_0, l->Str_0)
                        },
                    ),
                )
            } else {
                BinopOutcomeV::Value(ValueV::Bool(false))
            }
        },
        BinOp::And => BinopOutcomeV::Value(ValueV::Bool(truthy(l) && truthy(r))),
        BinOp::Or => BinopOutcomeV::Value(ValueV::Bool(truthy(l) || truthy(r))),
    }
}

fn texts_less(a: &str, b: &str) -> (r: bool)
    ensures
        r == text_less(a@, b@),
{
    let n = a.unicode_len();
    let m = b.unicode_len();
    let mut i: usize = 0;
    assert(a@.skip(0) =~= a@);
    assert(b@.skip(0) =~= b@);
    while i < n && i < m && a.get_char(i) == b.get_char(i)
        invariant
            i <= n,
            i <= m,
            n == a@.len(),
            m == b@.len(),
            text_less(a@, b@) == text_less(a@.skip(i as int), b@.skip(i as int)),
        decreases n - i,
    {
        assert(a@.skip(i as int).drop_first() =~= a@.skip(i + 1));
        assert(b@.skip(i as int).drop_first() =~= b@.skip(i + 1));
        i = i + 1;
    }
    if i == m {
        assert(b@.skip(i as int).len() == 0);
        false
    } else if i == n {
        assert(a@.skip(i as int).len() == 0);
        true
    } else {
        assert(a@.skip(i as int)[0] == a@[i as int]);
        assert(b@.skip(i as int)[0] == b@[i as int]);
        let x = a.get_char(i);
        let y = b.get_char(i);
        (x as u32) < (y as u32)
    }
}

fn int_arith(op: BinOp, a: i64, b: i64) -> (r: Option<i64>)
    ensures
        r == arith(op, a, b),
{
    match op {
        BinOp::Add => a.checked_add(b),
        BinOp::Sub => a.checked_sub(b),
        BinOp::Mul => a.checked_mul(b),
        BinOp::Div => a.checked_div(b),
        _ => a.checked_rem(b),
    }
}

fn is_zero_number(v: &Value) -> (r: bool)
    ensures
        r == zero_number(v@),
{
    match v {
        Value::Int(n) => *n == 0,
        Value::Float(s) => is_zero_text(s.as_str()),
        _ => false,
    }
}

/// Applies a binary operator to two values (see [`binop_spec`]).
pub fn binop(l: &Value, op: BinOp, r: &Value) -> (o: BinopOutcome)
    ensures
        o@ == binop_spec(l@, op, r@),
{
    let l_num = matches!(l, Value::Int(_)) || matches!(l, Value::Float(_));
    let r_num = matches!(r, Value::Int(_)) || matches!(r, Value::Float(_));
    match op {
        BinOp::Add | BinOp::Sub | BinOp::Mul | BinOp::Div | BinOp::Mod => {
            match (l, r) {
                (Value::Int(a), Value::Int(b)) => {
                    if (op == BinOp::Div || op == BinOp::Mod) && *b == 0 {
                        BinopOutcome::Value(Value::Null)
                    } else {
                        match int_arith(op, *a, *b) {
                            Some(n) => BinopOutcome::Value(Value::Int(n)),
                            None => BinopOutcome::Overflow,
                        }
                    }
                },
                (Value::Str(a), Value::Str(b)) => {
                    if op == BinOp::Add {
                        let mut t = a.clone();
                        t.append(b.as_str());
                        BinopOutcome::Value(Value::Str(t))
                    } else {
                        BinopOutcome::Value(Value::Null)
                    }
                },
                _ => {
                    let fl = matches!(l, Value::Float(_)) || matches!(r, Value::Float(_));
                    if op != BinOp::Mod && l_num && r_num && fl {
                        if op == BinOp::Div && is_zero_number(r) {
                            BinopOutcome::Value(Value::Null)
                        } else {
                            BinopOutcome::NeedsFloat
                        }
                    } else {
                        BinopOutcome::Value(Value::Null)
                    }
                },
            }
        },
        BinOp::Eq | BinOp::Ne => {
            if value_has_float(l) || value_has_float(r) {
                BinopOutcome::NeedsFloat
            } else {
                BinopOutcome::Value(Value::Bool(values_equal(l, r) == (op == BinOp::Eq)))
            }
        },
        BinOp::Lt | BinOp::Le | BinOp::Gt | BinOp::Ge => {
            match (l, r) {
                (Value::Int(a), Value::Int(b)) => {
                    let lim: i64 = 0x20_0000_0000_0000;
                    if -lim <= *a && *a <= lim && -lim <= *b && *b <= lim {
                        BinopOutcome::Value(
                            Value::Bool(
                                match op {
                                    BinOp::Lt => *a < *b,
                                    BinOp::Le => *a <= *b,
                                    BinOp::Gt => *a > *b,
                                    _ => *a >= *b,
                                },
                            ),
                        )
                    } else {
                        BinopOutcome::NeedsFloat
                    }
                },
                (Value::Str(a), Value::Str(b)) => {
                    if op == BinOp::Lt || op == BinOp::Le {
                        BinopOutcome::Value(Value::Bool(texts_less(a.as_str(), b.as_str())))
                    } else {
                        BinopOutcome::Value(Value::Bool(texts_less(b.as_str(), a.as_str())))
                    }
                },
                _ => {
                    if l_num && r_num {
                        BinopOutcome::NeedsFloat
                    } else {
                        BinopOutcome::Value(Value::Bool(false))
                    }
                },
            }
        },
        BinOp::And => BinopOutcome::Value(Value::Bool(is_truthy(l) && is_truthy(r))),
        BinOp::Or => BinopOutcome::Value(Value::Bool(is_truthy(l) || is_truthy(r))),
    }
}


// ───────────────────────────── indexing and grouping ─────────────────────────────

/// `obj[idx]`: the element of a list at a whole-number index within it,
/// else `null`.
pub open spec fn index_spec(obj: ValueV, idx: ValueV) -> ValueV {
    match (obj, idx) {
        (ValueV::Array(a), ValueV::Int(i)) => if 0 <= i < a.len() {
            a[i as int]
        } else {
            ValueV::Null
        },
        _ => ValueV::Null,
    }
}

pub fn index_value(obj: &Value, idx: &Value) -> (r: Value)
    ensures
        r@ == index_spec(obj@, idx@),
{
    match (obj, idx) {
        (Value::Array(a), Value::Int(i)) => {
            proof {
                lemma_values_view_index(a@);
            }
            if 0 <= *i && (*i as u64) < (a.len() as u64) {
                copy_value(&a[*i as usize])
            } else {
                Value::Null
            }
        },
        _ => Value::Null,
    }
}

/// The key that `group_by(f)` files a value under: the text of field `f` of
/// a record, else `_unknown`.
pub open spec fn group_key(v: ValueV, f: Seq<char>) -> Seq<char> {
    match v {
        ValueV::Record(r) => match field_get(r.fields, f) {
            Some(ValueV::Str(s)) => s,
            _ => "_unknown"@,
        },
        _ => "_unknown"@,
    }
}

/// The groups of `xs` by key, each with its members in order, the groups in
/// the order their keys first occur.
pub open spec fn group_pairs(xs: Seq<ValueV>, f: Seq<char>) -> Seq<(Seq<char>, Seq<ValueV>)>
    decreases xs.len(),
{
    if xs.len() == 0 {
        Seq::empty()
    } else {
        let g = group_pairs(xs.drop_last(), f);
        let x = xs.last();
        let k = group_key(x, f);
        if exists|j: int| 0 <= j < g.len() && (#[trigger] g[j]).0 == k {
            let j = choose|j: int| 0 <= j < g.len() && (#[trigger] g[j]).0 == k;
            g.update(j, (k, g[j].1.push(x)))
        } else {
            g.push((k, seq![x]))
        }
    }
}

/// What `xs |> group_by(f)` gives: the list of the groups, each a list.
pub open spec fn grouped(xs: Seq<ValueV>, f: Seq<char>) -> Seq<ValueV> {
    group_pairs(xs, f).map_values(|p: (Seq<char>, Seq<ValueV>)| ValueV::Array(p.1))
}

pub proof fn lemma_group_keys_unique(xs: Seq<ValueV>, f: Seq<char>)
    ensures
        forall|a: int, b: int|
            0 <= a < b < group_pairs(xs, f).len() ==> (#[trigger] group_pairs(xs, f)[a]).0 != (
            #[trigger] group_pairs(xs, f)[b]).0,
    decreases xs.len(),
{
    if xs.len() > 0 {
        lemma_group_keys_unique(xs.drop_last(), f);
        let g = group_pairs(xs.drop_last(), f);
        let x = xs.last();
        let k = group_key(x, f);
        let r = group_pairs(xs, f);
        if exists|j: int| 0 <= j < g.len() && (#[trigger] g[j]).0 == k {
            let j = choose|j: int| 0 <= j < g.len() && (#[trigger] g[j]).0 == k;
            assert(r == g.update(j, (k, g[j].1.push(x))));
            assert forall|a: int, b: int| 0 <= a < b < r.len() implies (#[trigger] r[a]).0 != (
            #[trigger] r[b]).0 by {
                assert(r[a].0 == g[a].0);
                assert(r[b].0 == g[b].0);
            }
        } else {
            assert(r == g.push((k, seq![x])));
            assert forall|a: int, b: int| 0 <= a < b < r.len() implies (#[trigger] r[a]).0 != (
            #[trigger] r[b]).0 by {
                if b < g.len() {
                    assert(r[a] == g[a]);
                    assert(r[b] == g[b]);
                } else {
                    assert(r[a] == g[a]);
                }
            }
        }
    }
}

fn key_of(v: &Value, f: &str) -> (r: String)
    ensures
        r@ == group_key(v@, f@),
{
    match v {
        Value::Record(rec) => match field_index(&rec.fields, f) {
            Some(i) => {
                proof {
                    lemma_fields_view_index(rec.fields@);
                }
                match &rec.fields[i].1 {
                    Value::Str(s) => s.clone(),
                    _ => String::from_str("_unknown"),
                }
            },
            None => String::from_str("_unknown"),
        },
        _ => String::from_str("_unknown"),
    }
}

pub open spec fn groups_view(g: Seq<(String, Vec<Value>)>) -> Seq<(Seq<char>, Seq<ValueV>)> {
    g.map_values(|p: (String, Vec<Value>)| (p.0@, values_view(p.1@)))
}

/// `xs |> group_by(f)` (see [`grouped`]).
pub fn group_by(xs: &Vec<Value>, f: &str) -> (r: Vec<Value>)
    ensures
        values_view(r@) == grouped(values_view(xs@), f@),
{
    let ghost xv = values_view(xs@);
    proof {
        lemma_values_view_index(xs@);
    }
    let mut groups: Vec<(String, Vec<Value>)> = Vec::new();
    let mut i: usize = 0;
    assert(xv.take(0) =~= Seq::<ValueV>::empty());
    assert(groups_view(groups@) =~= Seq::<(Seq<char>, Seq<ValueV>)>::empty());
    while i < xs.len()
        invariant
            i <= xs.len(),
            xv == values_view(xs@),
            xv.len() == xs@.len(),
            forall|m: int| 0 <= m < xs@.len() ==> xv[m] == value_view(#[trigger] xs@[m]),
            groups_view(groups@) == group_pairs(xv.take(i as int), f@),
        decreases xs.len() - i,
    {
        let ghost g0 = groups_view(groups@);
        let ghost x = xv[i as int];
        assert(xv.take(i + 1).drop_last() =~= xv.take(i as int));
        assert(xv.take(i + 1).last() == x);
        proof {
            lemma_group_keys_unique(xv.take(i as int), f@);
        }
        let k = key_of(&xs[i], f);
        let mut j: usize = 0;
        while j < groups.len() && !text_eq(groups[j].0.as_str(), k.as_str())
            invariant
                j <= groups.len(),
                g0 == groups_view(groups@),
                forall|m: int| 0 <= m < j ==> (#[trigger] g0[m]).0 != k@,
            decreases groups.len() - j,
        {
            j = j + 1;
        }
        let item = copy_value(&xs[i]);
        if j < groups.len() {
            assert(g0[j as int].0 == k@);
            let ghost chosen = choose|c: int| 0 <= c < g0.len() && (#[trigger] g0[c]).0 == k@;
            assert(chosen == j);
            let mut members = copy_values(&groups[j].1);
            let ghost mv = values_view(members@);
            proof {
                lemma_values_view_push(members@, item);
            }
            members.push(item);
            let name = groups[j].0.clone();
            groups.set(j, (name, members));
            assert(groups_view(groups@) =~= g0.update(j as int, (k@, g0[j as int].1.push(x))));
        } else {
            let mut members: Vec<Value> = Vec::new();
            proof {
                lemma_values_view_push(members@, item);
                assert(members@.push(item) =~= seq![item]);
            }
            members.push(item);
            assert(values_view(members@) =~= seq![x]) by {
                lemma_values_view_push(Seq::<Value>::empty(), members@[0]);
                assert(members@ =~= Seq::<Value>::empty().push(members@[0]));
            }
            groups.push((k, members));
            assert(groups_view(groups@) =~= g0.push((k@, seq![x])));
        }
        i = i + 1;
    }
    assert(xv.take(i as int) =~= xv);
    let mut out: Vec<Value> = Vec::new();
    let ghost gv = groups_view(groups@);
    let mut n: usize = 0;
    assert(values_view(out@) =~= Seq::<ValueV>::empty());
    while n < groups.len()
        invariant
            n <= groups.len(),
            gv == groups_view(groups@),
            values_view(out@) == gv.take(n as int).map_values(
                |p: (Seq<char>, Seq<ValueV>)| ValueV::Array(p.1),
            ),
        decreases groups.len() - n,
    {
        let a = Value::Array(copy_values(&groups[n].1));
        proof {
            lemma_values_view_push(out@, a);
        }
        out.push(a);
        assert(gv.take(n + 1).map_values(|p: (Seq<char>, Seq<ValueV>)| ValueV::Array(p.1))
            =~= gv.take(n as int).map_values(|p: (Seq<char>, Seq<ValueV>)| ValueV::Array(p.1)).push(
            ValueV::Array(gv[n as int].1),
        ));
        n = n + 1;
    }
    assert(gv.take(n as int) =~= gv);
    out
}


// ───────────────────────────── text ─────────────────────────────

/// The text of a value as a model is given it: a text as it is; a record's
/// `content` text, else its text fields joined by spaces; a list's items
/// joined by line breaks; numbers and booleans as Rust prints them; nothing
/// for anything else.
pub open spec fn value_text(v: ValueV) -> Seq<char>
    decreases v, 0int,
{
    match v {
        ValueV::Str(s) => s,
        ValueV::Record(r) => match field_get(r.fields, "content"@) {
            Some(ValueV::Str(s)) => s,
            _ => join(record_texts(r.fields, 0), " "@),
        },
        ValueV::Array(a) => join(list_texts(a, 0), "\n"@),
        ValueV::Int(n) => int_text(n as int),
        ValueV::Float(s) => s,
        ValueV::Bool(b) => if b {
            "true"@
        } else {
            "false"@
        },
        _ => Seq::empty(),
    }
}

/// The texts of the items of a list from `i` on.
pub open spec fn list_texts(a: Seq<ValueV>, i: int) -> Seq<Seq<char>>
    decreases a, a.len() - i,
{
    if 0 <= i < a.len() {
        seq![value_text(a[i])] + list_texts(a, i + 1)
    } else {
        Seq::empty()
    }
}

/// The text values of a record's fields from pair `i` on (each name once,
/// by its last pair).
pub open spec fn record_texts(fs: Seq<(Seq<char>, ValueV)>, i: int) -> Seq<Seq<char>>
    decreases fs.len() - i,
{
    if 0 <= i < fs.len() {
        if last_of_name(fs, i) && fs[i].1 is Str {
            seq![fs[i].1->Str_0] + record_texts(fs, i + 1)
        } else {
            record_texts(fs, i + 1)
        }
    } else {
        Seq::empty()
    }
}

fn record_texts_exec(fs: &Vec<(String, Value)>) -> (r: Vec<String>)
    ensures
        texts_view(r@) == record_texts(fields_view(fs@), 0),
{
    proof {
        lemma_fields_view_index(fs@);
    }
    let ghost fv = fields_view(fs@);
    let mut out: Vec<String> = Vec::new();
    let mut i: usize = 0;
    assert(texts_view(out@) =~= Seq::<Seq<char>>::empty());
    assert(record_texts(fv, 0) =~= Seq::<Seq<char>>::empty() + record_texts(fv, 0));
    while i < fs.len()
        invariant
            i <= fs.len(),
            fv == fields_view(fs@),
            fv.len() == fs@.len(),
            forall|j: int| 0 <= j < fs@.len() ==> fv[j] == field_view(#[trigger] fs@[j]),
            record_texts(fv, 0) == texts_view(out@) + record_texts(fv, i as int),
        decreases fs.len() - i,
    {
        let keep = is_last_of_name(fs, i);
        if keep {
            if let Value::Str(t) = &fs[i].1 {
                let ghost before = texts_view(out@);
                out.push(t.clone());
                assert(texts_view(out@) =~= before + seq![t@]);
                assert(record_texts(fv, 0) =~= texts_view(out@) + record_texts(fv, i + 1));
            }
        }
        i = i + 1;
    }
    assert(record_texts(fv, 0) =~= texts_view(out@));
    out
}

/// The text of a value (see [`value_text`]).
pub fn value_text_exec(v: &Value) -> (r: String)
    ensures
        r@ == value_text(v@),
    decreases v, 0int,
{
    match v {
        Value::Str(t) => t.clone(),
        Value::Record(rec) => {
            match field_index(&rec.fields, "content") {
                Some(i) => {
                    proof {
                        lemma_fields_view_index(rec.fields@);
                    }
                    if let Value::Str(t) = &rec.fields[i].1 {
                        return t.clone();
                    }
                },
                None => {},
            }
            let parts = record_texts_exec(&rec.fields);
            join_texts(&parts, " ")
        },
        Value::Array(a) => {
            proof {
                lemma_values_view_index(a@);
            }
            let parts = list_texts_exec(a, 0);
            join_texts(&parts, "\n")
        },
        Value::Int(n) => i64_to_text(*n),
        Value::Float(t) => t.clone(),
        Value::Bool(b) => if *b {
            String::from_str("true")
        } else {
            String::from_str("false")
        },
        _ => {
            let e = String::new();
            assert(e@ =~= Seq::<char>::empty());
            e
        },
    }
}

fn list_texts_exec(a: &Vec<Value>, i: usize) -> (r: Vec<String>)
    requires
        i <= a.len(),
    ensures
        texts_view(r@) == list_texts(values_view(a@), i as int),
    decreases a, a@.len() - i,
{
    proof {
        lemma_values_view_index(a@);
    }
    if i < a.len() {
        let first = value_text_exec(&a[i]);
        let rest = list_texts_exec(a, i + 1);
        let ghost fv = first@;
        let mut out: Vec<String> = Vec::new();
        out.push(first);
        assert(texts_view(out@) =~= seq![fv] + texts_view(rest@).take(0));
        let mut k: usize = 0;
        while k < rest.len()
            invariant
                k <= rest.len(),
                texts_view(out@) == seq![fv] + texts_view(rest@).take(k as int),
            decreases rest.len() - k,
        {
            let ghost before = out@;
            let c = rest[k].clone();
            assert(c@ == rest@[k as int]@);
            out.push(c);
            assert(out@ == before.push(c));
            assert(texts_view(out@) =~= texts_view(before).push(c@));
            assert(texts_view(rest@).take(k + 1) =~= texts_view(rest@).take(k as int).push(rest@[k as int]@));
            assert(texts_view(out@) =~= seq![fv] + texts_view(rest@).take(k + 1));
            k = k + 1;
        }
        assert(texts_view(rest@).take(k as int) =~= texts_view(rest@));
        assert(value_text(values_view(a@)[i as int]) == fv);
        out
    } else {
        let out: Vec<String> = Vec::new();
        assert(texts_view(out@) =~= Seq::<Seq<char>>::empty());
        out
    }
}

// ───────────────────────────── laws of the operators ─────────────────────────────

/// Integer operators mean what arithmetic says they mean:
/// - `<`, `<=`, `>`, `>=` on integers within 2^53 in magnitude give `true`
///   exactly when the integers stand in that order (so `x <= x` and
///   `x >= x` hold, `x < x` and `x > x` do not);
/// - `==` and `!=` on integers give whether they are equal;
/// - `+`, `-`, `*` give the exact sum, difference and product when it fits
///   in 64 bits, and an overflow when it does not;
/// - `/` and `%` by zero give `null`; for `a >= 0` and `b > 0` they give the
///   quotient `q` and remainder `r` with `q * b + r == a` and `0 <= r < b`.
pub proof fn lemma_binop_on_integers(a: i64, b: i64)
    ensures
        exact_in_f64(a) && exact_in_f64(b) ==> {
            &&& binop_spec(ValueV::Int(a), BinOp::Lt, ValueV::Int(b)) == BinopOutcomeV::Value(ValueV::Bool(a < b))
            &&& binop_spec(ValueV::Int(a), BinOp::Le, ValueV::Int(b)) == BinopOutcomeV::Value(ValueV::Bool(a <= b))
            &&& binop_spec(ValueV::Int(a), BinOp::Gt, ValueV::Int(b)) == BinopOutcomeV::Value(ValueV::Bool(a > b))
            &&& binop_spec(ValueV::Int(a), BinOp::Ge, ValueV::Int(b)) == BinopOutcomeV::Value(ValueV::Bool(a >= b))
        },
        binop_spec(ValueV::Int(a), BinOp::Eq, ValueV::Int(b)) == BinopOutcomeV::Value(ValueV::Bool(a == b)),
        binop_spec(ValueV::Int(a), BinOp::Ne, ValueV::Int(b)) == BinopOutcomeV::Value(ValueV::Bool(a != b)),
        binop_spec(ValueV::Int(a), BinOp::Add, ValueV::Int(b)) == if i64::MIN <= a + b <= i64::MAX {
            BinopOutcomeV::Value(ValueV::Int((a + b) as i64))
        } else {
            BinopOutcomeV::Overflow
        },
        binop_spec(ValueV::Int(a), BinOp::Sub, ValueV::Int(b)) == if i64::MIN <= a - b <= i64::MAX {
            BinopOutcomeV::Value(ValueV::Int((a - b) as i64))
        } else {
            BinopOutcomeV::Overflow
        },
        binop_spec(ValueV::Int(a), BinOp::Mul, ValueV::Int(b)) == if i64::MIN <= a * b <= i64::MAX {
            BinopOutcomeV::Value(ValueV::Int((a * b) as i64))
        } else {
            BinopOutcomeV::Overflow
        },
        b == 0 ==> binop_spec(ValueV::Int(a), BinOp::Div, ValueV::Int(b)) == BinopOutcomeV::Value(ValueV::Null),
        b == 0 ==> binop_spec(ValueV::Int(a), BinOp::Mod, ValueV::Int(b)) == BinopOutcomeV::Value(ValueV::Null),
        a >= 0 && b > 0 ==> {
            &&& binop_spec(ValueV::Int(a), BinOp::Div, ValueV::Int(b)) matches BinopOutcomeV::Value(ValueV::Int(q))
            &&& binop_spec(ValueV::Int(a), BinOp::Mod, ValueV::Int(b)) matches BinopOutcomeV::Value(ValueV::Int(r))
            &&& q * b + r == a
            &&& 0 <= r < b
        },
{
    if a >= 0 && b > 0 {
        let q = a / b;
        let r = a % b;
        assert(q * b + r == a && 0 <= r < b) by (nonlinear_arith)
            requires
                a >= 0,
                b > 0,
                q == a / b,
                r == a % b,
        ;
        assert(0 <= q <= a) by (nonlinear_arith)
            requires
                a >= 0,
                b > 0,
                q == a / b,
        ;
    }
}

/// `and` and `or` on booleans are conjunction and disjunction.
pub proof fn lemma_binop_on_booleans(x: bool, y: bool)
    ensures
        binop_spec(ValueV::Bool(x), BinOp::And, ValueV::Bool(y)) == BinopOutcomeV::Value(ValueV::Bool(x && y)),
        binop_spec(ValueV::Bool(x), BinOp::Or, ValueV::Bool(y)) == BinopOutcomeV::Value(ValueV::Bool(x || y)),
{
}

/// The order of texts is strict: no text comes before itself, and of two
/// texts at most one comes before the other.
pub proof fn lemma_text_order(x: Seq<char>, y: Seq<char>)
    ensures
        !text_less(x, x),
        !(text_less(x, y) && text_less(y, x)),
    decreases x.len(),
{
    if x.len() > 0 && y.len() > 0 && x[0] == y[0] {
        lemma_text_order(x.drop_first(), y.drop_first());
    } else if x.len() > 0 {
        lemma_text_order(x.drop_first(), x.drop_first());
    }
}

/// Operators on texts: `+` joins them, `==` and `!=` compare them, `<` holds
/// when the left text comes first in code-point order and `>` when the right
/// one does (so `<` and `>` are converse and never both hold); `<=` and `>=`
/// hold as `<` and `>` do, of a strictly smaller or greater text.
pub proof fn lemma_binop_on_texts(x: Seq<char>, y: Seq<char>)
    ensures
        binop_spec(ValueV::Str(x), BinOp::Add, ValueV::Str(y)) == BinopOutcomeV::Value(ValueV::Str(x + y)),
        binop_spec(ValueV::Str(x), BinOp::Eq, ValueV::Str(y)) == BinopOutcomeV::Value(ValueV::Bool(x == y)),
        binop_spec(ValueV::Str(x), BinOp::Ne, ValueV::Str(y)) == BinopOutcomeV::Value(ValueV::Bool(x != y)),
        binop_spec(ValueV::Str(x), BinOp::Lt, ValueV::Str(y)) == BinopOutcomeV::Value(ValueV::Bool(text_less(x, y))),
        binop_spec(ValueV::Str(x), BinOp::Gt, ValueV::Str(y)) == binop_spec(ValueV::Str(y), BinOp::Lt, ValueV::Str(x)),
        binop_spec(ValueV::Str(x), BinOp::Le, ValueV::Str(y)) == binop_spec(ValueV::Str(x), BinOp::Lt, ValueV::Str(y)),
        binop_spec(ValueV::Str(x), BinOp::Ge, ValueV::Str(y)) == binop_spec(ValueV::Str(x), BinOp::Gt, ValueV::Str(y)),
        binop_spec(ValueV::Str(x), BinOp::Lt, ValueV::Str(x)) == BinopOutcomeV::Value(ValueV::Bool(false)),
{
    lemma_text_order(x, y);
}

} // verus!
