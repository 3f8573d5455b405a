use vstd::prelude::*;
use vstd::utf8::*;

verus! {

// ───────────────────────────── character classes ─────────────────────────────

pub open spec fn is_digit(c: char) -> bool {
    '0' <= c && c <= '9'
}

pub open spec fn is_ident_start(c: char) -> bool {
    ('a' <= c && c <= 'z') || ('A' <= c && c <= 'Z') || c == '_'
}

pub open spec fn is_ident_char(c: char) -> bool {
    is_ident_start(c) || is_digit(c)
}

pub open spec fn is_space(c: char) -> bool {
    c == ' ' || c == '\t' || c == '\n' || c == '\r'
}

/// The classes of characters that a run of one lexeme may consist of.
#[derive(Clone, Copy)]
pub enum CharClass {
    Digit,
    IdentChar,
    Space,
    NotNewline,
    NotChar(char),
    Is(char),
}

pub open spec fn in_class(c: char, cl: CharClass) -> bool {
    match cl {
        CharClass::Digit => is_digit(c),
        CharClass::IdentChar => is_ident_char(c),
        CharClass::Space => is_space(c),
        CharClass::NotNewline => c != '\n',
        CharClass::NotChar(q) => c != q,
        CharClass::Is(q) => c == q,
    }
}

pub fn in_class_exec(c: char, cl: CharClass) -> (r: bool)
    ensures
        r == in_class(c, cl),
{
    match cl {
        CharClass::Digit => '0' <= c && c <= '9',
        CharClass::IdentChar => ('a' <= c && c <= 'z') || ('A' <= c && c <= 'Z') || c == '_' || (
        '0' <= c && c <= '9'),
        CharClass::Space => c == ' ' || c == '\t' || c == '\n' || c == '\r',
        CharClass::NotNewline => c != '\n',
        CharClass::NotChar(q) => c != q,
        CharClass::Is(q) => c == q,
    }
}

/// The first index at or after `i` whose character is not in `cl` (or the length of `s`).
pub open spec fn run_end(s: Seq<char>, i: int, cl: CharClass) -> int
    decreases s.len() - i,
{
    if 0 <= i < s.len() && in_class(s[i], cl) {
        run_end(s, i + 1, cl)
    } else {
        i
    }
}

pub proof fn lemma_run_end(s: Seq<char>, i: int, cl: CharClass)
    requires
        0 <= i <= s.len(),
    ensures
        i <= run_end(s, i, cl) <= s.len(),
        forall|j: int| i <= j < run_end(s, i, cl) ==> in_class(#[trigger] s[j], cl),
        run_end(s, i, cl) < s.len() ==> !in_class(s[run_end(s, i, cl)], cl),
    decreases s.len() - i,
{
    if i < s.len() && in_class(s[i], cl) {
        lemma_run_end(s, i + 1, cl);
    }
}

/// A run that stops at `k` ends at `k`.
pub proof fn lemma_run_end_at(s: Seq<char>, i: int, k: int, cl: CharClass)
    requires
        0 <= i <= k <= s.len(),
        forall|j: int| i <= j < k ==> in_class(#[trigger] s[j], cl),
        k == s.len() || !in_class(s[k], cl),
    ensures
        run_end(s, i, cl) == k,
    decreases k - i,
{
    if i < k {
        lemma_run_end_at(s, i + 1, k, cl);
    }
}

pub fn run_end_exec(v: &Vec<char>, i: usize, cl: CharClass) -> (r: usize)
    requires
        i <= v.len(),
    ensures
        r == run_end(v@, i as int, cl),
        i <= r <= v.len(),
{
    proof {
        lemma_run_end(v@, i as int, cl);
    }
    let mut j = i;
    while j < v.len() && in_class_exec(v[j], cl)
        invariant
            i <= j <= v.len(),
            run_end(v@, i as int, cl) == run_end(v@, j as int, cl),
        decreases v.len() - j,
    {
        j = j + 1;
    }
    j
}

/// The character at `j`, or NUL past either end.
pub open spec fn at(s: Seq<char>, j: int) -> char {
    if 0 <= j < s.len() {
        s[j]
    } else {
        '\0'
    }
}

pub fn at_exec(v: &Vec<char>, j: usize) -> (c: char)
    ensures
        c == at(v@, j as int),
{
    if j < v.len() {
        v[j]
    } else {
        '\0'
    }
}

/// Whether the characters of `v` in `[i, e)` are exactly `w`.
pub fn seg_eq(v: &Vec<char>, i: usize, e: usize, w: &[char]) -> (r: bool)
    requires
        i <= e <= v.len(),
    ensures
        r == (v@.subrange(i as int, e as int) == w@),
{
    if e - i != w.len() {
        return false;
    }
    let mut k: usize = 0;
    while k < w.len()
        invariant
            k <= w.len(),
            w.len() == e - i,
            i <= e <= v.len(),
            forall|j: int| 0 <= j < k ==> v@[i + j] == w@[j],
        decreases w.len() - k,
    {
        if v[i + k] != w[k] {
            assert(v@.subrange(i as int, e as int)[k as int] != w@[k as int]);
            return false;
        }
        k += 1;
    }
    assert(v@.subrange(i as int, e as int) =~= w@);
    true
}

/// The characters of a string, in order.
pub fn collect_chars(s: &str) -> (v: Vec<char>)
    ensures
        v@ == s@,
{
    let mut v: Vec<char> = Vec::new();
    for c in it: s.chars()
        invariant
            v@ == it.seq().take(it.index() as int),
    {
        v.push(c);
    }
    v
}

// ───────────────────────────── decimal digits ─────────────────────────────

pub open spec fn digit_val(c: char) -> nat {
    (c as int - '0' as int) as nat
}

/// The number that a sequence of decimal digits denotes.
pub open spec fn digits_value(d: Seq<char>) -> nat
    decreases d.len(),
{
    if d.len() == 0 {
        0
    } else {
        digits_value(d.drop_last()) * 10 + digit_val(d.last())
    }
}

pub proof fn lemma_digits_value_prefix(d: Seq<char>, k: int)
    requires
        0 <= k <= d.len(),
    ensures
        digits_value(d.take(k)) <= digits_value(d),
    decreases d.len() - k,
{
    if k < d.len() {
        assert(d.drop_last().take(k) =~= d.take(k));
        lemma_digits_value_prefix(d.drop_last(), k);
    } else {
        assert(d.take(k) =~= d);
    }
}

/// The value of the digits of `v` in `[i, e)`.
pub fn digits_value_exec(v: &Vec<char>, i: usize, e: usize) -> (r: u64)
    requires
        i <= e <= v.len(),
        forall|j: int| i <= j < e ==> is_digit(#[trigger] v@[j]),
        digits_value(v@.subrange(i as int, e as int)) <= u64::MAX,
    ensures
        r == digits_value(v@.subrange(i as int, e as int)),
{
    let ghost whole = v@.subrange(i as int, e as int);
    let mut acc: u64 = 0;
    let mut k = i;
    assert(v@.subrange(i as int, i as int) =~= Seq::<char>::empty());
    while k < e
        invariant
            i <= k <= e <= v.len(),
            whole == v@.subrange(i as int, e as int),
            forall|j: int| i <= j < e ==> is_digit(#[trigger] v@[j]),
            digits_value(whole) <= u64::MAX,
            acc == digits_value(v@.subrange(i as int, k as int)),
        decreases e - k,
    {
        let c = v[k];
        assert(is_digit(v@[k as int]));
        let d = (c as u32 - '0' as u32) as u64;
        let ghost next = v@.subrange(i as int, k + 1);
        assert(next.drop_last() =~= v@.subrange(i as int, k as int));
        assert(whole.take(k + 1 - i) =~= next);
        proof {
            lemma_digits_value_prefix(whole, k + 1 - i);
        }
        acc = acc * 10 + d;
        k = k + 1;
    }
    acc
}

/// The decimal digit for `d < 10`.
pub open spec fn digit_char(d: nat) -> char {
    (('0' as int) + d) as char
}

/// Decimal text of a natural number, without leading zeros.
pub open spec fn nat_text(n: nat) -> Seq<char>
    decreases n,
{
    if n < 10 {
        seq![digit_char(n)]
    } else {
        nat_text(n / 10) + seq![digit_char(n % 10)]
    }
}

/// The decimal text of `n` is non-empty, made of digits, and denotes `n`.
pub proof fn lemma_nat_text(n: nat)
    ensures
        nat_text(n).len() > 0,
        forall|j: int| 0 <= j < nat_text(n).len() ==> is_digit(#[trigger] nat_text(n)[j]),
        digits_value(nat_text(n)) == n,
    decreases n,
{
    assert(digit_val(digit_char(n % 10)) == n % 10);
    if n < 10 {
        let t = nat_text(n);
        assert(t.drop_last() =~= Seq::<char>::empty());
        assert(digit_val(digit_char(n)) == n);
        assert(t.last() == digit_char(n));
        assert(digits_value(t) == digits_value(t.drop_last()) * 10 + digit_val(t.last()));
    } else {
        lemma_nat_text(n / 10);
        let t = nat_text(n);
        let p = nat_text(n / 10);
        assert(t.drop_last() =~= p);
        assert(t.last() == digit_char(n % 10));
        assert(n == (n / 10) * 10 + n % 10);
        assert(digits_value(t) == digits_value(t.drop_last()) * 10 + digit_val(t.last()));
        assert forall|j: int| 0 <= j < t.len() implies is_digit(#[trigger] t[j]) by {
            if j < p.len() {
                assert(t[j] == p[j]);
            }
        }
    }
}

/// Decimal text of an integer, with a leading `-` when negative.
pub open spec fn int_text(n: int) -> Seq<char> {
    if n < 0 {
        seq!['-'] + nat_text((-n) as nat)
    } else {
        nat_text(n as nat)
    }
}

fn digit_str(d: u64) -> (r: &'static str)
    requires
        d < 10,
    ensures
        r@ == seq![digit_char(d as nat)],
{
    proof {
        reveal_strlit("0");
        reveal_strlit("1");
        reveal_strlit("2");
        reveal_strlit("3");
        reveal_strlit("4");
        reveal_strlit("5");
        reveal_strlit("6");
        reveal_strlit("7");
        reveal_strlit("8");
        reveal_strlit("9");
    }
    if d == 0 {
        "0"
    } else if d == 1 {
        "1"
    } else if d == 2 {
        "2"
    } else if d == 3 {
        "3"
    } else if d == 4 {
        "4"
    } else if d == 5 {
        "5"
    } else if d == 6 {
        "6"
    } else if d == 7 {
        "7"
    } else if d == 8 {
        "8"
    } else {
        "9"
    }
}

/// Appends the decimal text of `n` to `out`.
pub fn push_u64_text(out: &mut String, n: u64)
    ensures
        final(out)@ == old(out)@ + nat_text(n as nat),
    decreases n,
{
    if n < 10 {
        let d = digit_str(n);
        out.append(d);
    } else {
        push_u64_text(out, n / 10);
        let d = digit_str(n % 10);
        out.append(d);
        assert(old(out)@ + nat_text(n as nat) =~= old(out)@ + nat_text((n / 10) as nat) + seq![
            digit_char((n % 10) as nat),
        ]);
    }
}

/// Decimal text of a `u64`.
pub fn u64_to_text(n: u64) -> (r: String)
    ensures
        r@ == nat_text(n as nat),
{
    let mut s = String::new();
    push_u64_text(&mut s, n);
    assert(s@ =~= nat_text(n as nat));
    s
}

/// Decimal text of an `i64`.
pub fn i64_to_text(n: i64) -> (r: String)
    ensures
        r@ == int_text(n as int),
{
    let mut s = String::new();
    if n < 0 {
        proof {
            reveal_strlit("-");
        }
        s.append("-");
        let m: u64 = if n == i64::MIN {
            9223372036854775808u64
        } else {
            (-n) as u64
        };
        push_u64_text(&mut s, m);
    } else {
        push_u64_text(&mut s, n as u64);
    }
    assert(s@ =~= int_text(n as int));
    s
}

// ───────────────────────────── UTF-8 offsets ─────────────────────────────

/// Byte offset of the `i`-th character of `s` in its UTF-8 encoding.
pub open spec fn byte_offset(s: Seq<char>, i: int) -> int {
    encode_utf8(s.take(i)).len() as int
}

pub proof fn lemma_encode_concat(a: Seq<char>, b: Seq<char>)
    ensures
        encode_utf8(a + b) == encode_utf8(a) + encode_utf8(b),
    decreases a.len(),
{
    if a.len() == 0 {
        assert(a + b =~= b);
        assert(encode_utf8(a) =~= Seq::<u8>::empty());
        assert(encode_utf8(a) + encode_utf8(b) =~= encode_utf8(b));
    } else {
        assert((a + b).drop_first() =~= a.drop_first() + b);
        lemma_encode_concat(a.drop_first(), b);
        assert(encode_utf8(a + b) =~= encode_utf8(a) + encode_utf8(b));
    }
}

pub proof fn lemma_byte_offset_step(s: Seq<char>, i: int)
    requires
        0 <= i < s.len(),
    ensures
        byte_offset(s, i + 1) == byte_offset(s, i) + encode_scalar(s[i] as u32).len(),
{
    assert(s.take(i + 1) =~= s.take(i) + seq![s[i]]);
    lemma_encode_concat(s.take(i), seq![s[i]]);
    assert(seq![s[i]].drop_first() =~= Seq::<char>::empty());
    assert(encode_utf8(Seq::<char>::empty()) =~= Seq::<u8>::empty());
    assert(encode_utf8(seq![s[i]]) =~= encode_scalar(s[i] as u32));
}

pub proof fn lemma_byte_offset_bound(s: Seq<char>, i: int)
    requires
        0 <= i <= s.len(),
    ensures
        0 <= byte_offset(s, i) <= encode_utf8(s).len(),
{
    assert(s =~= s.take(i) + s.skip(i));
    lemma_encode_concat(s.take(i), s.skip(i));
}

/// Number of bytes in the UTF-8 encoding of `c`.
pub fn utf8_width(c: char) -> (w: usize)
    ensures
        w == encode_scalar(c as u32).len(),
{
    let u = c as u32;
    proof {
        vstd::utf8::char_is_scalar(c);
    }
    if u <= 0x7F {
        1
    } else if u <= 0x7FF {
        2
    } else if u <= 0xFFFF {
        3
    } else {
        4
    }
}

/// Advances a byte offset from character `i` to character `j`.
pub fn advance_offset(v: &Vec<char>, i: usize, j: usize, b: usize, total: usize) -> (r: usize)
    requires
        i <= j <= v.len(),
        b == byte_offset(v@, i as int),
        total == encode_utf8(v@).len(),
    ensures
        r == byte_offset(v@, j as int),
{
    let mut k = i;
    let mut acc = b;
    while k < j
        invariant
            i <= k <= j <= v.len(),
            acc == byte_offset(v@, k as int),
            total == encode_utf8(v@).len(),
        decreases j - k,
    {
        proof {
            lemma_byte_offset_step(v@, k as int);
            lemma_byte_offset_bound(v@, k + 1);
        }
        let w = utf8_width(v[k]);
        acc = acc + w;
        k = k + 1;
    }
    acc
}


// ───────────────────────────── decimal fractions ─────────────────────────────

/// The index just after the last character of `s[lo..hi)` that is not `0`
/// (or `lo` when all of them are `0`).
pub open spec fn trim_zeros_back(s: Seq<char>, lo: int, hi: int) -> int
    decreases hi - lo,
{
    if lo < hi && s[hi - 1] == '0' {
        trim_zeros_back(s, lo, hi - 1)
    } else {
        hi
    }
}

pub proof fn lemma_trim_zeros_back(s: Seq<char>, lo: int, hi: int)
    requires
        0 <= lo <= hi <= s.len(),
    ensures
        lo <= trim_zeros_back(s, lo, hi) <= hi,
    decreases hi - lo,
{
    if lo < hi && s[hi - 1] == '0' {
        lemma_trim_zeros_back(s, lo, hi - 1);
    }
}

/// The shortest decimal spelling of a literal `whole.frac`: leading zeros of
/// the whole part and trailing zeros of the fraction dropped, `0` for an
/// empty whole part, and no `.` when the fraction is all zeros.
pub open spec fn decimal_text(s: Seq<char>) -> Seq<char> {
    let p = run_end(s, 0, CharClass::NotChar('.'));
    let lead = run_end(s, 0, CharClass::Is('0'));
    let start = if lead < p { lead } else { p };
    let whole = if start < p { s.subrange(start, p) } else { seq!['0'] };
    let fe = trim_zeros_back(s, p + 1, s.len() as int);
    if p < s.len() && fe > p + 1 {
        whole + seq!['.'] + s.subrange(p + 1, fe)
    } else {
        whole
    }
}

/// Executes [`decimal_text`].
pub fn decimal_text_exec(t: &String) -> (r: String)
    ensures
        r@ == decimal_text(t@),
{
    let v = collect_chars(t.as_str());
    let n = v.len();
    let p = run_end_exec(&v, 0, CharClass::NotChar('.'));
    let lead = run_end_exec(&v, 0, CharClass::Is('0'));
    let start = if lead < p {
        lead
    } else {
        p
    };
    let mut r = if start < p {
        String::from_str(t.as_str().substring_char(start, p))
    } else {
        proof {
            reveal_strlit("0");
        }
        String::from_str("0")
    };
    if p < n {
        let mut fe = n;
        proof {
            lemma_trim_zeros_back(v@, p + 1, n as int);
        }
        while fe > p + 1 && v[fe - 1] == '0'
            invariant
                p < n == v.len(),
                p + 1 <= fe <= n,
                trim_zeros_back(v@, p + 1, n as int) == trim_zeros_back(v@, p + 1, fe as int),
            decreases fe,
        {
            fe = fe - 1;
        }
        if fe > p + 1 {
            proof {
                reveal_strlit(".");
            }
            r.append(".");
            r.append(t.as_str().substring_char(p + 1, fe));
        }
    }
    r
}

/// Whether two texts are the same.
pub fn text_eq(a: &str, b: &str) -> (r: bool)
    ensures
        r == (a@ == b@),
{
    let va = collect_chars(a);
    let vb = collect_chars(b);
    if va.len() != vb.len() {
        return false;
    }
    let mut i: usize = 0;
    while i < va.len()
        invariant
            i <= va.len() == vb.len(),
            va@ == a@,
            vb@ == b@,
            va@.take(i as int) == vb@.take(i as int),
        decreases va.len() - i,
    {
        if va[i] != vb[i] {
            return false;
        }
        assert(va@.take(i + 1) =~= va@.take(i as int).push(va@[i as int]));
        assert(vb@.take(i + 1) =~= vb@.take(i as int).push(vb@[i as int]));
        i = i + 1;
    }
    assert(va@ =~= va@.take(i as int));
    assert(vb@ =~= vb@.take(i as int));
    true
}

// ───────────────────────────── joining ─────────────────────────────

/// `parts` joined by `sep`.
pub open spec fn join(parts: Seq<Seq<char>>, sep: Seq<char>) -> Seq<char>
    decreases parts.len(),
{
    if parts.len() == 0 {
        Seq::empty()
    } else if parts.len() == 1 {
        parts[0]
    } else {
        join(parts.drop_last(), sep) + sep + parts.last()
    }
}

pub open spec fn texts_view(v: Seq<String>) -> Seq<Seq<char>> {
    v.map_values(|s: String| s@)
}

/// The texts of `parts` joined by `sep`.
pub fn join_texts(parts: &Vec<String>, sep: &str) -> (r: String)
    ensures
        r@ == join(texts_view(parts@), sep@),
{
    let ghost p = texts_view(parts@);
    let mut out = String::new();
    let mut i: usize = 0;
    assert(p.take(0) =~= Seq::<Seq<char>>::empty());
    while i < parts.len()
        invariant
            i <= parts.len(),
            p == texts_view(parts@),
            out@ == join(p.take(i as int), sep@),
        decreases parts.len() - i,
    {
        assert(p.take(i + 1).drop_last() =~= p.take(i as int));
        assert(p[i as int] == parts@[i as int]@);
        if i > 0 {
            out.append(sep);
        }
        out.append(parts[i].as_str());
        i = i + 1;
        assert(out@ =~= join(p.take(i as int), sep@));
    }
    assert(p.take(i as int) =~= p);
    out
}

} // verus!
