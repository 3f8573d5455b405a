use vstd::prelude::*;
use vstd::utf8::*;
use crate::ast::DurationUnit;
use crate::text::{
    CharClass, at, at_exec, byte_offset, digits_value, digits_value_exec, is_digit, is_ident_char,
    is_ident_start, is_space, lemma_run_end, run_end, run_end_exec, seg_eq, collect_chars,
    advance_offset, in_class, lemma_digits_value_prefix, lemma_nat_text, lemma_run_end_at,
    decimal_text, decimal_text_exec, int_text, nat_text, u64_to_text, i64_to_text,
};

verus! {

/// Lexical tokens of the language.
///
/// A float literal carries the decimal text it was written with.
#[derive(Debug, PartialEq)]
pub enum Token {
    Comment,
    // keywords
    Config,
    Memory,
    Namespace,
    Query,
    Update,
    On,
    Fn,
    If,
    Else,
    Let,
    Mut,
    Return,
    For,
    In,
    Policy,
    NoneKw,
    // decorators
    Extern,
    Index,
    Invariant,
    // update blocks
    OnAccess,
    OnConflict,
    Every,
    // query clauses
    Where,
    Order,
    Limit,
    By,
    Asc,
    Desc,
    From,
    And,
    Or,
    Not,
    // types
    TyString,
    TyInt,
    TyFloat,
    TyBool,
    TyTimestamp,
    // values
    True,
    False,
    Null,
    // literals
    FloatLiteral(String),
    DurationSec(u64),
    DurationMin(u64),
    DurationHour(u64),
    DurationDay(u64),
    DurationWeek(u64),
    IntLiteral(i64),
    Ident(String),
    StringLiteral(String),
    // operators
    Plus,
    Minus,
    Star,
    Slash,
    Percent,
    Eq,
    EqEq,
    BangEq,
    Lt,
    LtEq,
    Gt,
    GtEq,
    PipeArrow,
    Question,
    // delimiters
    Colon,
    Semi,
    Comma,
    LParen,
    RParen,
    LBracket,
    RBracket,
    LBrace,
    RBrace,
    Dot,
    DotDot,
    Arrow,
    FatArrow,
    Pipe,
}

/// Mathematical model of a token: payload-free tokens stand for themselves,
/// text becomes a character sequence and numbers become integers.
pub enum TokenV {
    Fixed(Token),
    Float(Seq<char>),
    Int(int),
    Dur(DurationUnit, int),
    Ident(Seq<char>),
    Str(Seq<char>),
}

pub open spec fn token_view(t: Token) -> TokenV {
    match t {
        Token::FloatLiteral(s) => TokenV::Float(s@),
        Token::DurationSec(v) => TokenV::Dur(DurationUnit::Second, v as int),
        Token::DurationMin(v) => TokenV::Dur(DurationUnit::Minute, v as int),
        Token::DurationHour(v) => TokenV::Dur(DurationUnit::Hour, v as int),
        Token::DurationDay(v) => TokenV::Dur(DurationUnit::Day, v as int),
        Token::DurationWeek(v) => TokenV::Dur(DurationUnit::Week, v as int),
        Token::IntLiteral(n) => TokenV::Int(n as int),
        Token::Ident(s) => TokenV::Ident(s@),
        Token::StringLiteral(s) => TokenV::Str(s@),
        _ => TokenV::Fixed(t),
    }
}

impl View for Token {
    type V = TokenV;

    open spec fn view(&self) -> TokenV {
        token_view(*self)
    }
}

/// The keyword token spelled by `w`, if any.
pub open spec fn keyword(w: Seq<char>) -> Option<Token> {
    if w == seq!['c', 'o', 'n', 'f', 'i', 'g'] {
        Some(Token::Config)
    } else if w == seq!['m', 'e', 'm', 'o', 'r', 'y'] {
        Some(Token::Memory)
    } else if w == seq!['n', 'a', 'm', 'e', 's', 'p', 'a', 'c', 'e'] {
        Some(Token::Namespace)
    } else if w == seq!['q', 'u', 'e', 'r', 'y'] {
        Some(Token::Query)
    } else if w == seq!['u', 'p', 'd', 'a', 't', 'e'] {
        Some(Token::Update)
    } else if w == seq!['o', 'n'] {
        Some(Token::On)
    } else if w == seq!['f', 'n'] {
        Some(Token::Fn)
    } else if w == seq!['i', 'f'] {
        Some(Token::If)
    } else if w == seq!['e', 'l', 's', 'e'] {
        Some(Token::Else)
    } else if w == seq!['l', 'e', 't'] {
        Some(Token::Let)
    } else if w == seq!['m', 'u', 't'] {
        Some(Token::Mut)
    } else if w == seq!['r', 'e', 't', 'u', 'r', 'n'] {
        Some(Token::Return)
    } else if w == seq!['f', 'o', 'r'] {
        Some(Token::For)
    } else if w == seq!['i', 'n'] {
        Some(Token::In)
    } else if w == seq!['p', 'o', 'l', 'i', 'c', 'y'] {
        Some(Token::Policy)
    } else if w == seq!['n', 'o', 'n', 'e'] {
        Some(Token::NoneKw)
    } else if w == seq!['o', 'n', '_', 'a', 'c', 'c', 'e', 's', 's'] {
        Some(Token::OnAccess)
    } else if w == seq!['o', 'n', '_', 'c', 'o', 'n', 'f', 'l', 'i', 'c', 't'] {
        Some(Token::OnConflict)
    } else if w == seq!['e', 'v', 'e', 'r', 'y'] {
        Some(Token::Every)
    } else if w == seq!['w', 'h', 'e', 'r', 'e'] {
        Some(Token::Where)
    } else if w == seq!['o', 'r', 'd', 'e', 'r'] {
        Some(Token::Order)
    } else if w == seq!['l', 'i', 'm', 'i', 't'] {
        Some(Token::Limit)
    } else if w == seq!['b', 'y'] {
        Some(Token::By)
    } else if w == seq!['a', 's', 'c'] {
        Some(Token::Asc)
    } else if w == seq!['d', 'e', 's', 'c'] {
        Some(Token::Desc)
    } else if w == seq!['f', 'r', 'o', 'm'] {
        Some(Token::From)
    } else if w == seq!['a', 'n', 'd'] {
        Some(Token::And)
    } else if w == seq!['o', 'r'] {
        Some(Token::Or)
    } else if w == seq!['n', 'o', 't'] {
        Some(Token::Not)
    } else if w == seq!['s', 't', 'r', 'i', 'n', 'g'] {
        Some(Token::TyString)
    } else if w == seq!['i', 'n', 't'] {
        Some(Token::TyInt)
    } else if w == seq!['f', 'l', 'o', 'a', 't'] {
        Some(Token::TyFloat)
    } else if w == seq!['b', 'o', 'o', 'l'] {
        Some(Token::TyBool)
    } else if w == seq!['t', 'i', 'm', 'e', 's', 't', 'a', 'm', 'p'] {
        Some(Token::TyTimestamp)
    } else if w == seq!['t', 'r', 'u', 'e'] {
        Some(Token::True)
    } else if w == seq!['f', 'a', 'l', 's', 'e'] {
        Some(Token::False)
    } else if w == seq!['n', 'u', 'l', 'l'] {
        Some(Token::Null)
    } else {
        None
    }
}

/// The keyword token spelled by the characters of `v` in `[i, e)`, if any.
pub fn keyword_exec(v: &Vec<char>, i: usize, e: usize) -> (r: Option<Token>)
    requires
        i <= e <= v.len(),
    ensures
        r == keyword(v@.subrange(i as int, e as int)),
{
    if seg_eq(v, i, e, &['c', 'o', 'n', 'f', 'i', 'g']) {
        return Some(Token::Config);
    }
    if seg_eq(v, i, e, &['m', 'e', 'm', 'o', 'r', 'y']) {
        return Some(Token::Memory);
    }
    if seg_eq(v, i, e, &['n', 'a', 'm', 'e', 's', 'p', 'a', 'c', 'e']) {
        return Some(Token::Namespace);
    }
    if seg_eq(v, i, e, &['q', 'u', 'e', 'r', 'y']) {
        return Some(Token::Query);
    }
    if seg_eq(v, i, e, &['u', 'p', 'd', 'a', 't', 'e']) {
        return Some(Token::Update);
    }
    if seg_eq(v, i, e, &['o', 'n']) {
        return Some(Token::On);
    }
    if seg_eq(v, i, e, &['f', 'n']) {
        return Some(Token::Fn);
    }
    if seg_eq(v, i, e, &['i', 'f']) {
        return Some(Token::If);
    }
    if seg_eq(v, i, e, &['e', 'l', 's', 'e']) {
        return Some(Token::Else);
    }
    if seg_eq(v, i, e, &['l', 'e', 't']) {
        return Some(Token::Let);
    }
    if seg_eq(v, i, e, &['m', 'u', 't']) {
        return Some(Token::Mut);
    }
    if seg_eq(v, i, e, &['r', 'e', 't', 'u', 'r', 'n']) {
        return Some(Token::Return);
    }
    if seg_eq(v, i, e, &['f', 'o', 'r']) {
        return Some(Token::For);
    }
    if seg_eq(v, i, e, &['i', 'n']) {
        return Some(Token::In);
    }
    if seg_eq(v, i, e, &['p', 'o', 'l', 'i', 'c', 'y']) {
        return Some(Token::Policy);
    }
    if seg_eq(v, i, e, &['n', 'o', 'n', 'e']) {
        return Some(Token::NoneKw);
    }
    if seg_eq(v, i, e, &['o', 'n', '_', 'a', 'c', 'c', 'e', 's', 's']) {
        return Some(Token::OnAccess);
    }
    if seg_eq(v, i, e, &['o', 'n', '_', 'c', 'o', 'n', 'f', 'l', 'i', 'c', 't']) {
        return Some(Token::OnConflict);
    }
    if seg_eq(v, i, e, &['e', 'v', 'e', 'r', 'y']) {
        return Some(Token::Every);
    }
    if seg_eq(v, i, e, &['w', 'h', 'e', 'r', 'e']) {
        return Some(Token::Where);
    }
    if seg_eq(v, i, e, &['o', 'r', 'd', 'e', 'r']) {
        return Some(Token::Order);
    }
    if seg_eq(v, i, e, &['l', 'i', 'm', 'i', 't']) {
        return Some(Token::Limit);
    }
    if seg_eq(v, i, e, &['b', 'y']) {
        return Some(Token::By);
    }
    if seg_eq(v, i, e, &['a', 's', 'c']) {
        return Some(Token::Asc);
    }
    if seg_eq(v, i, e, &['d', 'e', 's', 'c']) {
        return Some(Token::Desc);
    }
    if seg_eq(v, i, e, &['f', 'r', 'o', 'm']) {
        return Some(Token::From);
    }
    if seg_eq(v, i, e, &['a', 'n', 'd']) {
        return Some(Token::And);
    }
    if seg_eq(v, i, e, &['o', 'r']) {
        return Some(Token::Or);
    }
    if seg_eq(v, i, e, &['n', 'o', 't']) {
        return Some(Token::Not);
    }
    if seg_eq(v, i, e, &['s', 't', 'r', 'i', 'n', 'g']) {
        return Some(Token::TyString);
    }
    if seg_eq(v, i, e, &['i', 'n', 't']) {
        return Some(Token::TyInt);
    }
    if seg_eq(v, i, e, &['f', 'l', 'o', 'a', 't']) {
        return Some(Token::TyFloat);
    }
    if seg_eq(v, i, e, &['b', 'o', 'o', 'l']) {
        return Some(Token::TyBool);
    }
    if seg_eq(v, i, e, &['t', 'i', 'm', 'e', 's', 't', 'a', 'm', 'p']) {
        return Some(Token::TyTimestamp);
    }
    if seg_eq(v, i, e, &['t', 'r', 'u', 'e']) {
        return Some(Token::True);
    }
    if seg_eq(v, i, e, &['f', 'a', 'l', 's', 'e']) {
        return Some(Token::False);
    }
    if seg_eq(v, i, e, &['n', 'u', 'l', 'l']) {
        return Some(Token::Null);
    }
    None
}

/// The unit that a letter directly after the digits of a number selects.
pub open spec fn dur_unit(c: char) -> Option<DurationUnit> {
    if c == 's' {
        Some(DurationUnit::Second)
    } else if c == 'm' {
        Some(DurationUnit::Minute)
    } else if c == 'h' {
        Some(DurationUnit::Hour)
    } else if c == 'd' {
        Some(DurationUnit::Day)
    } else if c == 'w' {
        Some(DurationUnit::Week)
    } else {
        None
    }
}

/// Punctuation at `i`: the token and its length in characters (longest match).
pub open spec fn punct(c: char, next: char) -> Option<(Token, int)> {
    if c == '+' {
        Some((Token::Plus, 1))
    } else if c == '-' {
        if next == '>' { Some((Token::Arrow, 2)) } else { Some((Token::Minus, 1)) }
    } else if c == '*' {
        Some((Token::Star, 1))
    } else if c == '/' {
        Some((Token::Slash, 1))
    } else if c == '%' {
        Some((Token::Percent, 1))
    } else if c == '=' {
        if next == '=' {
            Some((Token::EqEq, 2))
        } else if next == '>' {
            Some((Token::FatArrow, 2))
        } else {
            Some((Token::Eq, 1))
        }
    } else if c == '!' {
        if next == '=' { Some((Token::BangEq, 2)) } else { None }
    } else if c == '<' {
        if next == '=' { Some((Token::LtEq, 2)) } else { Some((Token::Lt, 1)) }
    } else if c == '>' {
        if next == '=' { Some((Token::GtEq, 2)) } else { Some((Token::Gt, 1)) }
    } else if c == '|' {
        if next == '>' { Some((Token::PipeArrow, 2)) } else { Some((Token::Pipe, 1)) }
    } else if c == '?' {
        Some((Token::Question, 1))
    } else if c == ':' {
        Some((Token::Colon, 1))
    } else if c == ';' {
        Some((Token::Semi, 1))
    } else if c == ',' {
        Some((Token::Comma, 1))
    } else if c == '(' {
        Some((Token::LParen, 1))
    } else if c == ')' {
        Some((Token::RParen, 1))
    } else if c == '[' {
        Some((Token::LBracket, 1))
    } else if c == ']' {
        Some((Token::RBracket, 1))
    } else if c == '{' {
        Some((Token::LBrace, 1))
    } else if c == '}' {
        Some((Token::RBrace, 1))
    } else if c == '.' {
        if next == '.' { Some((Token::DotDot, 2)) } else { Some((Token::Dot, 1)) }
    } else {
        None
    }
}

pub fn punct_exec(c: char, next: char) -> (r: Option<(Token, usize)>)
    ensures
        match punct(c, next) {
            Some((t, n)) => r matches Some((t2, n2)) && t2 == t && n2 == n,
            None => r is None,
        },
{
    if c == '+' {
        Some((Token::Plus, 1))
    } else if c == '-' {
        if next == '>' { Some((Token::Arrow, 2)) } else { Some((Token::Minus, 1)) }
    } else if c == '*' {
        Some((Token::Star, 1))
    } else if c == '/' {
        Some((Token::Slash, 1))
    } else if c == '%' {
        Some((Token::Percent, 1))
    } else if c == '=' {
        if next == '=' {
            Some((Token::EqEq, 2))
        } else if next == '>' {
            Some((Token::FatArrow, 2))
        } else {
            Some((Token::Eq, 1))
        }
    } else if c == '!' {
        if next == '=' { Some((Token::BangEq, 2)) } else { None }
    } else if c == '<' {
        if next == '=' { Some((Token::LtEq, 2)) } else { Some((Token::Lt, 1)) }
    } else if c == '>' {
        if next == '=' { Some((Token::GtEq, 2)) } else { Some((Token::Gt, 1)) }
    } else if c == '|' {
        if next == '>' { Some((Token::PipeArrow, 2)) } else { Some((Token::Pipe, 1)) }
    } else if c == '?' {
        Some((Token::Question, 1))
    } else if c == ':' {
        Some((Token::Colon, 1))
    } else if c == ';' {
        Some((Token::Semi, 1))
    } else if c == ',' {
        Some((Token::Comma, 1))
    } else if c == '(' {
        Some((Token::LParen, 1))
    } else if c == ')' {
        Some((Token::RParen, 1))
    } else if c == '[' {
        Some((Token::LBracket, 1))
    } else if c == ']' {
        Some((Token::RBracket, 1))
    } else if c == '{' {
        Some((Token::LBrace, 1))
    } else if c == '}' {
        Some((Token::RBrace, 1))
    } else if c == '.' {
        if next == '.' { Some((Token::DotDot, 2)) } else { Some((Token::Dot, 1)) }
    } else {
        None
    }
}

pub open spec fn word_extern() -> Seq<char> {
    seq!['@', 'e', 'x', 't', 'e', 'r', 'n']
}

pub open spec fn word_index() -> Seq<char> {
    seq!['@', 'i', 'n', 'd', 'e', 'x']
}

pub open spec fn word_invariant() -> Seq<char> {
    seq!['@', 'i', 'n', 'v', 'a', 'r', 'i', 'a', 'n', 't']
}

/// How many leading characters of `w` (from index `k` on) the input repeats at `i + k`.
pub open spec fn common_prefix(s: Seq<char>, i: int, w: Seq<char>, k: int) -> int
    decreases w.len() - k,
{
    if 0 <= k < w.len() && at(s, i + k) == w[k] {
        common_prefix(s, i, w, k + 1)
    } else {
        k
    }
}

pub proof fn lemma_common_prefix(s: Seq<char>, i: int, w: Seq<char>, k: int)
    requires
        0 <= k <= w.len(),
        forall|j: int| 0 <= j < w.len() ==> w[j] != '\0',
    ensures
        k <= common_prefix(s, i, w, k) <= w.len(),
        i + common_prefix(s, i, w, k) <= s.len() || i < 0 || common_prefix(s, i, w, k) == k,
    decreases w.len() - k,
{
    if k < w.len() && at(s, i + k) == w[k] {
        lemma_common_prefix(s, i, w, k + 1);
    }
}

pub fn common_prefix_exec(v: &Vec<char>, i: usize, w: &[char]) -> (r: usize)
    requires
        i <= v.len(),
        forall|j: int| 0 <= j < w@.len() ==> w@[j] != '\0',
    ensures
        r == common_prefix(v@, i as int, w@, 0),
        r <= w.len(),
{
    let mut k: usize = 0;
    while k < w.len() && k < v.len() - i && v[i + k] == w[k]
        invariant
            k <= w.len(),
            i <= v.len(),
            forall|j: int| 0 <= j < w@.len() ==> w@[j] != '\0',
            common_prefix(v@, i as int, w@, 0) == common_prefix(v@, i as int, w@, k as int),
        decreases w.len() - k,
    {
        k = k + 1;
    }
    k
}

pub open spec fn max3(a: int, b: int, c: int) -> int {
    if a >= b && a >= c {
        a
    } else if b >= c {
        b
    } else {
        c
    }
}

/// One lexeme starting at `i` (which is neither whitespace nor `#`): the token it
/// yields (none for text that no token matches) and the index just after it.
///
/// This is longest-match lexing: a number takes all its digits, then a fraction
/// (`.` followed by a digit) or a unit letter; a word takes all identifier
/// characters and is a keyword when it spells one; a quoted string runs to the
/// matching quote (unterminated, it swallows the rest of the input); text that
/// starts a decorator but does not complete one is dropped up to where it stops
/// matching; any other unmatched character is dropped alone.
pub open spec fn scan(s: Seq<char>, i: int) -> (Option<TokenV>, int) {
    let c = s[i];
    if is_digit(c) {
        let d = run_end(s, i, CharClass::Digit);
        if at(s, d) == '.' && is_digit(at(s, d + 1)) {
            let e = run_end(s, d + 1, CharClass::Digit);
            (Some(TokenV::Float(s.subrange(i, e))), e)
        } else {
            match dur_unit(at(s, d)) {
                Some(u) => (Some(TokenV::Dur(u, digits_value(s.subrange(i, d)) as int)), d + 1),
                None => (Some(TokenV::Int(digits_value(s.subrange(i, d)) as int)), d),
            }
        }
    } else if is_ident_start(c) {
        let e = run_end(s, i, CharClass::IdentChar);
        let w = s.subrange(i, e);
        match keyword(w) {
            Some(t) => (Some(TokenV::Fixed(t)), e),
            None => (Some(TokenV::Ident(w)), e),
        }
    } else if c == '"' || c == '\'' {
        let e = run_end(s, i + 1, CharClass::NotChar(c));
        if e < s.len() {
            (Some(TokenV::Str(s.subrange(i + 1, e))), e + 1)
        } else {
            (None, s.len() as int)
        }
    } else if c == '@' {
        let a = common_prefix(s, i, word_extern(), 0);
        let b = common_prefix(s, i, word_index(), 0);
        let v = common_prefix(s, i, word_invariant(), 0);
        if a == 7 {
            (Some(TokenV::Fixed(Token::Extern)), i + 7)
        } else if b == 6 {
            (Some(TokenV::Fixed(Token::Index)), i + 6)
        } else if v == 10 {
            (Some(TokenV::Fixed(Token::Invariant)), i + 10)
        } else {
            (None, i + max3(a, b, v))
        }
    } else {
        match punct(c, at(s, i + 1)) {
            Some((t, n)) => (Some(TokenV::Fixed(t)), i + n),
            None => (None, i + 1),
        }
    }
}

pub proof fn lemma_scan_advances(s: Seq<char>, i: int)
    requires
        0 <= i < s.len(),
    ensures
        i < scan(s, i).1 <= s.len(),
{
    let c = s[i];
    lemma_run_end(s, i, CharClass::Digit);
    lemma_run_end(s, i, CharClass::IdentChar);
    if is_digit(c) {
        let d = run_end(s, i, CharClass::Digit);
        if at(s, d) == '.' && is_digit(at(s, d + 1)) {
            lemma_run_end(s, d + 1, CharClass::Digit);
        }
    } else if c == '"' || c == '\'' {
        lemma_run_end(s, i + 1, CharClass::NotChar(c));
    } else if c == '@' {
        lemma_common_prefix(s, i, word_extern(), 0);
        lemma_common_prefix(s, i, word_index(), 0);
        lemma_common_prefix(s, i, word_invariant(), 0);
        assert(at(s, i) == '@');
        assert(common_prefix(s, i, word_extern(), 0) >= 1) by {
            assert(word_extern()[0] == '@');
            assert(common_prefix(s, i, word_extern(), 0) == common_prefix(s, i, word_extern(), 1));
            lemma_common_prefix(s, i, word_extern(), 1);
        }
    }
}

/// The tokens of `s` from index `i` on, each with its start and end character index.
/// Whitespace and `#` comments separate tokens and yield none.
pub open spec fn lex_from(s: Seq<char>, i: int) -> Seq<(TokenV, int, int)>
    decreases s.len() - i,
{
    if i < 0 || i >= s.len() {
        Seq::empty()
    } else if is_space(s[i]) {
        proof {
            lemma_run_end(s, i + 1, CharClass::Space);
        }
        lex_from(s, run_end(s, i + 1, CharClass::Space))
    } else if s[i] == '#' {
        proof {
            lemma_run_end(s, i + 1, CharClass::NotNewline);
        }
        lex_from(s, run_end(s, i + 1, CharClass::NotNewline))
    } else {
        proof {
            lemma_scan_advances(s, i);
        }
        let (t, e) = scan(s, i);
        match t {
            Some(tv) => seq![(tv, i, e)] + lex_from(s, e),
            None => lex_from(s, e),
        }
    }
}

/// The tokens of a whole source text.
pub open spec fn lex(s: Seq<char>) -> Seq<(TokenV, int, int)> {
    lex_from(s, 0)
}

/// The tokens of `s` from `i` on come in order, each within the text after
/// `i`, none overlapping the next, and none of them a comment.
pub proof fn lemma_lex_ordered(s: Seq<char>, i: int)
    requires
        0 <= i,
    ensures
        forall|k: int|
            0 <= k < lex_from(s, i).len() ==> {
                &&& i <= (#[trigger] lex_from(s, i)[k]).1
                &&& lex_from(s, i)[k].1 < lex_from(s, i)[k].2
                &&& lex_from(s, i)[k].2 <= s.len()
                &&& lex_from(s, i)[k].0 != TokenV::Fixed(Token::Comment)
            },
        forall|k: int|
            0 <= k < lex_from(s, i).len() - 1 ==> (#[trigger] lex_from(s, i)[k]).2 <= lex_from(
                s,
                i,
            )[k + 1].1,
    decreases s.len() - i,
{
    if i >= s.len() {
    } else if is_space(s[i]) {
        lemma_run_end(s, i + 1, CharClass::Space);
        lemma_lex_ordered(s, run_end(s, i + 1, CharClass::Space));
    } else if s[i] == '#' {
        lemma_run_end(s, i + 1, CharClass::NotNewline);
        lemma_lex_ordered(s, run_end(s, i + 1, CharClass::NotNewline));
    } else {
        lemma_scan_advances(s, i);
        let (t, e) = scan(s, i);
        lemma_lex_ordered(s, e);
        let rest = lex_from(s, e);
        match t {
            Some(tv) => {
                lemma_scan_not_comment(s, i);
                let l = seq![(tv, i, e)] + rest;
                assert(lex_from(s, i) == l);
                assert forall|k: int| 0 <= k < l.len() implies {
                    &&& i <= (#[trigger] l[k]).1
                    &&& l[k].1 < l[k].2
                    &&& l[k].2 <= s.len()
                    &&& l[k].0 != TokenV::Fixed(Token::Comment)
                } by {
                    if k > 0 {
                        assert(l[k] == rest[k - 1]);
                    }
                }
                assert forall|k: int| 0 <= k < l.len() - 1 implies (#[trigger] l[k]).2 <= l[k
                    + 1].1 by {
                    if k > 0 {
                        assert(l[k] == rest[k - 1]);
                        assert(l[k + 1] == rest[k]);
                    } else {
                        assert(l[1] == rest[0]);
                    }
                }
            },
            None => {},
        }
    }
}

/// A scanned token is never a comment: comments are skipped before scanning.
pub proof fn lemma_scan_not_comment(s: Seq<char>, i: int)
    requires
        0 <= i < s.len(),
    ensures
        scan(s, i).0 != Some(TokenV::Fixed(Token::Comment)),
{
}

/// Whether a number token fits the integer type the lexer gives it.
pub open spec fn token_fits(t: TokenV) -> bool {
    match t {
        TokenV::Int(n) => n <= i64::MAX,
        TokenV::Dur(_, n) => n <= u64::MAX,
        _ => true,
    }
}

/// Every integer literal of `s` fits `i64` and every duration fits `u64`.
pub open spec fn lexable(s: Seq<char>) -> bool {
    forall|k: int| 0 <= k < lex(s).len() ==> token_fits(#[trigger] lex(s)[k].0)
}

fn make_string(source: &str, a: usize, b: usize) -> (r: String)
    requires
        a <= b <= source@.len(),
    ensures
        r@ == source@.subrange(a as int, b as int),
{
    let sub = source.substring_char(a, b);
    String::from_str(sub)
}

/// Executes [`scan`] at `i`.
fn scan_exec(source: &str, v: &Vec<char>, i: usize) -> (r: (Option<Token>, usize))
    requires
        v@ == source@,
        i < v.len(),
        scan(v@, i as int).0 matches Some(tv) ==> token_fits(tv),
    ensures
        r.1 == scan(v@, i as int).1,
        match scan(v@, i as int).0 {
            Some(tv) => r.0 matches Some(t) && token_view(t) == tv,
            None => r.0 is None,
        },
{
    proof {
        lemma_run_end(v@, i as int, CharClass::Digit);
        lemma_run_end(v@, i as int, CharClass::IdentChar);
    }
    let c = v[i];
    if '0' <= c && c <= '9' {
        let d = run_end_exec(v, i, CharClass::Digit);
        let cd = at_exec(v, d);
        if cd == '.' && d < v.len() && {
            let n = at_exec(v, d + 1);
            '0' <= n && n <= '9'
        } {
            let e = run_end_exec(v, d + 1, CharClass::Digit);
            return (Some(Token::FloatLiteral(make_string(source, i, e))), e);
        }
        let ghost dval = digits_value(v@.subrange(i as int, d as int));
        if cd == 's' || cd == 'm' || cd == 'h' || cd == 'd' || cd == 'w' {
            let val = digits_value_exec(v, i, d);
            let t = if cd == 's' {
                Token::DurationSec(val)
            } else if cd == 'm' {
                Token::DurationMin(val)
            } else if cd == 'h' {
                Token::DurationHour(val)
            } else if cd == 'd' {
                Token::DurationDay(val)
            } else {
                Token::DurationWeek(val)
            };
            return (Some(t), d + 1);
        }
        let val = digits_value_exec(v, i, d);
        (Some(Token::IntLiteral(val as i64)), d)
    } else if ('a' <= c && c <= 'z') || ('A' <= c && c <= 'Z') || c == '_' {
        let e = run_end_exec(v, i, CharClass::IdentChar);
        match keyword_exec(v, i, e) {
            Some(t) => (Some(t), e),
            None => (Some(Token::Ident(make_string(source, i, e))), e),
        }
    } else if c == '"' || c == '\'' {
        let e = run_end_exec(v, i + 1, CharClass::NotChar(c));
        if e < v.len() {
            (Some(Token::StringLiteral(make_string(source, i + 1, e))), e + 1)
        } else {
            (None, v.len())
        }
    } else if c == '@' {
        let a = common_prefix_exec(v, i, &['@', 'e', 'x', 't', 'e', 'r', 'n']);
        let b = common_prefix_exec(v, i, &['@', 'i', 'n', 'd', 'e', 'x']);
        let w = common_prefix_exec(v, i, &['@', 'i', 'n', 'v', 'a', 'r', 'i', 'a', 'n', 't']);
        assert(word_extern() == seq!['@', 'e', 'x', 't', 'e', 'r', 'n']);
        proof {
            lemma_scan_advances(v@, i as int);
        }
        if a == 7 {
            (Some(Token::Extern), i + 7)
        } else if b == 6 {
            (Some(Token::Index), i + 6)
        } else if w == 10 {
            (Some(Token::Invariant), i + 10)
        } else {
            let m = if a >= b && a >= w {
                a
            } else if b >= w {
                b
            } else {
                w
            };
            (None, i + m)
        }
    } else {
        let next = if i + 1 < v.len() {
            v[i + 1]
        } else {
            '\0'
        };
        match punct_exec(c, next) {
            Some((t, n)) => (Some(t), i + n),
            None => (None, i + 1),
        }
    }
}

/// Splits source text into tokens, each with the byte range it occupies.
/// Whitespace and `#` comments yield no token; text that no token matches is dropped.
pub fn tokenize(source: &str) -> (r: Vec<(Token, std::ops::Range<usize>)>)
    requires
        lexable(source@),
    ensures
        r.len() == lex(source@).len(),
        forall|k: int|
            0 <= k < r.len() ==> {
                &&& token_view(#[trigger] r[k].0) == lex(source@)[k].0
                &&& r[k].1.start == byte_offset(source@, lex(source@)[k].1)
                &&& r[k].1.end == byte_offset(source@, lex(source@)[k].2)
            },
{
    let v = collect_chars(source);
    let bytes = source.as_bytes();
    let total = bytes.len();
    let n = v.len();
    let mut i: usize = 0;
    let mut b: usize = 0;
    let mut out: Vec<(Token, std::ops::Range<usize>)> = Vec::new();
    let ghost s = source@;
    let ghost mut done: Seq<(TokenV, int, int)> = Seq::empty();
    assert(s.take(0) =~= Seq::<char>::empty());
    assert(encode_utf8(Seq::<char>::empty()) =~= Seq::<u8>::empty());
    while i < n
        invariant
            v@ == s,
            s == source@,
            n == v.len(),
            total == encode_utf8(s).len(),
            i <= n,
            b == byte_offset(s, i as int),
            lexable(s),
            lex(s) == done + lex_from(s, i as int),
            out.len() == done.len(),
            forall|k: int|
                0 <= k < out.len() ==> {
                    &&& token_view(#[trigger] out[k].0) == done[k].0
                    &&& out[k].1.start == byte_offset(s, done[k].1)
                    &&& out[k].1.end == byte_offset(s, done[k].2)
                },
        decreases n - i,
    {
        let c = v[i];
        if c == ' ' || c == '\t' || c == '\n' || c == '\r' {
            let e = run_end_exec(&v, i + 1, CharClass::Space);
            b = advance_offset(&v, i, e, b, total);
            i = e;
        } else if c == '#' {
            let e = run_end_exec(&v, i + 1, CharClass::NotNewline);
            b = advance_offset(&v, i, e, b, total);
            i = e;
        } else {
            proof {
                lemma_scan_advances(s, i as int);
                assert(!is_space(s[i as int]) && s[i as int] != '#');
                if scan(s, i as int).0 is Some {
                    let sc = scan(s, i as int);
                    assert(lex_from(s, i as int) == seq![(sc.0->0, i as int, sc.1)] + lex_from(s, sc.1));
                    assert(lex(s)[done.len() as int] == lex_from(s, i as int)[0]);
                    assert(token_fits(lex(s)[done.len() as int].0));
                }
            }
            let (t, e) = scan_exec(source, &v, i);
            let e_b = advance_offset(&v, i, e, b, total);
            match t {
                Some(tok) => {
                    let ghost entry = (token_view(tok), i as int, e as int);
                    out.push((tok, std::ops::Range { start: b, end: e_b }));
                    proof {
                        assert(lex_from(s, i as int) == seq![entry] + lex_from(s, e as int));
                        assert(done + lex_from(s, i as int) =~= done.push(entry) + lex_from(
                            s,
                            e as int,
                        ));
                        done = done.push(entry);
                    }
                },
                None => {},
            }
            b = e_b;
            i = e;
        }
    }
    assert(done + lex_from(s, n as int) =~= done);
    out
}

/// `w` is how token `t` is written: the fixed text of a keyword or symbol,
/// the name of an identifier, the digits of a number (with the unit letter of
/// a duration), or the contents of a string between two equal quotes.
pub open spec fn spelled(t: TokenV, w: Seq<char>) -> bool {
    match t {
        TokenV::Fixed(k) => w == fixed_text(k),
        TokenV::Ident(x) => w == x,
        TokenV::Float(x) => w == x,
        TokenV::Int(n) => (forall|j: int| 0 <= j < w.len() ==> is_digit(#[trigger] w[j]))
            && digits_value(w) == n,
        TokenV::Dur(u, n) => w.len() >= 2 && (forall|j: int|
            0 <= j < w.len() - 1 ==> is_digit(#[trigger] w[j])) && digits_value(w.drop_last()) == n
            && dur_unit(w.last()) == Some(u),
        TokenV::Str(x) => w.len() >= 2 && (w[0] == '"' || w[0] == '\'') && w.last() == w[0]
            && w.subrange(1, w.len() - 1) == x,
    }
}

proof fn lemma_common_prefix_full(s: Seq<char>, i: int, w: Seq<char>, k: int)
    requires
        0 <= i,
        0 <= k <= w.len(),
        forall|j: int| 0 <= j < w.len() ==> w[j] != '\0',
        common_prefix(s, i, w, k) == w.len(),
    ensures
        forall|j: int| k <= j < w.len() ==> at(s, i + j) == #[trigger] w[j],
        k < w.len() ==> i + w.len() <= s.len(),
    decreases w.len() - k,
{
    if k < w.len() {
        assert(at(s, i + k) == w[k]);
        lemma_common_prefix_full(s, i, w, k + 1);
    }
}

proof fn lemma_keyword_spelled(w: Seq<char>)
    ensures
        keyword(w) matches Some(t) ==> fixed_text(t) == w,
{
}

proof fn lemma_punct_spelled(s: Seq<char>, i: int)
    requires
        0 <= i < s.len(),
    ensures
        punct(s[i], at(s, i + 1)) matches Some((t, n)) ==> i + n <= s.len() && fixed_text(t)
            == s.subrange(i, i + n),
{
    match punct(s[i], at(s, i + 1)) {
        Some((t, n)) => {
            if n == 2 {
                assert(at(s, i + 1) != '\0');
                assert(s.subrange(i, i + 2) =~= seq![s[i], s[i + 1]]);
            } else {
                assert(s.subrange(i, i + 1) =~= seq![s[i]]);
            }
        },
        None => {},
    }
}

proof fn lemma_scan_spelled(s: Seq<char>, i: int)
    requires
        0 <= i < s.len(),
    ensures
        scan(s, i).0 matches Some(tv) ==> spelled(tv, s.subrange(i, scan(s, i).1)),
{
    lemma_scan_advances(s, i);
    let c = s[i];
    lemma_run_end(s, i, CharClass::Digit);
    lemma_run_end(s, i, CharClass::IdentChar);
    if is_digit(c) {
        let d = run_end(s, i, CharClass::Digit);
        if at(s, d) == '.' && is_digit(at(s, d + 1)) {
        } else {
            let w = s.subrange(i, d);
            assert forall|j: int| 0 <= j < w.len() implies is_digit(#[trigger] w[j]) by {
                assert(in_class(s[i + j], CharClass::Digit));
            }
            match dur_unit(at(s, d)) {
                Some(u) => {
                    assert(d < s.len());
                    let w2 = s.subrange(i, d + 1);
                    assert(w2.drop_last() =~= w);
                    assert forall|j: int| 0 <= j < w2.len() - 1 implies is_digit(#[trigger] w2[j]) by {
                        assert(w2[j] == w[j]);
                    }
                },
                None => {},
            }
        }
    } else if is_ident_start(c) {
        let e = run_end(s, i, CharClass::IdentChar);
        lemma_keyword_spelled(s.subrange(i, e));
    } else if c == '"' || c == '\'' {
        lemma_run_end(s, i + 1, CharClass::NotChar(c));
        let e = run_end(s, i + 1, CharClass::NotChar(c));
        if e < s.len() {
            let w = s.subrange(i, e + 1);
            assert(w.subrange(1, w.len() - 1) =~= s.subrange(i + 1, e));
            assert(!in_class(s[e], CharClass::NotChar(c)));
        }
    } else if c == '@' {
        let a = common_prefix(s, i, word_extern(), 0);
        let b = common_prefix(s, i, word_index(), 0);
        let v = common_prefix(s, i, word_invariant(), 0);
        if a == 7 {
            lemma_common_prefix_full(s, i, word_extern(), 0);
            assert(s.subrange(i, i + 7) =~= word_extern());
        } else if b == 6 {
            lemma_common_prefix_full(s, i, word_index(), 0);
            assert(s.subrange(i, i + 6) =~= word_index());
        } else if v == 10 {
            lemma_common_prefix_full(s, i, word_invariant(), 0);
            assert(s.subrange(i, i + 10) =~= word_invariant());
        }
    } else {
        lemma_punct_spelled(s, i);
    }
}

/// Every token of `s` from `i` on is spelled by the text it spans.
pub open spec fn spelled_from(s: Seq<char>, i: int) -> bool {
    forall|k: int|
        0 <= k < lex_from(s, i).len() ==> spelled(
            (#[trigger] lex_from(s, i)[k]).0,
            s.subrange(lex_from(s, i)[k].1, lex_from(s, i)[k].2),
        )
}

/// Each token of `s` from `i` on is spelled by the source text it spans.
#[verifier::spinoff_prover]
#[verifier::rlimit(40)]
pub proof fn lemma_lex_spelled(s: Seq<char>, i: int)
    requires
        0 <= i,
    ensures
        spelled_from(s, i),
    decreases s.len() - i,
{
    if i >= s.len() {
        assert(lex_from(s, i).len() == 0);
    } else if is_space(s[i]) {
        lemma_run_end(s, i + 1, CharClass::Space);
        let e = run_end(s, i + 1, CharClass::Space);
        lemma_lex_spelled(s, e);
        assert(lex_from(s, i) == lex_from(s, e));
    } else if s[i] == '#' {
        lemma_run_end(s, i + 1, CharClass::NotNewline);
        let e = run_end(s, i + 1, CharClass::NotNewline);
        lemma_lex_spelled(s, e);
        assert(lex_from(s, i) == lex_from(s, e));
    } else {
        lemma_scan_advances(s, i);
        let (t, e) = scan(s, i);
        lemma_lex_spelled(s, e);
        lemma_lex_ordered(s, e);
        let rest = lex_from(s, e);
        match t {
            Some(tv) => {
                lemma_scan_spelled(s, i);
                let l = seq![(tv, i, e)] + rest;
                assert(lex_from(s, i) == l);
                assert forall|k: int| 0 <= k < l.len() implies spelled(
                    (#[trigger] l[k]).0,
                    s.subrange(l[k].1, l[k].2),
                ) by {
                    if k > 0 {
                        assert(l[k] == rest[k - 1]);
                    }
                }
            },
            None => {
                assert(lex_from(s, i) == rest);
            },
        }
    }
}

/// Every token of `s` from index `i` on fits its integer type.
pub open spec fn fits_from(s: Seq<char>, i: int) -> bool {
    forall|k: int| 0 <= k < lex_from(s, i).len() ==> token_fits(#[trigger] lex_from(s, i)[k].0)
}

#[verifier::spinoff_prover]
#[verifier::rlimit(40)]
proof fn lemma_fits_step(s: Seq<char>, i: int)
    requires
        0 <= i < s.len(),
        !is_space(s[i]),
        s[i] != '#',
    ensures
        fits_from(s, i) == ((scan(s, i).0 matches Some(tv) ==> token_fits(tv)) && fits_from(
            s,
            scan(s, i).1,
        )),
{
    lemma_scan_advances(s, i);
    let (t, e) = scan(s, i);
    let rest = lex_from(s, e);
    match t {
        Some(tv) => {
            let l = seq![(tv, i, e)] + rest;
            assert(lex_from(s, i) == l);
            if fits_from(s, i) {
                assert(token_fits(l[0].0));
                assert forall|k: int| 0 <= k < rest.len() implies token_fits(#[trigger] rest[k].0) by {
                    assert(l[k + 1] == rest[k]);
                }
                assert(fits_from(s, e));
            }
            if token_fits(tv) && fits_from(s, e) {
                assert forall|k: int| 0 <= k < l.len() implies token_fits(#[trigger] l[k].0) by {
                    if k > 0 {
                        assert(l[k] == rest[k - 1]);
                    }
                }
                assert(fits_from(s, i));
            }
        },
        None => {
            assert(lex_from(s, i) == rest);
        },
    }
}

/// Whether the digits of `v` in `[i, e)` denote a number no greater than `bound`.
fn digits_within(v: &Vec<char>, i: usize, e: usize, bound: u64) -> (r: bool)
    requires
        i <= e <= v.len(),
        forall|j: int| i <= j < e ==> is_digit(#[trigger] v@[j]),
    ensures
        r == (digits_value(v@.subrange(i as int, e as int)) <= bound),
{
    let ghost whole = v@.subrange(i as int, e as int);
    let mut acc: u64 = 0;
    let mut k = i;
    assert(v@.subrange(i as int, i as int) =~= Seq::<char>::empty());
    while k < e
        invariant
            i <= k <= e <= v.len(),
            whole == v@.subrange(i as int, e as int),
            forall|j: int| i <= j < e ==> is_digit(#[trigger] v@[j]),
            acc == digits_value(v@.subrange(i as int, k as int)),
            acc <= bound,
        decreases e - k,
    {
        let c = v[k];
        assert(is_digit(v@[k as int]));
        let d = (c as u32 - '0' as u32) as u64;
        let ghost next = v@.subrange(i as int, k + 1);
        assert(next.drop_last() =~= v@.subrange(i as int, k as int));
        assert(whole.take(k + 1 - i) =~= next);
        proof {
            lemma_digits_value_prefix(whole, k + 1 - i);
        }
        match acc.checked_mul(10) {
            Some(x) => match x.checked_add(d) {
                Some(y) => {
                    if y > bound {
                        return false;
                    }
                    acc = y;
                },
                None => {
                    return false;
                },
            },
            None => {
                return false;
            },
        }
        k = k + 1;
    }
    true
}

/// Whether every integer literal of `source` fits `i64` and every duration
/// fits `u64` (see [`lexable`]): what [`tokenize`] needs of its input.
pub fn is_lexable(source: &str) -> (r: bool)
    ensures
        r == lexable(source@),
{
    let v = collect_chars(source);
    let n = v.len();
    let ghost s = source@;
    let mut i: usize = 0;
    assert(lexable(s) == fits_from(s, 0)) by {
        if lexable(s) {
            assert forall|k: int| 0 <= k < lex_from(s, 0).len() implies token_fits(
                #[trigger] lex_from(s, 0)[k].0,
            ) by {
                assert(token_fits(lex(s)[k].0));
            }
        }
        if fits_from(s, 0) {
            assert forall|k: int| 0 <= k < lex(s).len() implies token_fits(#[trigger] lex(s)[k].0) by {
                assert(token_fits(lex_from(s, 0)[k].0));
            }
        }
    }
    while i < n
        invariant
            v@ == s,
            s == source@,
            n == v.len(),
            i <= n,
            lexable(s) == fits_from(s, i as int),
        decreases n - i,
    {
        let c = v[i];
        if c == ' ' || c == '\t' || c == '\n' || c == '\r' {
            proof {
                lemma_run_end(s, i + 1, CharClass::Space);
            }
            let e = run_end_exec(&v, i + 1, CharClass::Space);
            assert(lex_from(s, i as int) == lex_from(s, e as int));
            i = e;
        } else if c == '#' {
            proof {
                lemma_run_end(s, i + 1, CharClass::NotNewline);
            }
            let e = run_end_exec(&v, i + 1, CharClass::NotNewline);
            assert(lex_from(s, i as int) == lex_from(s, e as int));
            i = e;
        } else {
            proof {
                lemma_fits_step(s, i as int);
                lemma_scan_advances(s, i as int);
                lemma_run_end(s, i as int, CharClass::Digit);
            }
            if '0' <= c && c <= '9' {
                let d = run_end_exec(&v, i, CharClass::Digit);
                assert forall|j: int| i <= j < d implies is_digit(#[trigger] v@[j]) by {
                    assert(in_class(s[j], CharClass::Digit));
                }
                let cd = at_exec(&v, d);
                if cd == '.' && d < n && {
                    let nx = at_exec(&v, d + 1);
                    '0' <= nx && nx <= '9'
                } {
                    proof {
                        lemma_run_end(s, d + 1, CharClass::Digit);
                    }
                    i = run_end_exec(&v, d + 1, CharClass::Digit);
                } else if cd == 's' || cd == 'm' || cd == 'h' || cd == 'd' || cd == 'w' {
                    if !digits_within(&v, i, d, 0xFFFF_FFFF_FFFF_FFFF) {
                        return false;
                    }
                    i = d + 1;
                } else {
                    if !digits_within(&v, i, d, 0x7FFF_FFFF_FFFF_FFFF) {
                        return false;
                    }
                    i = d;
                }
            } else {
                let (_, e) = scan_exec(source, &v, i);
                i = e;
            }
        }
    }
    true
}

/// How a payload-free token is written.
pub open spec fn fixed_text(t: Token) -> Seq<char> {
    match t {
        Token::Config => seq!['c', 'o', 'n', 'f', 'i', 'g'],
        Token::Memory => seq!['m', 'e', 'm', 'o', 'r', 'y'],
        Token::Namespace => seq!['n', 'a', 'm', 'e', 's', 'p', 'a', 'c', 'e'],
        Token::Query => seq!['q', 'u', 'e', 'r', 'y'],
        Token::Update => seq!['u', 'p', 'd', 'a', 't', 'e'],
        Token::On => seq!['o', 'n'],
        Token::Fn => seq!['f', 'n'],
        Token::If => seq!['i', 'f'],
        Token::Else => seq!['e', 'l', 's', 'e'],
        Token::Let => seq!['l', 'e', 't'],
        Token::Mut => seq!['m', 'u', 't'],
        Token::Return => seq!['r', 'e', 't', 'u', 'r', 'n'],
        Token::For => seq!['f', 'o', 'r'],
        Token::In => seq!['i', 'n'],
        Token::Policy => seq!['p', 'o', 'l', 'i', 'c', 'y'],
        Token::NoneKw => seq!['n', 'o', 'n', 'e'],
        Token::Extern => seq!['@', 'e', 'x', 't', 'e', 'r', 'n'],
        Token::Index => seq!['@', 'i', 'n', 'd', 'e', 'x'],
        Token::Invariant => seq!['@', 'i', 'n', 'v', 'a', 'r', 'i', 'a', 'n', 't'],
        Token::OnAccess => seq!['o', 'n', '_', 'a', 'c', 'c', 'e', 's', 's'],
        Token::OnConflict => seq!['o', 'n', '_', 'c', 'o', 'n', 'f', 'l', 'i', 'c', 't'],
        Token::Every => seq!['e', 'v', 'e', 'r', 'y'],
        Token::Where => seq!['w', 'h', 'e', 'r', 'e'],
        Token::Order => seq!['o', 'r', 'd', 'e', 'r'],
        Token::Limit => seq!['l', 'i', 'm', 'i', 't'],
        Token::By => seq!['b', 'y'],
        Token::Asc => seq!['a', 's', 'c'],
        Token::Desc => seq!['d', 'e', 's', 'c'],
        Token::From => seq!['f', 'r', 'o', 'm'],
        Token::And => seq!['a', 'n', 'd'],
        Token::Or => seq!['o', 'r'],
        Token::Not => seq!['n', 'o', 't'],
        Token::TyString => seq!['s', 't', 'r', 'i', 'n', 'g'],
        Token::TyInt => seq!['i', 'n', 't'],
        Token::TyFloat => seq!['f', 'l', 'o', 'a', 't'],
        Token::TyBool => seq!['b', 'o', 'o', 'l'],
        Token::TyTimestamp => seq!['t', 'i', 'm', 'e', 's', 't', 'a', 'm', 'p'],
        Token::True => seq!['t', 'r', 'u', 'e'],
        Token::False => seq!['f', 'a', 'l', 's', 'e'],
        Token::Null => seq!['n', 'u', 'l', 'l'],
        Token::Plus => seq!['+'],
        Token::Minus => seq!['-'],
        Token::Star => seq!['*'],
        Token::Slash => seq!['/'],
        Token::Percent => seq!['%'],
        Token::Eq => seq!['='],
        Token::EqEq => seq!['=', '='],
        Token::BangEq => seq!['!', '='],
        Token::Lt => seq!['<'],
        Token::LtEq => seq!['<', '='],
        Token::Gt => seq!['>'],
        Token::GtEq => seq!['>', '='],
        Token::PipeArrow => seq!['|', '>'],
        Token::Question => seq!['?'],
        Token::Colon => seq![':'],
        Token::Semi => seq![';'],
        Token::Comma => seq![','],
        Token::LParen => seq!['('],
        Token::RParen => seq![')'],
        Token::LBracket => seq!['['],
        Token::RBracket => seq![']'],
        Token::LBrace => seq!['{'],
        Token::RBrace => seq!['}'],
        Token::Dot => seq!['.'],
        Token::DotDot => seq!['.', '.'],
        Token::Arrow => seq!['-', '>'],
        Token::FatArrow => seq!['=', '>'],
        Token::Pipe => seq!['|'],
        _ => Seq::empty(),
    }
}

/// How a token is written back: payload-free tokens by their spelling, a float
/// by its shortest decimal spelling, numbers in decimal (durations with their
/// unit letter), identifiers as they are and strings between double quotes.
pub open spec fn token_text(t: TokenV) -> Seq<char> {
    match t {
        TokenV::Fixed(f) => fixed_text(f),
        TokenV::Float(s) => decimal_text(s),
        TokenV::Int(n) => int_text(n),
        TokenV::Dur(u, n) => nat_text(n as nat) + seq![unit_letter(u)],
        TokenV::Ident(s) => s,
        TokenV::Str(s) => seq!['"'] + s + seq!['"'],
    }
}

pub open spec fn unit_letter(u: DurationUnit) -> char {
    match u {
        DurationUnit::Second => 's',
        DurationUnit::Minute => 'm',
        DurationUnit::Hour => 'h',
        DurationUnit::Day => 'd',
        DurationUnit::Week => 'w',
    }
}

fn push_fixed(out: &mut String, lit: &str)
    ensures
        final(out)@ == old(out)@ + lit@,
{
    out.append(lit);
}

impl Token {
    /// The text of the token (see [`token_text`]). A comment is never a token.
    pub fn to_string(&self) -> (r: String)
        requires
            !(self is Comment),
        ensures
            r@ == token_text(token_view(*self)),
    {
        let mut r = String::new();
        match self {
            Token::Config => {
                proof {
                    reveal_strlit("config");
                }
                push_fixed(&mut r, "config");
            },
            Token::Memory => {
                proof {
                    reveal_strlit("memory");
                }
                push_fixed(&mut r, "memory");
            },
            Token::Namespace => {
                proof {
                    reveal_strlit("namespace");
                }
                push_fixed(&mut r, "namespace");
            },
            Token::Query => {
                proof {
                    reveal_strlit("query");
                }
                push_fixed(&mut r, "query");
            },
            Token::Update => {
                proof {
                    reveal_strlit("update");
                }
                push_fixed(&mut r, "update");
            },
            Token::On => {
                proof {
                    reveal_strlit("on");
                }
                push_fixed(&mut r, "on");
            },
            Token::Fn => {
                proof {
                    reveal_strlit("fn");
                }
                push_fixed(&mut r, "fn");
            },
            Token::If => {
                proof {
                    reveal_strlit("if");
                }
                push_fixed(&mut r, "if");
            },
            Token::Else => {
                proof {
                    reveal_strlit("else");
                }
                push_fixed(&mut r, "else");
            },
            Token::Let => {
                proof {
                    reveal_strlit("let");
                }
                push_fixed(&mut r, "let");
            },
            Token::Mut => {
                proof {
                    reveal_strlit("mut");
                }
                push_fixed(&mut r, "mut");
            },
            Token::Return => {
                proof {
                    reveal_strlit("return");
                }
                push_fixed(&mut r, "return");
            },
            Token::For => {
                proof {
                    reveal_strlit("for");
                }
                push_fixed(&mut r, "for");
            },
            Token::In => {
                proof {
                    reveal_strlit("in");
                }
                push_fixed(&mut r, "in");
            },
            Token::Policy => {
                proof {
                    reveal_strlit("policy");
                }
                push_fixed(&mut r, "policy");
            },
            Token::NoneKw => {
                proof {
                    reveal_strlit("none");
                }
                push_fixed(&mut r, "none");
            },
            Token::Extern => {
                proof {
                    reveal_strlit("@extern");
                }
                push_fixed(&mut r, "@extern");
            },
            Token::Index => {
                proof {
                    reveal_strlit("@index");
                }
                push_fixed(&mut r, "@index");
            },
            Token::Invariant => {
                proof {
                    reveal_strlit("@invariant");
                }
                push_fixed(&mut r, "@invariant");
            },
            Token::OnAccess => {
                proof {
                    reveal_strlit("on_access");
                }
                push_fixed(&mut r, "on_access");
            },
            Token::OnConflict => {
                proof {
                    reveal_strlit("on_conflict");
                }
                push_fixed(&mut r, "on_conflict");
            },
            Token::Every => {
                proof {
                    reveal_strlit("every");
                }
                push_fixed(&mut r, "every");
            },
            Token::Where => {
                proof {
                    reveal_strlit("where");
                }
                push_fixed(&mut r, "where");
            },
            Token::Order => {
                proof {
                    reveal_strlit("order");
                }
                push_fixed(&mut r, "order");
            },
            Token::Limit => {
                proof {
                    reveal_strlit("limit");
                }
                push_fixed(&mut r, "limit");
            },
            Token::By => {
                proof {
                    reveal_strlit("by");
                }
                push_fixed(&mut r, "by");
            },
            Token::Asc => {
                proof {
                    reveal_strlit("asc");
                }
                push_fixed(&mut r, "asc");
            },
            Token::Desc => {
                proof {
                    reveal_strlit("desc");
                }
                push_fixed(&mut r, "desc");
            },
            Token::From => {
                proof {
                    reveal_strlit("from");
                }
                push_fixed(&mut r, "from");
            },
            Token::And => {
                proof {
                    reveal_strlit("and");
                }
                push_fixed(&mut r, "and");
            },
            Token::Or => {
                proof {
                    reveal_strlit("or");
                }
                push_fixed(&mut r, "or");
            },
            Token::Not => {
                proof {
                    reveal_strlit("not");
                }
                push_fixed(&mut r, "not");
            },
            Token::TyString => {
                proof {
                    reveal_strlit("string");
                }
                push_fixed(&mut r, "string");
            },
            Token::TyInt => {
                proof {
                    reveal_strlit("int");
                }
                push_fixed(&mut r, "int");
            },
            Token::TyFloat => {
                proof {
                    reveal_strlit("float");
                }
                push_fixed(&mut r, "float");
            },
            Token::TyBool => {
                proof {
                    reveal_strlit("bool");
                }
                push_fixed(&mut r, "bool");
            },
            Token::TyTimestamp => {
                proof {
                    reveal_strlit("timestamp");
                }
                push_fixed(&mut r, "timestamp");
            },
            Token::True => {
                proof {
                    reveal_strlit("true");
                }
                push_fixed(&mut r, "true");
            },
            Token::False => {
                proof {
                    reveal_strlit("false");
                }
                push_fixed(&mut r, "false");
            },
            Token::Null => {
                proof {
                    reveal_strlit("null");
                }
                push_fixed(&mut r, "null");
            },
            Token::Plus => {
                proof {
                    reveal_strlit("+");
                }
                push_fixed(&mut r, "+");
            },
            Token::Minus => {
                proof {
                    reveal_strlit("-");
                }
                push_fixed(&mut r, "-");
            },
            Token::Star => {
                proof {
                    reveal_strlit("*");
                }
                push_fixed(&mut r, "*");
            },
            Token::Slash => {
                proof {
                    reveal_strlit("/");
                }
                push_fixed(&mut r, "/");
            },
            Token::Percent => {
                proof {
                    reveal_strlit("%");
                }
                push_fixed(&mut r, "%");
            },
            Token::Eq => {
                proof {
                    reveal_strlit("=");
                }
                push_fixed(&mut r, "=");
            },
            Token::EqEq => {
                proof {
                    reveal_strlit("==");
                }
                push_fixed(&mut r, "==");
            },
            Token::BangEq => {
                proof {
                    reveal_strlit("!=");
                }
                push_fixed(&mut r, "!=");
            },
            Token::Lt => {
                proof {
                    reveal_strlit("<");
                }
                push_fixed(&mut r, "<");
            },
            Token::LtEq => {
                proof {
                    reveal_strlit("<=");
                }
                push_fixed(&mut r, "<=");
            },
            Token::Gt => {
                proof {
                    reveal_strlit(">");
                }
                push_fixed(&mut r, ">");
            },
            Token::GtEq => {
                proof {
                    reveal_strlit(">=");
                }
                push_fixed(&mut r, ">=");
            },
            Token::PipeArrow => {
                proof {
                    reveal_strlit("|>");
                }
                push_fixed(&mut r, "|>");
            },
            Token::Question => {
                proof {
                    reveal_strlit("?");
                }
                push_fixed(&mut r, "?");
            },
            Token::Colon => {
                proof {
                    reveal_strlit(":");
                }
                push_fixed(&mut r, ":");
            },
            Token::Semi => {
                proof {
                    reveal_strlit(";");
                }
                push_fixed(&mut r, ";");
            },
            Token::Comma => {
                proof {
                    reveal_strlit(",");
                }
                push_fixed(&mut r, ",");
            },
            Token::LParen => {
                proof {
                    reveal_strlit("(");
                }
                push_fixed(&mut r, "(");
            },
            Token::RParen => {
                proof {
                    reveal_strlit(")");
                }
                push_fixed(&mut r, ")");
            },
            Token::LBracket => {
                proof {
                    reveal_strlit("[");
                }
                push_fixed(&mut r, "[");
            },
            Token::RBracket => {
                proof {
                    reveal_strlit("]");
                }
                push_fixed(&mut r, "]");
            },
            Token::LBrace => {
                proof {
                    reveal_strlit("{");
                }
                push_fixed(&mut r, "{");
            },
            Token::RBrace => {
                proof {
                    reveal_strlit("}");
                }
                push_fixed(&mut r, "}");
            },
            Token::Dot => {
                proof {
                    reveal_strlit(".");
                }
                push_fixed(&mut r, ".");
            },
            Token::DotDot => {
                proof {
                    reveal_strlit("..");
                }
                push_fixed(&mut r, "..");
            },
            Token::Arrow => {
                proof {
                    reveal_strlit("->");
                }
                push_fixed(&mut r, "->");
            },
            Token::FatArrow => {
                proof {
                    reveal_strlit("=>");
                }
                push_fixed(&mut r, "=>");
            },
            Token::Pipe => {
                proof {
                    reveal_strlit("|");
                }
                push_fixed(&mut r, "|");
            },
            Token::FloatLiteral(s) => {
                r = decimal_text_exec(s);
            },
            Token::DurationSec(v) => {
                r = u64_to_text(*v);
                proof {
                    reveal_strlit("s");
                }
                r.append("s");
            },
            Token::DurationMin(v) => {
                r = u64_to_text(*v);
                proof {
                    reveal_strlit("m");
                }
                r.append("m");
            },
            Token::DurationHour(v) => {
                r = u64_to_text(*v);
                proof {
                    reveal_strlit("h");
                }
                r.append("h");
            },
            Token::DurationDay(v) => {
                r = u64_to_text(*v);
                proof {
                    reveal_strlit("d");
                }
                r.append("d");
            },
            Token::DurationWeek(v) => {
                r = u64_to_text(*v);
                proof {
                    reveal_strlit("w");
                }
                r.append("w");
            },
            Token::IntLiteral(n) => {
                r = i64_to_text(*n);
            },
            Token::Ident(s) => {
                r = s.clone();
            },
            Token::StringLiteral(s) => {
                proof {
                    reveal_strlit("\"");
                }
                r.append("\"");
                r.append(s.as_str());
                r.append("\"");
            },
            Token::Comment => {},
        }
        assert(r@ =~= token_text(token_view(*self)));
        r
    }
}

// ───────────────────────────── printing and lexing back ─────────────────────────────

/// `w` is a word: a letter or `_`, then letters, digits and `_`.
pub open spec fn is_word(w: Seq<char>) -> bool {
    &&& w.len() > 0
    &&& is_ident_start(w[0])
    &&& forall|j: int| 0 <= j < w.len() ==> is_ident_char(#[trigger] w[j])
}

/// The token that a word is: a keyword, or else an identifier.
pub open spec fn word_token(w: Seq<char>) -> TokenV {
    match keyword(w) {
        Some(t) => TokenV::Fixed(t),
        None => TokenV::Ident(w),
    }
}

proof fn lemma_lex_one(s: Seq<char>, tv: TokenV)
    requires
        s.len() > 0,
        !is_space(s[0]),
        s[0] != '#',
        scan(s, 0) == (Some(tv), s.len() as int),
    ensures
        lex(s) == seq![(tv, 0int, s.len() as int)],
{
    lemma_scan_advances(s, 0);
    assert(lex_from(s, s.len() as int) == Seq::<(TokenV, int, int)>::empty());
    assert(lex_from(s, 0) =~= seq![(tv, 0int, s.len() as int)] + lex_from(s, s.len() as int));
}

/// A word lexes as one token: its keyword, or an identifier.
pub proof fn lemma_lex_word(w: Seq<char>)
    requires
        is_word(w),
    ensures
        lex(w) == seq![(word_token(w), 0int, w.len() as int)],
{
    lemma_run_end_at(w, 0, w.len() as int, CharClass::IdentChar);
    assert(w.subrange(0, w.len() as int) =~= w);
    lemma_lex_one(w, word_token(w));
}

/// Text between two equal quotes that does not hold that quote lexes as one
/// string token.
pub proof fn lemma_lex_quoted(q: char, x: Seq<char>)
    requires
        q == '"' || q == '\'',
        forall|j: int| 0 <= j < x.len() ==> #[trigger] x[j] != q,
    ensures
        lex(seq![q] + x + seq![q]) == seq![(TokenV::Str(x), 0int, x.len() as int + 2)],
{
    let s = seq![q] + x + seq![q];
    let e = x.len() as int + 1;
    assert forall|j: int| 1 <= j < e implies in_class(#[trigger] s[j], CharClass::NotChar(q)) by {
        assert(s[j] == x[j - 1]);
    }
    assert(s[e] == q);
    lemma_run_end_at(s, 1, e, CharClass::NotChar(q));
    assert(s.subrange(1, e) =~= x);
    lemma_lex_one(s, TokenV::Str(x));
}

/// The decimal text of a number lexes as that integer.
pub proof fn lemma_lex_number(n: nat)
    ensures
        lex(nat_text(n)) == seq![(TokenV::Int(n as int), 0int, nat_text(n).len() as int)],
{
    let s = nat_text(n);
    lemma_nat_text(n);
    lemma_run_end_at(s, 0, s.len() as int, CharClass::Digit);
    assert(s.subrange(0, s.len() as int) =~= s);
    lemma_lex_one(s, TokenV::Int(n as int));
}

/// A number followed by a unit letter lexes as that duration.
pub proof fn lemma_lex_duration(n: nat, u: DurationUnit)
    ensures
        lex(nat_text(n) + seq![unit_letter(u)]) == seq![
            (TokenV::Dur(u, n as int), 0int, nat_text(n).len() as int + 1),
        ],
{
    let d = nat_text(n);
    let s = d + seq![unit_letter(u)];
    lemma_nat_text(n);
    assert forall|j: int| 0 <= j < d.len() implies in_class(#[trigger] s[j], CharClass::Digit) by {
        assert(s[j] == d[j]);
    }
    lemma_run_end_at(s, 0, d.len() as int, CharClass::Digit);
    assert(s.subrange(0, d.len() as int) =~= d);
    lemma_lex_one(s, TokenV::Dur(u, n as int));
}

/// Every character of `w` from index `j` on is in class `cl`.
pub open spec fn all_in_class(w: Seq<char>, j: int, cl: CharClass) -> bool
    decreases w.len() - j,
{
    if j < 0 || j >= w.len() {
        true
    } else {
        in_class(w[j], cl) && all_in_class(w, j + 1, cl)
    }
}

proof fn lemma_all_in_class(w: Seq<char>, j: int, cl: CharClass)
    requires
        0 <= j,
        all_in_class(w, j, cl),
    ensures
        forall|m: int| j <= m < w.len() ==> in_class(#[trigger] w[m], cl),
    decreases w.len() - j,
{
    if j < w.len() {
        lemma_all_in_class(w, j + 1, cl);
    }
}

/// A keyword's text lexes as that keyword.
proof fn lemma_lex_keyword(k: Token)
    requires
        fixed_text(k).len() > 0,
        is_ident_start(fixed_text(k)[0]),
        all_in_class(fixed_text(k), 0, CharClass::IdentChar),
        keyword(fixed_text(k)) == Some(k),
    ensures
        lex(fixed_text(k)) == seq![(TokenV::Fixed(k), 0int, fixed_text(k).len() as int)],
{
    let w = fixed_text(k);
    lemma_all_in_class(w, 0, CharClass::IdentChar);
    assert forall|j: int| 0 <= j < w.len() implies is_ident_char(#[trigger] w[j]) by {
        assert(in_class(w[j], CharClass::IdentChar));
    }
    lemma_lex_word(w);
}

/// A symbol's text lexes as that symbol.
proof fn lemma_lex_symbol(k: Token)
    requires
        1 <= fixed_text(k).len() <= 2,
        !is_space(fixed_text(k)[0]),
        !is_digit(fixed_text(k)[0]),
        !is_ident_start(fixed_text(k)[0]),
        fixed_text(k)[0] != '#',
        fixed_text(k)[0] != '"',
        fixed_text(k)[0] != '\'',
        fixed_text(k)[0] != '@',
        punct(fixed_text(k)[0], at(fixed_text(k), 1)) == Some((k, fixed_text(k).len() as int)),
    ensures
        lex(fixed_text(k)) == seq![(TokenV::Fixed(k), 0int, fixed_text(k).len() as int)],
{
    lemma_lex_one(fixed_text(k), TokenV::Fixed(k));
}

/// A decorator's text lexes as that decorator.
proof fn lemma_lex_decorator(k: Token)
    requires
        k is Extern || k is Index || k is Invariant,
    ensures
        lex(fixed_text(k)) == seq![(TokenV::Fixed(k), 0int, fixed_text(k).len() as int)],
{
    reveal_with_fuel(common_prefix, 11);
    let s = fixed_text(k);
    assert(s[0] == '@');
    if k is Extern {
        assert(common_prefix(s, 0, word_extern(), 0) == 7);
    } else if k is Index {
        assert(common_prefix(s, 0, word_extern(), 0) == 1);
        assert(common_prefix(s, 0, word_index(), 0) == 6);
    } else {
        assert(common_prefix(s, 0, word_extern(), 0) == 1);
        assert(common_prefix(s, 0, word_index(), 0) == 3);
        assert(common_prefix(s, 0, word_invariant(), 0) == 10);
    }
    lemma_lex_one(s, TokenV::Fixed(k));
}

/// The text of every payload-free token but a comment lexes back as that
/// token: keywords, decorators, operators and delimiters.
pub proof fn lemma_lex_fixed(k: Token)
    requires
        token_view(k) == TokenV::Fixed(k),
        !(k is Comment),
    ensures
        lex(fixed_text(k)) == seq![(TokenV::Fixed(k), 0int, fixed_text(k).len() as int)],
{
    reveal_with_fuel(all_in_class, 12);
    match k {
        Token::Config | Token::Memory | Token::Namespace | Token::Query | Token::Update | Token::On | Token::Fn | Token::If | Token::Else | Token::Let | Token::Mut | Token::Return | Token::For | Token::In | Token::Policy | Token::NoneKw | Token::OnAccess | Token::OnConflict | Token::Every | Token::Where | Token::Order | Token::Limit | Token::By | Token::Asc | Token::Desc | Token::From | Token::And | Token::Or | Token::Not | Token::TyString | Token::TyInt | Token::TyFloat | Token::TyBool | Token::TyTimestamp | Token::True | Token::False | Token::Null => lemma_lex_keyword(k),
        Token::Extern | Token::Index | Token::Invariant => lemma_lex_decorator(k),
        Token::Plus | Token::Minus | Token::Star | Token::Slash | Token::Percent | Token::Eq | Token::EqEq | Token::BangEq | Token::Lt | Token::LtEq | Token::Gt | Token::GtEq | Token::PipeArrow | Token::Question | Token::Colon | Token::Semi | Token::Comma | Token::LParen | Token::RParen | Token::LBracket | Token::RBracket | Token::LBrace | Token::RBrace | Token::Dot | Token::DotDot | Token::Arrow | Token::FatArrow | Token::Pipe => lemma_lex_symbol(k),
        _ => {},
    }
}

/// The tokens whose printed text lexes back to them: every payload-free
/// token but a comment (keywords, decorators, operators, delimiters),
/// identifiers that are words and no keyword, strings without a double
/// quote, numbers that are not negative, and durations.
pub open spec fn reprintable(t: TokenV) -> bool {
    match t {
        TokenV::Fixed(k) => token_view(k) == t && !(k is Comment),
        TokenV::Ident(x) => is_word(x) && keyword(x) is None,
        TokenV::Str(x) => forall|j: int| 0 <= j < x.len() ==> #[trigger] x[j] != '"',
        TokenV::Int(n) => n >= 0,
        TokenV::Dur(_, n) => n >= 0,
        TokenV::Float(_) => false,
    }
}

/// Printing a token (see [`token_text`]) and lexing the text gives the token
/// back, alone, spanning the whole text.
pub proof fn lemma_print_then_lex(t: TokenV)
    requires
        reprintable(t),
    ensures
        lex(token_text(t)) == seq![(t, 0int, token_text(t).len() as int)],
{
    match t {
        TokenV::Fixed(k) => {
            lemma_lex_fixed(k);
        },
        TokenV::Ident(x) => {
            lemma_lex_word(x);
        },
        TokenV::Str(x) => {
            assert(token_text(t) =~= seq!['"'] + x + seq!['"']);
            lemma_lex_quoted('"', x);
        },
        TokenV::Int(n) => {
            assert(int_text(n) == nat_text(n as nat));
            lemma_lex_number(n as nat);
        },
        TokenV::Dur(u, n) => {
            lemma_lex_duration(n as nat, u);
        },
        TokenV::Float(_) => {},
    }
}

} // verus!
