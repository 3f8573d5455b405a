use synapse::lexer::{tokenize, Token};

fn lex(source: &str) -> Vec<Token> {
    tokenize(source).into_iter().map(|(t, _)| t).collect()
}

#[test]
fn keywords() {
    let toks = lex("config memory namespace query update on fn for in policy none");
    assert_eq!(
        toks,
        vec![
            Token::Config,
            Token::Memory,
            Token::Namespace,
            Token::Query,
            Token::Update,
            Token::On,
            Token::Fn,
            Token::For,
            Token::In,
            Token::Policy,
            Token::NoneKw,
        ]
    );
}

#[test]
fn decorators() {
    let toks = lex("@extern @index @invariant");
    assert_eq!(toks, vec![Token::Extern, Token::Index, Token::Invariant]);
}

#[test]
fn types() {
    let toks = lex("string int float bool timestamp");
    assert_eq!(
        toks,
        vec![Token::TyString, Token::TyInt, Token::TyFloat, Token::TyBool, Token::TyTimestamp]
    );
}

#[test]
fn float_literal() {
    let toks = lex("3.14 0.95 1.0");
    assert_eq!(
        toks,
        vec![
            Token::FloatLiteral("3.14".to_string()),
            Token::FloatLiteral("0.95".to_string()),
            Token::FloatLiteral("1.0".to_string()),
        ]
    );
}

#[test]
fn durations() {
    let toks = lex("5s 10m 2h 7d 3w");
    assert_eq!(
        toks,
        vec![
            Token::DurationSec(5),
            Token::DurationMin(10),
            Token::DurationHour(2),
            Token::DurationDay(7),
            Token::DurationWeek(3),
        ]
    );
}

#[test]
fn int_literal() {
    let toks = lex("42 0 999");
    assert_eq!(toks, vec![Token::IntLiteral(42), Token::IntLiteral(0), Token::IntLiteral(999)]);
}

#[test]
fn double_quoted_strings() {
    let toks = lex(r#""hello world" "test""#);
    assert_eq!(
        toks,
        vec![
            Token::StringLiteral("hello world".to_string()),
            Token::StringLiteral("test".to_string()),
        ]
    );
}

#[test]
fn single_quoted_strings() {
    let toks = lex("'hello' 'world'");
    assert_eq!(
        toks,
        vec![Token::StringLiteral("hello".to_string()), Token::StringLiteral("world".to_string())]
    );
}

#[test]
fn comments_skipped() {
    let toks = lex("config # this is a comment\nmemory");
    assert_eq!(toks, vec![Token::Config, Token::Memory]);
}

#[test]
fn operators() {
    let toks = lex("+ - * / % = == != < <= > >= |>");
    assert_eq!(
        toks,
        vec![
            Token::Plus,
            Token::Minus,
            Token::Star,
            Token::Slash,
            Token::Percent,
            Token::Eq,
            Token::EqEq,
            Token::BangEq,
            Token::Lt,
            Token::LtEq,
            Token::Gt,
            Token::GtEq,
            Token::PipeArrow,
        ]
    );
}

#[test]
fn delimiters() {
    let toks = lex(": ; , ( ) [ ] { } . .. -> => | ?");
    assert_eq!(
        toks,
        vec![
            Token::Colon,
            Token::Semi,
            Token::Comma,
            Token::LParen,
            Token::RParen,
            Token::LBracket,
            Token::RBracket,
            Token::LBrace,
            Token::RBrace,
            Token::Dot,
            Token::DotDot,
            Token::Arrow,
            Token::FatArrow,
            Token::Pipe,
            Token::Question,
        ]
    );
}

#[test]
fn pipe_arrow_not_pipe_then_gt() {
    let tokens = tokenize("|>");
    assert_eq!(tokens.len(), 1);
    assert_eq!(tokens[0].0, Token::PipeArrow);
}

#[test]
fn identifiers() {
    let toks = lex("foo bar_baz _priv x123");
    assert_eq!(
        toks,
        vec![
            Token::Ident("foo".to_string()),
            Token::Ident("bar_baz".to_string()),
            Token::Ident("_priv".to_string()),
            Token::Ident("x123".to_string()),
        ]
    );
}

#[test]
fn spans_are_byte_offsets_in_order() {
    let tokens = tokenize("memory é x");
    assert_eq!(tokens.len(), 2);
    assert_eq!(tokens[0].1, 0..6);
    assert_eq!(tokens[1].1, 10..11);
}

#[test]
fn unknown_characters_are_dropped() {
    let toks = lex("config $ memory ! @ext");
    assert_eq!(toks, vec![Token::Config, Token::Memory]);
}

#[test]
fn unterminated_string_is_dropped() {
    let toks = lex("memory \"never closed");
    assert_eq!(toks, vec![Token::Memory]);
}

#[test]
fn token_display() {
    assert_eq!(Token::PipeArrow.to_string(), "|>");
    assert_eq!(Token::StringLiteral("hi".to_string()).to_string(), "\"hi\"");
    assert_eq!(Token::DurationHour(24).to_string(), "24h");
    assert_eq!(Token::FloatLiteral("1.0".to_string()).to_string(), "1");
    assert_eq!(Token::FloatLiteral("0.950".to_string()).to_string(), "0.95");
    assert_eq!(Token::Extern.to_string(), "@extern");
    assert_eq!(Token::LBrace.to_string(), "{");
}

#[test]
fn printed_tokens_lex_back() {
    let tokens = vec![
        Token::Config,
        Token::OnConflict,
        Token::TyTimestamp,
        Token::Ident("memory_store".to_string()),
        Token::StringLiteral("it's here".to_string()),
        Token::IntLiteral(9223372036854775807),
        Token::IntLiteral(0),
        Token::DurationHour(36),
        Token::DurationWeek(2),
    ];
    for t in tokens {
        let text = t.to_string();
        let back = tokenize(&text);
        assert_eq!(back.len(), 1, "{text}");
        assert_eq!(back[0].0, t);
        assert_eq!(back[0].1, 0..text.len());
    }
}

#[test]
fn printed_symbols_and_keywords_lex_back() {
    let toks = vec![
        Token::Config, Token::OnConflict, Token::TyTimestamp, Token::Null, Token::Extern,
        Token::Index, Token::Invariant, Token::Plus, Token::Minus, Token::Arrow, Token::FatArrow,
        Token::EqEq, Token::Eq, Token::BangEq, Token::PipeArrow, Token::Pipe, Token::Dot,
        Token::DotDot, Token::LBrace, Token::Question,
    ];
    for t in toks {
        let text = t.to_string();
        assert_eq!(lex(&text), vec![t]);
    }
}
