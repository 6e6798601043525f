use sk_syntax::tokenizer::{LexError, Tokenizer};
use sk_syntax::types::{Keyword, Op, Position, Primitive, Token, TokenType};

fn lex(input: &str) -> Result<Vec<Token>, LexError> {
    Tokenizer::new().tokenize(input)
}

fn kinds(input: &str) -> Vec<TokenType> {
    lex(input).unwrap().into_iter().map(|t| t.token_type).collect()
}

fn pos(line: i64, col: i64) -> Position {
    Position { line, col }
}

fn ident(s: &str) -> TokenType {
    TokenType::Identifier(s.to_string())
}

#[test]
fn empty_input_has_no_tokens() {
    assert_eq!(lex("").unwrap(), vec![]);
}

#[test]
fn blank_run_is_one_whitespace_token() {
    assert_eq!(kinds("a   b"), vec![ident("a"), TokenType::Whitespace, ident("b")]);
    let toks = lex("a \t b").unwrap();
    assert_eq!(toks.len(), 3);
    assert_eq!(toks[0].pos, pos(1, 2));
    assert_eq!(toks[1].pos, pos(1, 5));
    assert_eq!(toks[2].pos, pos(1, 6));
}

#[test]
fn digits_then_letters_split() {
    assert_eq!(kinds("123a1"), vec![TokenType::Number(123), ident("a1")]);
}

#[test]
fn zero_is_a_single_token() {
    assert_eq!(kinds("0"), vec![TokenType::Number(0)]);
    assert_eq!(kinds("00"), vec![TokenType::Number(0), TokenType::Number(0)]);
    assert_eq!(kinds("05"), vec![TokenType::Number(0), TokenType::Number(5)]);
}

#[test]
fn two_character_operators_win() {
    assert_eq!(
        kinds(">=<"),
        vec![TokenType::Operator(Op::Gte), TokenType::Operator(Op::Lt)]
    );
    assert_eq!(kinds("!="), vec![TokenType::Operator(Op::Neq)]);
    assert_eq!(kinds("!"), vec![TokenType::Operator(Op::Not)]);
    assert_eq!(kinds("<="), vec![TokenType::Operator(Op::Lte)]);
    assert_eq!(kinds(">"), vec![TokenType::Operator(Op::Gt)]);
    assert_eq!(kinds("->"), vec![TokenType::RetArrow]);
    assert_eq!(kinds("-"), vec![TokenType::Operator(Op::Sub)]);
    assert_eq!(kinds("/"), vec![TokenType::Operator(Op::Div)]);
}

#[test]
fn single_character_tokens() {
    assert_eq!(
        kinds("+*%&|=.()[]{};:,"),
        vec![
            TokenType::Operator(Op::Add),
            TokenType::Operator(Op::Mul),
            TokenType::Operator(Op::Mod),
            TokenType::Operator(Op::And),
            TokenType::Operator(Op::Or),
            TokenType::Operator(Op::Eq),
            TokenType::Dot,
            TokenType::LeftParen,
            TokenType::RightParen,
            TokenType::LeftBracket,
            TokenType::RightBracket,
            TokenType::LeftCurly,
            TokenType::RightCurly,
            TokenType::Semicolon,
            TokenType::Colon,
            TokenType::Comma,
        ]
    );
}

#[test]
fn every_keyword_is_recognised() {
    let table = [
        ("let", Keyword::Let),
        ("return", Keyword::Return),
        ("fn", Keyword::Fn),
        ("in", Keyword::In),
        ("is", Keyword::Is),
        ("of", Keyword::Of),
        ("while", Keyword::While),
        ("for", Keyword::For),
        ("if", Keyword::If),
        ("else", Keyword::Else),
        ("int", Keyword::Type(Primitive::Int)),
        ("str", Keyword::Type(Primitive::Str)),
        ("double", Keyword::Type(Primitive::Double)),
        ("bool", Keyword::Type(Primitive::Bool)),
        ("void", Keyword::Type(Primitive::Void)),
        ("struct", Keyword::Struct),
        ("interface", Keyword::Interface),
        ("impl", Keyword::Impl),
    ];
    for (word, kw) in table {
        let toks = lex(word).unwrap();
        assert_eq!(toks.len(), 1);
        assert_eq!(toks[0].token_type, TokenType::Keyword(kw));
        assert_eq!(toks[0].pos, pos(1, word.len() as i64 + 1));
    }
}

#[test]
fn near_keywords_are_identifiers() {
    for word in ["lets", "Let", "int_", "fnord", "x1", "If", "structs", "i"] {
        assert_eq!(kinds(word), vec![ident(word)]);
    }
}

#[test]
fn newlines_advance_the_line() {
    let toks = lex("\n\n\n").unwrap();
    assert_eq!(toks.len(), 3);
    for (k, t) in toks.iter().enumerate() {
        assert_eq!(t.token_type, TokenType::Newline);
        assert_eq!(t.pos, pos(k as i64 + 2, 1));
    }
}

#[test]
fn unterminated_string_is_an_error() {
    assert_eq!(lex("\"abc"), Err(LexError::UnterminatedString(pos(1, 1))));
    assert_eq!(lex("x = \"abc"), Err(LexError::UnterminatedString(pos(1, 5))));
    assert_eq!(lex("\""), Err(LexError::UnterminatedString(pos(1, 1))));
}

#[test]
fn string_literal_keeps_its_text() {
    let toks = lex("\"hi there\" x").unwrap();
    assert_eq!(toks[0].token_type, TokenType::StrLiteral("hi there".to_string()));
    assert_eq!(toks[0].pos, pos(1, 11));
    assert_eq!(toks[2].token_type, ident("x"));
    assert_eq!(kinds("\"\""), vec![TokenType::StrLiteral(String::new())]);
}

#[test]
fn comment_runs_to_the_newline() {
    let toks = lex("a // hi + 3\nb").unwrap();
    let got: Vec<TokenType> = toks.iter().map(|t| t.token_type.clone()).collect();
    assert_eq!(
        got,
        vec![
            ident("a"),
            TokenType::Whitespace,
            TokenType::Comment,
            TokenType::Newline,
            ident("b"),
        ]
    );
    assert_eq!(toks[2].pos, pos(1, 12));
    assert_eq!(toks[3].pos, pos(2, 1));
    assert_eq!(toks[4].pos, pos(2, 2));
    assert_eq!(kinds("// only"), vec![TokenType::Comment]);
}

#[test]
fn largest_number_fits_and_one_more_overflows() {
    assert_eq!(kinds("9223372036854775807"), vec![TokenType::Number(i64::MAX)]);
    assert_eq!(
        lex("x 9223372036854775808"),
        Err(LexError::NumberOverflow(pos(1, 3)))
    );
    assert_eq!(
        lex("100000000000000000000"),
        Err(LexError::NumberOverflow(pos(1, 1)))
    );
}

#[test]
fn unexpected_character_is_reported_where_it_stands() {
    assert_eq!(lex("a # b"), Err(LexError::UnexpectedChar('#', pos(1, 3))));
    assert_eq!(lex("x\n_y"), Err(LexError::UnexpectedChar('_', pos(2, 1))));
    assert_eq!(lex("é"), Err(LexError::UnexpectedChar('é', pos(1, 1))));
}

#[test]
fn lexing_twice_gives_equal_tokens() {
    let src = "fn main() -> int {\n  // c\n  let x: int = 42;\n}";
    let a = lex(src).unwrap();
    let b = lex(src).unwrap();
    assert_eq!(a.len(), b.len());
    for (x, y) in a.iter().zip(b.iter()) {
        assert_eq!(x, y);
    }
}

#[test]
fn positions_follow_the_characters() {
    let toks = lex("let x\n  y").unwrap();
    let got: Vec<(TokenType, Position)> =
        toks.into_iter().map(|t| (t.token_type, t.pos)).collect();
    assert_eq!(
        got,
        vec![
            (TokenType::Keyword(Keyword::Let), pos(1, 4)),
            (TokenType::Whitespace, pos(1, 5)),
            (ident("x"), pos(1, 6)),
            (TokenType::Newline, pos(2, 1)),
            (TokenType::Whitespace, pos(2, 3)),
            (ident("y"), pos(2, 4)),
        ]
    );
}
