//! The lexer: source text to a sequence of positioned tokens.
//!
//! A token carries the position reached just after its last character, so a
//! `Newline` token stands at column 1 of the following line and a run of blanks
//! stands at its end. An error carries the position of the character where the
//! offending construct begins.
use crate::types::{Keyword, Op, Position, Primitive, Token, TokenType, TokenTypeView, TokenView};
use vstd::prelude::*;

verus! {

/// Why lexing stopped, with the position of the offending construct.
#[derive(Debug, Clone, Copy, PartialEq, Eq, Structural)]
pub enum LexError {
    /// A character that starts no token.
    UnexpectedChar(char, Position),
    /// A decimal literal whose value does not fit in an `i64`.
    NumberOverflow(Position),
    /// A string literal with no closing quote before the end of input.
    UnterminatedString(Position),
}

/// The classes of characters that make up the runs the lexer consumes.
#[derive(Debug, Clone, Copy, PartialEq, Eq, Structural)]
pub enum CharClass {
    Blank,
    Digit,
    Word,
    NotNewline,
    NotQuote,
}

pub open spec fn is_digit(c: char) -> bool {
    '0' <= c && c <= '9'
}

pub open spec fn is_letter(c: char) -> bool {
    ('a' <= c && c <= 'z') || ('A' <= c && c <= 'Z')
}

pub open spec fn in_class(class: CharClass, c: char) -> bool {
    match class {
        CharClass::Blank => c == ' ' || c == '\t',
        CharClass::Digit => is_digit(c),
        CharClass::Word => is_letter(c) || is_digit(c) || c == '_',
        CharClass::NotNewline => c != '\n',
        CharClass::NotQuote => c != '"',
    }
}

/// Length of the longest run of characters of `class` starting at `i`.
pub open spec fn run_len(s: Seq<char>, i: int, class: CharClass) -> nat
    decreases s.len() - i,
{
    if 0 <= i < s.len() && in_class(class, s[i]) {
        1 + run_len(s, i + 1, class)
    } else {
        0
    }
}

/// The position reached after reading all of `s` from line 1, column 1.
pub open spec fn position_after(s: Seq<char>) -> (int, int)
    decreases s.len(),
{
    if s.len() == 0 {
        (1, 1)
    } else {
        let (line, col) = position_after(s.drop_last());
        if s.last() == '\n' {
            (line + 1, 1)
        } else {
            (line, col + 1)
        }
    }
}

pub open spec fn position_at(s: Seq<char>, i: int) -> Position {
    let (line, col) = position_after(s.take(i));
    Position { line: line as i64, col: col as i64 }
}

pub open spec fn digit_value(c: char) -> int {
    c as int - '0' as int
}

/// The value of a sequence of decimal digits.
pub open spec fn digits_value(w: Seq<char>) -> int
    decreases w.len(),
{
    if w.len() == 0 {
        0
    } else {
        10 * digits_value(w.drop_last()) + digit_value(w.last())
    }
}

/// The keyword table: the keyword that a word spells, if any.
pub open spec fn keyword_of(w: Seq<char>) -> Option<Keyword> {
    if w == "let"@ {
        Some(Keyword::Let)
    } else if w == "return"@ {
        Some(Keyword::Return)
    } else if w == "fn"@ {
        Some(Keyword::Fn)
    } else if w == "in"@ {
        Some(Keyword::In)
    } else if w == "is"@ {
        Some(Keyword::Is)
    } else if w == "of"@ {
        Some(Keyword::Of)
    } else if w == "while"@ {
        Some(Keyword::While)
    } else if w == "for"@ {
        Some(Keyword::For)
    } else if w == "if"@ {
        Some(Keyword::If)
    } else if w == "else"@ {
        Some(Keyword::Else)
    } else if w == "int"@ {
        Some(Keyword::Type(Primitive::Int))
    } else if w == "str"@ {
        Some(Keyword::Type(Primitive::Str))
    } else if w == "double"@ {
        Some(Keyword::Type(Primitive::Double))
    } else if w == "bool"@ {
        Some(Keyword::Type(Primitive::Bool))
    } else if w == "void"@ {
        Some(Keyword::Type(Primitive::Void))
    } else if w == "struct"@ {
        Some(Keyword::Struct)
    } else if w == "interface"@ {
        Some(Keyword::Interface)
    } else if w == "impl"@ {
        Some(Keyword::Impl)
    } else {
        None
    }
}

pub open spec fn word_kind(w: Seq<char>) -> TokenTypeView {
    match keyword_of(w) {
        Some(k) => TokenTypeView::Keyword(k),
        None => TokenTypeView::Identifier(w),
    }
}

/// The token kind of a character that forms a token on its own.
pub open spec fn single_char_kind(c: char) -> Option<TokenTypeView> {
    if c == '+' {
        Some(TokenTypeView::Operator(Op::Add))
    } else if c == '-' {
        Some(TokenTypeView::Operator(Op::Sub))
    } else if c == '*' {
        Some(TokenTypeView::Operator(Op::Mul))
    } else if c == '/' {
        Some(TokenTypeView::Operator(Op::Div))
    } else if c == '%' {
        Some(TokenTypeView::Operator(Op::Mod))
    } else if c == '&' {
        Some(TokenTypeView::Operator(Op::And))
    } else if c == '|' {
        Some(TokenTypeView::Operator(Op::Or))
    } else if c == '=' {
        Some(TokenTypeView::Operator(Op::Eq))
    } else if c == '!' {
        Some(TokenTypeView::Operator(Op::Not))
    } else if c == '<' {
        Some(TokenTypeView::Operator(Op::Lt))
    } else if c == '>' {
        Some(TokenTypeView::Operator(Op::Gt))
    } else if c == '.' {
        Some(TokenTypeView::Dot)
    } else if c == '(' {
        Some(TokenTypeView::LeftParen)
    } else if c == ')' {
        Some(TokenTypeView::RightParen)
    } else if c == '[' {
        Some(TokenTypeView::LeftBracket)
    } else if c == ']' {
        Some(TokenTypeView::RightBracket)
    } else if c == '{' {
        Some(TokenTypeView::LeftCurly)
    } else if c == '}' {
        Some(TokenTypeView::RightCurly)
    } else if c == ';' {
        Some(TokenTypeView::Semicolon)
    } else if c == ':' {
        Some(TokenTypeView::Colon)
    } else if c == ',' {
        Some(TokenTypeView::Comma)
    } else {
        None
    }
}

/// The two-character token that starts at `i`, if one does.
pub open spec fn pair_kind(s: Seq<char>, i: int) -> Option<TokenTypeView> {
    if i + 1 < s.len() {
        let (a, b) = (s[i], s[i + 1]);
        if a == '-' && b == '>' {
            Some(TokenTypeView::RetArrow)
        } else if a == '!' && b == '=' {
            Some(TokenTypeView::Operator(Op::Neq))
        } else if a == '<' && b == '=' {
            Some(TokenTypeView::Operator(Op::Lte))
        } else if a == '>' && b == '=' {
            Some(TokenTypeView::Operator(Op::Gte))
        } else if a == '/' && b == '/' {
            Some(TokenTypeView::Comment)
        } else {
            None
        }
    } else {
        None
    }
}

/// Why no token can start at some index; placed at a position it becomes a
/// [`LexError`].
#[derive(Debug, Clone, Copy, PartialEq, Eq, Structural)]
pub enum ScanError {
    UnexpectedChar(char),
    NumberOverflow,
    UnterminatedString,
}

pub open spec fn place_error(e: ScanError, p: Position) -> LexError {
    match e {
        ScanError::UnexpectedChar(c) => LexError::UnexpectedChar(c, p),
        ScanError::NumberOverflow => LexError::NumberOverflow(p),
        ScanError::UnterminatedString => LexError::UnterminatedString(p),
    }
}

/// The token that starts at index `i` (which must be in range), with the
/// number of characters it spans.
pub open spec fn scan(s: Seq<char>, i: int) -> Result<(TokenTypeView, nat), ScanError> {
    let c = s[i];
    if in_class(CharClass::Blank, c) {
        Ok((TokenTypeView::Whitespace, 1 + run_len(s, i + 1, CharClass::Blank)))
    } else if c == '\n' {
        Ok((TokenTypeView::Newline, 1))
    } else if c == '0' {
        Ok((TokenTypeView::Number(0), 1))
    } else if is_digit(c) {
        let n = 1 + run_len(s, i + 1, CharClass::Digit);
        let v = digits_value(s.subrange(i, i + n));
        if v <= i64::MAX {
            Ok((TokenTypeView::Number(v), n))
        } else {
            Err(ScanError::NumberOverflow)
        }
    } else if is_letter(c) {
        let n = 1 + run_len(s, i + 1, CharClass::Word);
        Ok((word_kind(s.subrange(i, i + n)), n))
    } else if c == '"' {
        let n = run_len(s, i + 1, CharClass::NotQuote);
        if i + 1 + n < s.len() {
            Ok((TokenTypeView::StrLiteral(s.subrange(i + 1, i + 1 + n)), n + 2))
        } else {
            Err(ScanError::UnterminatedString)
        }
    } else if pair_kind(s, i) == Some(TokenTypeView::Comment) {
        Ok((TokenTypeView::Comment, 2 + run_len(s, i + 2, CharClass::NotNewline)))
    } else if pair_kind(s, i) is Some {
        Ok((pair_kind(s, i)->0, 2))
    } else if single_char_kind(c) is Some {
        Ok((single_char_kind(c)->0, 1))
    } else {
        Err(ScanError::UnexpectedChar(c))
    }
}

/// The tokens of `s` from index `i` on. The branch for a token that spans no
/// character, or runs past the end, is never taken (`lemma_scan_len`).
pub open spec fn lex_from(s: Seq<char>, i: int) -> Result<Seq<TokenView>, LexError>
    decreases s.len() - i,
{
    if i < 0 || i >= s.len() {
        Ok(seq![])
    } else {
        match scan(s, i) {
            Err(e) => Err(place_error(e, position_at(s, i))),
            Ok((kind, n)) => {
                if n == 0 || i + n > s.len() {
                    Ok(seq![])
                } else {
                    let (line, col) = position_after(s.take(i + n));
                    let t = TokenView { kind, line, col };
                    match lex_from(s, i + n) {
                        Ok(rest) => Ok(seq![t] + rest),
                        Err(e) => Err(e),
                    }
                }
            }
        }
    }
}

/// The tokens of the whole text `s`.
pub open spec fn lex(s: Seq<char>) -> Result<Seq<TokenView>, LexError> {
    lex_from(s, 0)
}

pub open spec fn tokens_view(v: Seq<Token>) -> Seq<TokenView> {
    v.map_values(|t: Token| t@)
}

pub open spec fn lex_result_view(r: Result<Vec<Token>, LexError>) -> Result<Seq<TokenView>, LexError> {
    match r {
        Ok(v) => Ok(tokens_view(v@)),
        Err(e) => Err(e),
    }
}

/// `prefix` put in front of the tokens of a successful result.
pub open spec fn prepend(prefix: Seq<TokenView>, r: Result<Seq<TokenView>, LexError>) -> Result<
    Seq<TokenView>,
    LexError,
> {
    match r {
        Ok(rest) => Ok(prefix + rest),
        Err(e) => Err(e),
    }
}

proof fn lemma_run_len(s: Seq<char>, i: int, class: CharClass)
    requires
        0 <= i <= s.len(),
    ensures
        i + run_len(s, i, class) <= s.len(),
        forall|k: int| i <= k < i + run_len(s, i, class) ==> in_class(class, #[trigger] s[k]),
        i + run_len(s, i, class) < s.len() ==> !in_class(class, s[i + run_len(s, i, class)]),
    decreases s.len() - i,
{
    if i < s.len() && in_class(class, s[i]) {
        lemma_run_len(s, i + 1, class);
    }
}

/// Every token spans at least one character and stays inside the text.
proof fn lemma_scan_len(s: Seq<char>, i: int)
    requires
        0 <= i < s.len(),
    ensures
        scan(s, i) is Ok ==> 1 <= scan(s, i)->Ok_0.1 && i + scan(s, i)->Ok_0.1 <= s.len(),
{
    lemma_run_len(s, i + 1, CharClass::Blank);
    lemma_run_len(s, i + 1, CharClass::Digit);
    lemma_run_len(s, i + 1, CharClass::Word);
    lemma_run_len(s, i + 1, CharClass::NotQuote);
    if i + 2 <= s.len() {
        lemma_run_len(s, i + 2, CharClass::NotNewline);
    }
}

proof fn lemma_position_bounds(s: Seq<char>)
    ensures
        1 <= position_after(s).0 <= s.len() + 1,
        1 <= position_after(s).1 <= s.len() + 1,
    decreases s.len(),
{
    if s.len() > 0 {
        lemma_position_bounds(s.drop_last());
    }
}

proof fn lemma_position_step(s: Seq<char>, k: int)
    requires
        0 <= k < s.len(),
    ensures
        position_after(s.take(k + 1)) == (if s[k] == '\n' {
            (position_after(s.take(k)).0 + 1, 1)
        } else {
            (position_after(s.take(k)).0, position_after(s.take(k)).1 + 1)
        }),
{
    assert(s.take(k + 1).drop_last() =~= s.take(k));
}

proof fn lemma_digits_nonneg(w: Seq<char>)
    requires
        forall|k: int| 0 <= k < w.len() ==> is_digit(#[trigger] w[k]),
    ensures
        digits_value(w) >= 0,
    decreases w.len(),
{
    if w.len() > 0 {
        lemma_digits_nonneg(w.drop_last());
    }
}

/// A run of digits is worth at least as much as any of its prefixes.
proof fn lemma_digits_prefix(w: Seq<char>, k: int)
    requires
        0 <= k <= w.len(),
        forall|m: int| 0 <= m < w.len() ==> is_digit(#[trigger] w[m]),
    ensures
        digits_value(w.take(k)) <= digits_value(w),
    decreases w.len(),
{
    if k < w.len() {
        let p = w.drop_last();
        assert(p.take(k) =~= w.take(k));
        lemma_digits_prefix(p, k);
        lemma_digits_nonneg(p);
    } else {
        assert(w.take(k) =~= w);
    }
}

fn char_in_class(class: CharClass, c: char) -> (r: bool)
    ensures
        r == in_class(class, c),
{
    match class {
        CharClass::Blank => c == ' ' || c == '\t',
        CharClass::Digit => '0' <= c && c <= '9',
        CharClass::Word => ('a' <= c && c <= 'z') || ('A' <= c && c <= 'Z') || ('0' <= c && c
            <= '9') || c == '_',
        CharClass::NotNewline => c != '\n',
        CharClass::NotQuote => c != '"',
    }
}

/// The index just past the run of characters of `class` that starts at `start`.
fn run_end(s: &Vec<char>, start: usize, class: CharClass) -> (r: usize)
    requires
        start <= s@.len(),
    ensures
        r == start + run_len(s@, start as int, class),
        r <= s@.len(),
{
    let mut j = start;
    while j < s.len() && char_in_class(class, s[j])
        invariant
            start <= j <= s@.len(),
            run_len(s@, start as int, class) == (j - start) + run_len(s@, j as int, class),
        decreases s@.len() - j,
    {
        j += 1;
    }
    j
}

/// The position reached from index `from`, at `(line, col)`, after reading up
/// to index `to`.
fn advance(s: &Vec<char>, from: usize, to: usize, line: i64, col: i64) -> (r: (i64, i64))
    requires
        from <= to <= s@.len(),
        s@.len() < i64::MAX,
        (line as int, col as int) == position_after(s@.take(from as int)),
    ensures
        (r.0 as int, r.1 as int) == position_after(s@.take(to as int)),
{
    let mut k = from;
    let mut line = line;
    let mut col = col;
    while k < to
        invariant
            from <= k <= to <= s@.len() < i64::MAX,
            (line as int, col as int) == position_after(s@.take(k as int)),
        decreases to - k,
    {
        proof {
            lemma_position_bounds(s@.take(k as int));
            lemma_position_step(s@, k as int);
        }
        if s[k] == '\n' {
            line = line + 1;
            col = 1;
        } else {
            col = col + 1;
        }
        k += 1;
    }
    (line, col)
}

/// Relies on `String::from_iter` over `&char`: the string holds the given
/// characters, in order.
#[verifier::external_body]
fn collect_string(chars: &[char]) -> (r: String)
    ensures
        r@ == chars@,
{
    String::from_iter(chars)
}

/// Relies on `Vec::from_iter` over `str::chars`: the vector holds the
/// characters of the text, in order; and, as a `Vec` never allocates more
/// than `isize::MAX` bytes, it holds at most `isize::MAX / 4` four-byte chars.
#[verifier::external_body]
fn collect_chars(s: &str) -> (r: Vec<char>)
    ensures
        r@ == s@,
        4 * r@.len() <= isize::MAX,
{
    Vec::from_iter(s.chars())
}

/// Whether the characters of `s` from `i` to `j` spell `w`.
fn word_is(s: &Vec<char>, i: usize, j: usize, w: &str) -> (r: bool)
    requires
        i <= j <= s@.len(),
    ensures
        r == (s@.subrange(i as int, j as int) == w@),
{
    let n = w.unicode_len();
    if j - i != n {
        return false;
    }
    let mut k: usize = 0;
    while k < n
        invariant
            n == w@.len(),
            j - i == n,
            i <= j <= s@.len(),
            k <= n,
            forall|m: int| 0 <= m < k ==> s@[i + m] == w@[m],
        decreases n - k,
    {
        if s[i + k] != w.get_char(k) {
            assert(s@.subrange(i as int, j as int)[k as int] != w@[k as int]);
            return false;
        }
        k += 1;
    }
    assert(s@.subrange(i as int, j as int) =~= w@);
    true
}

/// The keyword spelled by the characters of `s` from `i` to `j`, if any.
fn keyword_at(s: &Vec<char>, i: usize, j: usize) -> (r: Option<Keyword>)
    requires
        i <= j <= s@.len(),
    ensures
        r == keyword_of(s@.subrange(i as int, j as int)),
{
    if word_is(s, i, j, "let") {
        Some(Keyword::Let)
    } else if word_is(s, i, j, "return") {
        Some(Keyword::Return)
    } else if word_is(s, i, j, "fn") {
        Some(Keyword::Fn)
    } else if word_is(s, i, j, "in") {
        Some(Keyword::In)
    } else if word_is(s, i, j, "is") {
        Some(Keyword::Is)
    } else if word_is(s, i, j, "of") {
        Some(Keyword::Of)
    } else if word_is(s, i, j, "while") {
        Some(Keyword::While)
    } else if word_is(s, i, j, "for") {
        Some(Keyword::For)
    } else if word_is(s, i, j, "if") {
        Some(Keyword::If)
    } else if word_is(s, i, j, "else") {
        Some(Keyword::Else)
    } else if word_is(s, i, j, "int") {
        Some(Keyword::Type(Primitive::Int))
    } else if word_is(s, i, j, "str") {
        Some(Keyword::Type(Primitive::Str))
    } else if word_is(s, i, j, "double") {
        Some(Keyword::Type(Primitive::Double))
    } else if word_is(s, i, j, "bool") {
        Some(Keyword::Type(Primitive::Bool))
    } else if word_is(s, i, j, "void") {
        Some(Keyword::Type(Primitive::Void))
    } else if word_is(s, i, j, "struct") {
        Some(Keyword::Struct)
    } else if word_is(s, i, j, "interface") {
        Some(Keyword::Interface)
    } else if word_is(s, i, j, "impl") {
        Some(Keyword::Impl)
    } else {
        None
    }
}

fn single_char_token(c: char) -> (r: Option<TokenType>)
    ensures
        match r {
            Some(t) => single_char_kind(c) == Some(t@),
            None => single_char_kind(c) is None,
        },
{
    if c == '+' {
        Some(TokenType::Operator(Op::Add))
    } else if c == '-' {
        Some(TokenType::Operator(Op::Sub))
    } else if c == '*' {
        Some(TokenType::Operator(Op::Mul))
    } else if c == '/' {
        Some(TokenType::Operator(Op::Div))
    } else if c == '%' {
        Some(TokenType::Operator(Op::Mod))
    } else if c == '&' {
        Some(TokenType::Operator(Op::And))
    } else if c == '|' {
        Some(TokenType::Operator(Op::Or))
    } else if c == '=' {
        Some(TokenType::Operator(Op::Eq))
    } else if c == '!' {
        Some(TokenType::Operator(Op::Not))
    } else if c == '<' {
        Some(TokenType::Operator(Op::Lt))
    } else if c == '>' {
        Some(TokenType::Operator(Op::Gt))
    } else if c == '.' {
        Some(TokenType::Dot)
    } else if c == '(' {
        Some(TokenType::LeftParen)
    } else if c == ')' {
        Some(TokenType::RightParen)
    } else if c == '[' {
        Some(TokenType::LeftBracket)
    } else if c == ']' {
        Some(TokenType::RightBracket)
    } else if c == '{' {
        Some(TokenType::LeftCurly)
    } else if c == '}' {
        Some(TokenType::RightCurly)
    } else if c == ';' {
        Some(TokenType::Semicolon)
    } else if c == ':' {
        Some(TokenType::Colon)
    } else if c == ',' {
        Some(TokenType::Comma)
    } else {
        None
    }
}

fn pair_token(s: &Vec<char>, i: usize) -> (r: Option<TokenType>)
    requires
        i < s@.len(),
    ensures
        match r {
            Some(t) => pair_kind(s@, i as int) == Some(t@),
            None => pair_kind(s@, i as int) is None,
        },
{
    if i < s.len() - 1 {
        let a = s[i];
        let b = s[i + 1];
        if a == '-' && b == '>' {
            Some(TokenType::RetArrow)
        } else if a == '!' && b == '=' {
            Some(TokenType::Operator(Op::Neq))
        } else if a == '<' && b == '=' {
            Some(TokenType::Operator(Op::Lte))
        } else if a == '>' && b == '=' {
            Some(TokenType::Operator(Op::Gte))
        } else if a == '/' && b == '/' {
            Some(TokenType::Comment)
        } else {
            None
        }
    } else {
        None
    }
}

/// The value of the digits of `s` from `i` to `j`, or `None` where it does
/// not fit in an `i64`.
fn number_value(s: &Vec<char>, i: usize, j: usize) -> (r: Option<i64>)
    requires
        i <= j <= s@.len(),
        forall|k: int| i <= k < j ==> is_digit(#[trigger] s@[k]),
    ensures
        match r {
            Some(v) => v as int == digits_value(s@.subrange(i as int, j as int)),
            None => digits_value(s@.subrange(i as int, j as int)) > i64::MAX,
        },
{
    let ghost w = s@.subrange(i as int, j as int);
    let mut v: i64 = 0;
    let mut k = i;
    while k < j
        invariant
            i <= k <= j <= s@.len(),
            w == s@.subrange(i as int, j as int),
            forall|m: int| i <= m < j ==> is_digit(#[trigger] s@[m]),
            0 <= v,
            v as int == digits_value(w.take(k - i)),
        decreases j - k,
    {
        let c = s[k];
        let d = (c as u32 - '0' as u32) as i64;
        proof {
            assert(w.take(k + 1 - i).drop_last() =~= w.take(k - i));
            assert(w.take(k + 1 - i).last() == c);
        }
        if v > 922337203685477580 || (v == 922337203685477580 && d > 7) {
            proof {
                assert(10 * v + d > i64::MAX) by (nonlinear_arith)
                    requires
                        v > 922337203685477580 || (v == 922337203685477580 && d > 7),
                        0 <= d,
                ;
                lemma_digits_prefix(w, k + 1 - i);
            }
            return None;
        }
        v = v * 10 + d;
        k += 1;
    }
    assert(w.take(j - i) =~= w);
    Some(v)
}

/// The token that starts at index `i`, with the number of characters it spans.
#[verifier::rlimit(40)]
fn scan_token(s: &Vec<char>, i: usize) -> (r: Result<(TokenType, usize), ScanError>)
    requires
        i < s@.len(),
    ensures
        match r {
            Ok((t, n)) => scan(s@, i as int) == Ok::<(TokenTypeView, nat), ScanError>((t@, n as nat)),
            Err(e) => scan(s@, i as int) == Err::<(TokenTypeView, nat), ScanError>(e),
        },
{
    let len = s.len();
    let c = s[i];
    if char_in_class(CharClass::Blank, c) {
        let e = run_end(s, i + 1, CharClass::Blank);
        Ok((TokenType::Whitespace, e - i))
    } else if c == '\n' {
        Ok((TokenType::Newline, 1))
    } else if c == '0' {
        Ok((TokenType::Number(0), 1))
    } else if '0' <= c && c <= '9' {
        let e = run_end(s, i + 1, CharClass::Digit);
        proof {
            lemma_run_len(s@, i + 1, CharClass::Digit);
        }
        match number_value(s, i, e) {
            Some(v) => Ok((TokenType::Number(v), e - i)),
            None => Err(ScanError::NumberOverflow),
        }
    } else if ('a' <= c && c <= 'z') || ('A' <= c && c <= 'Z') {
        let e = run_end(s, i + 1, CharClass::Word);
        match keyword_at(s, i, e) {
            Some(k) => Ok((TokenType::Keyword(k), e - i)),
            None => {
                let w = collect_string(vstd::slice::slice_subrange(s.as_slice(), i, e));
                Ok((TokenType::Identifier(w), e - i))
            },
        }
    } else if c == '"' {
        let e = run_end(s, i + 1, CharClass::NotQuote);
        if e < len {
            let w = collect_string(vstd::slice::slice_subrange(s.as_slice(), i + 1, e));
            Ok((TokenType::StrLiteral(w), e + 1 - i))
        } else {
            Err(ScanError::UnterminatedString)
        }
    } else {
        match pair_token(s, i) {
            Some(TokenType::Comment) => {
                let e = run_end(s, i + 2, CharClass::NotNewline);
                Ok((TokenType::Comment, e - i))
            },
            Some(t) => Ok((t, 2)),
            None => match single_char_token(c) {
                Some(t) => Ok((t, 1)),
                None => Err(ScanError::UnexpectedChar(c)),
            },
        }
    }
}

fn placed(e: ScanError, p: Position) -> (r: LexError)
    ensures
        r == place_error(e, p),
{
    match e {
        ScanError::UnexpectedChar(c) => LexError::UnexpectedChar(c, p),
        ScanError::NumberOverflow => LexError::NumberOverflow(p),
        ScanError::UnterminatedString => LexError::UnterminatedString(p),
    }
}

/// The tokens of a text given as its characters.
#[verifier::rlimit(40)]
pub fn tokenize_chars(s: &Vec<char>) -> (r: Result<Vec<Token>, LexError>)
    requires
        s@.len() < i64::MAX,
    ensures
        lex_result_view(r) == lex(s@),
{
    let len = s.len();
    let mut tokens: Vec<Token> = Vec::new();
    let mut i: usize = 0;
    let mut line: i64 = 1;
    let mut col: i64 = 1;
    assert(s@.take(0) =~= Seq::<char>::empty());
    assert(tokens_view(tokens@) =~= Seq::<TokenView>::empty());
    assert(prepend(seq![], lex_from(s@, 0)) == lex_from(s@, 0)) by {
        if lex_from(s@, 0) is Ok {
            assert(Seq::<TokenView>::empty() + lex_from(s@, 0)->Ok_0 =~= lex_from(s@, 0)->Ok_0);
        }
    }
    while i < len
        invariant
            len == s@.len() < i64::MAX,
            i <= len,
            (line as int, col as int) == position_after(s@.take(i as int)),
            lex(s@) == prepend(tokens_view(tokens@), lex_from(s@, i as int)),
        decreases len - i,
    {
        proof {
            lemma_scan_len(s@, i as int);
            lemma_position_bounds(s@.take(i as int));
        }
        match scan_token(s, i) {
            Err(e) => {
                return Err(placed(e, Position { line, col }));
            },
            Ok((kind, n)) => {
                let (l2, c2) = advance(s, i, i + n, line, col);
                let tok = Token::new(Position { line: l2, col: c2 }, kind);
                let ghost old_view = tokens_view(tokens@);
                tokens.push(tok);
                proof {
                    lemma_position_bounds(s@.take(i + n));
                    assert(tokens_view(tokens@) =~= old_view + seq![tok@]);
                    let rest = lex_from(s@, i + n);
                    if rest is Ok {
                        assert(old_view + (seq![tok@] + rest->Ok_0) =~= (old_view + seq![tok@])
                            + rest->Ok_0);
                    }
                }
                i = i + n;
                line = l2;
                col = c2;
            },
        }
    }
    assert(tokens_view(tokens@) + Seq::<TokenView>::empty() =~= tokens_view(tokens@));
    Ok(tokens)
}

/// Turns source text into tokens; it keeps no state from one call to the next.
pub struct Tokenizer {}

impl Tokenizer {
    pub fn new() -> (r: Tokenizer) {
        Tokenizer {}
    }

    /// Produce the sequence of tokens of `input`, whitespace, newlines and
    /// comments included, or the first error.
    pub fn tokenize(&mut self, input: &str) -> (r: Result<Vec<Token>, LexError>)
        ensures
            lex_result_view(r) == lex(input@),
    {
        let chars = collect_chars(input);
        tokenize_chars(&chars)
    }
}

/// How each keyword is spelled in source text.
pub open spec fn spelling(k: Keyword) -> Seq<char> {
    match k {
        Keyword::Let => "let"@,
        Keyword::Return => "return"@,
        Keyword::Fn => "fn"@,
        Keyword::In => "in"@,
        Keyword::Is => "is"@,
        Keyword::Of => "of"@,
        Keyword::While => "while"@,
        Keyword::For => "for"@,
        Keyword::If => "if"@,
        Keyword::Else => "else"@,
        Keyword::Type(Primitive::Int) => "int"@,
        Keyword::Type(Primitive::Str) => "str"@,
        Keyword::Type(Primitive::Double) => "double"@,
        Keyword::Type(Primitive::Bool) => "bool"@,
        Keyword::Type(Primitive::Void) => "void"@,
        Keyword::Struct => "struct"@,
        Keyword::Interface => "interface"@,
        Keyword::Impl => "impl"@,
    }
}

/// A word that the lexer reads as one identifier-or-keyword token: an ASCII
/// letter, then letters, digits and underscores.
pub open spec fn is_word(w: Seq<char>) -> bool {
    &&& w.len() >= 1
    &&& is_letter(w[0])
    &&& forall|k: int| 0 <= k < w.len() ==> in_class(CharClass::Word, #[trigger] w[k])
}

proof fn lemma_run_to_end(s: Seq<char>, i: int, class: CharClass)
    requires
        0 <= i <= s.len(),
        forall|k: int| i <= k < s.len() ==> in_class(class, #[trigger] s[k]),
    ensures
        run_len(s, i, class) == s.len() - i,
    decreases s.len() - i,
{
    if i < s.len() {
        lemma_run_to_end(s, i + 1, class);
    }
}

proof fn lemma_position_no_newline(s: Seq<char>, j: int)
    requires
        0 <= j <= s.len(),
        forall|k: int| 0 <= k < s.len() ==> #[trigger] s[k] != '\n',
    ensures
        position_after(s.take(j)) == (1int, j + 1),
    decreases j,
{
    if j > 0 {
        lemma_position_no_newline(s, j - 1);
        lemma_position_step(s, j - 1);
    } else {
        assert(s.take(0) =~= Seq::<char>::empty());
    }
}

proof fn lemma_lex_word(w: Seq<char>)
    requires
        is_word(w),
    ensures
        lex(w) == Ok::<Seq<TokenView>, LexError>(
            seq![TokenView { kind: word_kind(w), line: 1, col: w.len() + 1int }],
        ),
{
    lemma_run_to_end(w, 1, CharClass::Word);
    assert(w.subrange(0, w.len() as int) =~= w);
    assert forall|k: int| 0 <= k < w.len() implies #[trigger] w[k] != '\n' by {
        assert(in_class(CharClass::Word, w[k]));
    }
    lemma_position_no_newline(w, w.len() as int);
    assert(scan(w, 0) == Ok::<(TokenTypeView, nat), ScanError>((word_kind(w), w.len())));
    assert(lex_from(w, w.len() as int) == Ok::<Seq<TokenView>, LexError>(seq![]));
    assert(seq![TokenView { kind: word_kind(w), line: 1, col: w.len() + 1int }]
        + Seq::<TokenView>::empty() =~= seq![
        TokenView { kind: word_kind(w), line: 1, col: w.len() + 1int },
    ]);
}

#[verifier::rlimit(40)]
proof fn lemma_spellings(k: Keyword)
    ensures
        is_word(spelling(k)),
        keyword_of(spelling(k)) == Some(k),
{
    reveal_strlit("let");
    reveal_strlit("return");
    reveal_strlit("fn");
    reveal_strlit("in");
    reveal_strlit("is");
    reveal_strlit("of");
    reveal_strlit("while");
    reveal_strlit("for");
    reveal_strlit("if");
    reveal_strlit("else");
    reveal_strlit("int");
    reveal_strlit("str");
    reveal_strlit("double");
    reveal_strlit("bool");
    reveal_strlit("void");
    reveal_strlit("struct");
    reveal_strlit("interface");
    reveal_strlit("impl");
    match k {
        Keyword::Let => {
        },
        Keyword::Return => {
            assert("return"@.len() != "let"@.len());
        },
        Keyword::Fn => {
            assert("fn"@.len() != "let"@.len());
            assert("fn"@.len() != "return"@.len());
        },
        Keyword::In => {
            assert("in"@.len() != "let"@.len());
            assert("in"@.len() != "return"@.len());
            assert("in"@[0] != "fn"@[0]);
        },
        Keyword::Is => {
            assert("is"@.len() != "let"@.len());
            assert("is"@.len() != "return"@.len());
            assert("is"@[0] != "fn"@[0]);
            assert("is"@[1] != "in"@[1]);
        },
        Keyword::Of => {
            assert("of"@.len() != "let"@.len());
            assert("of"@.len() != "return"@.len());
            assert("of"@[0] != "fn"@[0]);
            assert("of"@[0] != "in"@[0]);
            assert("of"@[0] != "is"@[0]);
        },
        Keyword::While => {
            assert("while"@.len() != "let"@.len());
            assert("while"@.len() != "return"@.len());
            assert("while"@.len() != "fn"@.len());
            assert("while"@.len() != "in"@.len());
            assert("while"@.len() != "is"@.len());
            assert("while"@.len() != "of"@.len());
        },
        Keyword::For => {
            assert("for"@[0] != "let"@[0]);
            assert("for"@.len() != "return"@.len());
            assert("for"@.len() != "fn"@.len());
            assert("for"@.len() != "in"@.len());
            assert("for"@.len() != "is"@.len());
            assert("for"@.len() != "of"@.len());
            assert("for"@.len() != "while"@.len());
        },
        Keyword::If => {
            assert("if"@.len() != "let"@.len());
            assert("if"@.len() != "return"@.len());
            assert("if"@[0] != "fn"@[0]);
            assert("if"@[1] != "in"@[1]);
            assert("if"@[1] != "is"@[1]);
            assert("if"@[0] != "of"@[0]);
            assert("if"@.len() != "while"@.len());
            assert("if"@.len() != "for"@.len());
        },
        Keyword::Else => {
            assert("else"@.len() != "let"@.len());
            assert("else"@.len() != "return"@.len());
            assert("else"@.len() != "fn"@.len());
            assert("else"@.len() != "in"@.len());
            assert("else"@.len() != "is"@.len());
            assert("else"@.len() != "of"@.len());
            assert("else"@.len() != "while"@.len());
            assert("else"@.len() != "for"@.len());
            assert("else"@.len() != "if"@.len());
        },
        Keyword::Type(Primitive::Int) => {
            assert("int"@[0] != "let"@[0]);
            assert("int"@.len() != "return"@.len());
            assert("int"@.len() != "fn"@.len());
            assert("int"@.len() != "in"@.len());
            assert("int"@.len() != "is"@.len());
            assert("int"@.len() != "of"@.len());
            assert("int"@.len() != "while"@.len());
            assert("int"@[0] != "for"@[0]);
            assert("int"@.len() != "if"@.len());
            assert("int"@.len() != "else"@.len());
        },
        Keyword::Type(Primitive::Str) => {
            assert("str"@[0] != "let"@[0]);
            assert("str"@.len() != "return"@.len());
            assert("str"@.len() != "fn"@.len());
            assert("str"@.len() != "in"@.len());
            assert("str"@.len() != "is"@.len());
            assert("str"@.len() != "of"@.len());
            assert("str"@.len() != "while"@.len());
            assert("str"@[0] != "for"@[0]);
            assert("str"@.len() != "if"@.len());
            assert("str"@.len() != "else"@.len());
            assert("str"@[0] != "int"@[0]);
        },
        Keyword::Type(Primitive::Double) => {
            assert("double"@.len() != "let"@.len());
            assert("double"@[0] != "return"@[0]);
            assert("double"@.len() != "fn"@.len());
            assert("double"@.len() != "in"@.len());
            assert("double"@.len() != "is"@.len());
            assert("double"@.len() != "of"@.len());
            assert("double"@.len() != "while"@.len());
            assert("double"@.len() != "for"@.len());
            assert("double"@.len() != "if"@.len());
            assert("double"@.len() != "else"@.len());
            assert("double"@.len() != "int"@.len());
            assert("double"@.len() != "str"@.len());
        },
        Keyword::Type(Primitive::Bool) => {
            assert("bool"@.len() != "let"@.len());
            assert("bool"@.len() != "return"@.len());
            assert("bool"@.len() != "fn"@.len());
            assert("bool"@.len() != "in"@.len());
            assert("bool"@.len() != "is"@.len());
            assert("bool"@.len() != "of"@.len());
            assert("bool"@.len() != "while"@.len());
            assert("bool"@.len() != "for"@.len());
            assert("bool"@.len() != "if"@.len());
            assert("bool"@[0] != "else"@[0]);
            assert("bool"@.len() != "int"@.len());
            assert("bool"@.len() != "str"@.len());
            assert("bool"@.len() != "double"@.len());
        },
        Keyword::Type(Primitive::Void) => {
            assert("void"@.len() != "let"@.len());
            assert("void"@.len() != "return"@.len());
            assert("void"@.len() != "fn"@.len());
            assert("void"@.len() != "in"@.len());
            assert("void"@.len() != "is"@.len());
            assert("void"@.len() != "of"@.len());
            assert("void"@.len() != "while"@.len());
            assert("void"@.len() != "for"@.len());
            assert("void"@.len() != "if"@.len());
            assert("void"@[0] != "else"@[0]);
            assert("void"@.len() != "int"@.len());
            assert("void"@.len() != "str"@.len());
            assert("void"@.len() != "double"@.len());
            assert("void"@[0] != "bool"@[0]);
        },
        Keyword::Struct => {
            assert("struct"@.len() != "let"@.len());
            assert("struct"@[0] != "return"@[0]);
            assert("struct"@.len() != "fn"@.len());
            assert("struct"@.len() != "in"@.len());
            assert("struct"@.len() != "is"@.len());
            assert("struct"@.len() != "of"@.len());
            assert("struct"@.len() != "while"@.len());
            assert("struct"@.len() != "for"@.len());
            assert("struct"@.len() != "if"@.len());
            assert("struct"@.len() != "else"@.len());
            assert("struct"@.len() != "int"@.len());
            assert("struct"@.len() != "str"@.len());
            assert("struct"@[0] != "double"@[0]);
            assert("struct"@.len() != "bool"@.len());
            assert("struct"@.len() != "void"@.len());
        },
        Keyword::Interface => {
            assert("interface"@.len() != "let"@.len());
            assert("interface"@.len() != "return"@.len());
            assert("interface"@.len() != "fn"@.len());
            assert("interface"@.len() != "in"@.len());
            assert("interface"@.len() != "is"@.len());
            assert("interface"@.len() != "of"@.len());
            assert("interface"@.len() != "while"@.len());
            assert("interface"@.len() != "for"@.len());
            assert("interface"@.len() != "if"@.len());
            assert("interface"@.len() != "else"@.len());
            assert("interface"@.len() != "int"@.len());
            assert("interface"@.len() != "str"@.len());
            assert("interface"@.len() != "double"@.len());
            assert("interface"@.len() != "bool"@.len());
            assert("interface"@.len() != "void"@.len());
            assert("interface"@.len() != "struct"@.len());
        },
        Keyword::Impl => {
            assert("impl"@.len() != "let"@.len());
            assert("impl"@.len() != "return"@.len());
            assert("impl"@.len() != "fn"@.len());
            assert("impl"@.len() != "in"@.len());
            assert("impl"@.len() != "is"@.len());
            assert("impl"@.len() != "of"@.len());
            assert("impl"@.len() != "while"@.len());
            assert("impl"@.len() != "for"@.len());
            assert("impl"@.len() != "if"@.len());
            assert("impl"@[0] != "else"@[0]);
            assert("impl"@.len() != "int"@.len());
            assert("impl"@.len() != "str"@.len());
            assert("impl"@.len() != "double"@.len());
            assert("impl"@[0] != "bool"@[0]);
            assert("impl"@[0] != "void"@[0]);
            assert("impl"@.len() != "struct"@.len());
            assert("impl"@.len() != "interface"@.len());
        },
    }
}

/// Each keyword's spelling, on its own, lexes to exactly that keyword.
pub proof fn keywords_lex_to_keywords(k: Keyword)
    ensures
        lex(spelling(k)) == Ok::<Seq<TokenView>, LexError>(
            seq![
                TokenView {
                    kind: TokenTypeView::Keyword(k),
                    line: 1,
                    col: spelling(k).len() + 1int,
                },
            ],
        ),
{
    lemma_spellings(k);
    lemma_lex_word(spelling(k));
}

/// A word that spells no keyword lexes to one identifier holding the word.
pub proof fn other_words_lex_to_identifiers(w: Seq<char>)
    requires
        is_word(w),
        forall|k: Keyword| spelling(k) != w,
    ensures
        lex(w) == Ok::<Seq<TokenView>, LexError>(
            seq![TokenView { kind: TokenTypeView::Identifier(w), line: 1, col: w.len() + 1int }],
        ),
{
    lemma_lex_word(w);
    if keyword_of(w) is Some {
        let k = keyword_of(w)->0;
        assert(spelling(k) == w);
    }
}

proof fn lemma_newline_positions(s: Seq<char>, j: int)
    requires
        0 <= j <= s.len(),
        forall|k: int| 0 <= k < s.len() ==> #[trigger] s[k] == '\n',
    ensures
        position_after(s.take(j)) == (j + 1, 1int),
    decreases j,
{
    if j > 0 {
        lemma_newline_positions(s, j - 1);
        lemma_position_step(s, j - 1);
    } else {
        assert(s.take(0) =~= Seq::<char>::empty());
    }
}

proof fn lemma_newline_tokens(s: Seq<char>, i: int)
    requires
        0 <= i <= s.len(),
        forall|k: int| 0 <= k < s.len() ==> #[trigger] s[k] == '\n',
    ensures
        lex_from(s, i) is Ok,
        lex_from(s, i)->Ok_0.len() == s.len() - i,
        forall|k: int|
            0 <= k < s.len() - i ==> #[trigger] lex_from(s, i)->Ok_0[k] == (TokenView {
                kind: TokenTypeView::Newline,
                line: i + k + 2,
                col: 1,
            }),
    decreases s.len() - i,
{
    if i < s.len() {
        lemma_newline_tokens(s, i + 1);
        lemma_newline_positions(s, i + 1);
        let rest = lex_from(s, i + 1)->Ok_0;
        let t = TokenView { kind: TokenTypeView::Newline, line: i + 2, col: 1 };
        assert(lex_from(s, i) == Ok::<Seq<TokenView>, LexError>(seq![t] + rest));
        assert forall|k: int| 0 <= k < s.len() - i implies #[trigger] (seq![t] + rest)[k] == (
        TokenView { kind: TokenTypeView::Newline, line: i + k + 2, col: 1 }) by {
            if k > 0 {
                assert(rest[k - 1] == TokenView {
                    kind: TokenTypeView::Newline,
                    line: (i + 1) + (k - 1) + 2,
                    col: 1,
                });
            }
        }
    }
}

/// A text of `n` newlines lexes to `n` newline tokens, the one for the k-th
/// newline (from 0) at line k + 2, column 1.
pub proof fn newlines_advance_lines(s: Seq<char>)
    requires
        forall|k: int| 0 <= k < s.len() ==> #[trigger] s[k] == '\n',
    ensures
        lex(s) is Ok,
        lex(s)->Ok_0.len() == s.len(),
        forall|k: int|
            0 <= k < s.len() ==> #[trigger] lex(s)->Ok_0[k] == (TokenView {
                kind: TokenTypeView::Newline,
                line: k + 2,
                col: 1,
            }),
{
    lemma_newline_tokens(s, 0);
}

/// `p` is a prefix of `s`.
pub open spec fn is_prefix(p: Seq<char>, s: Seq<char>) -> bool {
    p.len() <= s.len() && forall|k: int| 0 <= k < p.len() ==> #[trigger] s[k] == p[k]
}

/// `p` lexes, and its last token (if any) is not a comment, which would run
/// on into whatever follows.
pub open spec fn lexes_to_closed_tokens(p: Seq<char>, i: int) -> bool {
    &&& lex_from(p, i) is Ok
    &&& (lex_from(p, i)->Ok_0.len() == 0 || lex_from(p, i)->Ok_0.last().kind
        != TokenTypeView::Comment)
}

proof fn lemma_run_len_extend(p: Seq<char>, s: Seq<char>, j: int, class: CharClass)
    requires
        is_prefix(p, s),
        0 <= j <= p.len(),
        j + run_len(p, j, class) < p.len() || (p.len() < s.len() && !in_class(
            class,
            s[p.len() as int],
        )),
    ensures
        run_len(s, j, class) == run_len(p, j, class),
    decreases p.len() - j,
{
    if j < p.len() && in_class(class, p[j]) {
        lemma_run_len_extend(p, s, j + 1, class);
    }
}

/// A token that `p` holds whole starts the same way in an extension of `p`
/// by a quote.
proof fn lemma_scan_extend(p: Seq<char>, s: Seq<char>, i: int)
    requires
        is_prefix(p, s),
        p.len() < s.len(),
        s[p.len() as int] == '"',
        0 <= i < p.len(),
        scan(p, i) is Ok,
        i + scan(p, i)->Ok_0.1 < p.len() || scan(p, i)->Ok_0.0 != TokenTypeView::Comment,
    ensures
        scan(s, i) == scan(p, i),
{
    lemma_scan_len(p, i);
    let n = scan(p, i)->Ok_0.1;
    assert(s[i] == p[i]);
    if i + 1 < p.len() {
        assert(s[i + 1] == p[i + 1]);
    }
    lemma_run_len_extend(p, s, i + 1, CharClass::Blank);
    lemma_run_len_extend(p, s, i + 1, CharClass::Digit);
    lemma_run_len_extend(p, s, i + 1, CharClass::Word);
    lemma_run_len(p, i + 1, CharClass::NotQuote);
    if p[i] == '"' {
        lemma_run_len_extend(p, s, i + 1, CharClass::NotQuote);
        assert(s.subrange(i + 1, i + n - 1) =~= p.subrange(i + 1, i + n - 1));
    }
    if pair_kind(p, i) == Some(TokenTypeView::Comment) {
        lemma_run_len_extend(p, s, i + 2, CharClass::NotNewline);
    }
    assert(s.subrange(i, i + n) =~= p.subrange(i, i + n));
}

/// A text that lexes to closed tokens lexes to the same tokens, with the
/// same positions, at the head of any extension of it that starts with a
/// quote.
proof fn lemma_lex_extend(p: Seq<char>, s: Seq<char>, i: int)
    requires
        is_prefix(p, s),
        p.len() < s.len(),
        s[p.len() as int] == '"',
        0 <= i <= p.len(),
        lexes_to_closed_tokens(p, i),
    ensures
        lex_from(s, i) == prepend(lex_from(p, i)->Ok_0, lex_from(s, p.len() as int)),
    decreases p.len() - i,
{
    if i == p.len() {
        let r = lex_from(s, i);
        if r is Ok {
            assert(Seq::<TokenView>::empty() + r->Ok_0 =~= r->Ok_0);
        }
    } else {
        lemma_scan_len(p, i);
        let (k, n) = scan(p, i)->Ok_0;
        let rest = lex_from(p, i + n)->Ok_0;
        let (line, col) = position_after(p.take(i + n));
        let tok = TokenView { kind: k, line, col };
        assert(lex_from(p, i)->Ok_0 == seq![tok] + rest);
        if i + n < p.len() {
            lemma_scan_len(p, i + n);
            assert(rest.len() > 0);
            assert((seq![tok] + rest).last() == rest.last());
        } else {
            assert((seq![tok] + rest).last() == tok);
        }
        lemma_scan_extend(p, s, i);
        assert(s.take(i + n) =~= p.take(i + n));
        lemma_lex_extend(p, s, i + n);
        let tail = lex_from(s, p.len() as int);
        if tail is Ok {
            assert(seq![tok] + (rest + tail->Ok_0) =~= (seq![tok] + rest) + tail->Ok_0);
        }
    }
}

/// A text that opens a string literal after closed tokens and never closes
/// it fails to lex, with the error placed at the opening quote.
pub proof fn unterminated_string_fails(prefix: Seq<char>, body: Seq<char>)
    requires
        lexes_to_closed_tokens(prefix, 0),
        forall|k: int| 0 <= k < body.len() ==> #[trigger] body[k] != '"',
    ensures
        lex(prefix + seq!['"'] + body) == Err::<Seq<TokenView>, LexError>(
            LexError::UnterminatedString(position_at(prefix + seq!['"'] + body, prefix.len() as int)),
        ),
{
    let s = prefix + seq!['"'] + body;
    let q = prefix.len() as int;
    assert(s[q] == '"');
    assert forall|k: int| q + 1 <= k < s.len() implies in_class(CharClass::NotQuote, #[trigger] s[k]) by {
        assert(s[k] == body[k - q - 1]);
    }
    lemma_run_to_end(s, q + 1, CharClass::NotQuote);
    assert(is_prefix(prefix, s));
    lemma_lex_extend(prefix, s, 0);
}

/// Lexing depends on the text alone: two results that both meet the
/// contract of `tokenize` on one text hold equal tokens, one by one.
pub proof fn lexing_is_repeatable(
    s: Seq<char>,
    r1: Result<Vec<Token>, LexError>,
    r2: Result<Vec<Token>, LexError>,
)
    requires
        lex_result_view(r1) == lex(s),
        lex_result_view(r2) == lex(s),
    ensures
        r1 is Ok <==> r2 is Ok,
        r1 is Err ==> r1 == r2,
        r1 is Ok ==> r1->Ok_0@.len() == r2->Ok_0@.len() && forall|k: int|
            0 <= k < r1->Ok_0@.len() ==> #[trigger] r1->Ok_0@[k]@ == r2->Ok_0@[k]@,
{
    if r1 is Ok {
        let v1 = r1->Ok_0@;
        let v2 = r2->Ok_0@;
        assert(tokens_view(v1) == tokens_view(v2));
        assert(tokens_view(v1).len() == v1.len() && tokens_view(v2).len() == v2.len());
        assert forall|k: int| 0 <= k < v1.len() implies #[trigger] v1[k]@ == v2[k]@ by {
            assert(tokens_view(v1)[k] == tokens_view(v2)[k]);
        }
    }
}

} // verus!
