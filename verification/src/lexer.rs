//! Lexical analysis: source text to a flat token sequence.
//!
//! [`tokenize`] scans character by character and recognises integer literals
//! (with an optional leading `-`), double-quoted strings with a fixed escape
//! table, the keyword and punctuation set, and maximal identifier runs
//! (dotted names allowed).  [`tokenize_and_filter`] additionally strips
//! whitespace and comment tokens, which is what the parser consumes, while
//! the unfiltered stream stays available for introspection.
//!
//! The scanner's behaviour is pinned by the specification functions
//! [`lex_from`] and [`next_token`], which compute over the view of the input.

use vstd::prelude::*;

verus! {

use vstd::string::StrSliceExecFns;
use crate::WanderError;

/// One lexical token.  `Whitespace` and `Comment` appear only in the
/// unfiltered stream that [`tokenize`] returns.
#[derive(Debug, PartialEq, Eq)]
pub enum Token {
    /// A boolean literal, `true` or `false`.
    Boolean(bool),
    /// An integer literal.
    Int(i64),
    /// A string literal; the payload is the raw source text between the
    /// quotes, escape sequences intact.
    String(String),
    /// An identifier, possibly dotted, such as `x` or `Bool.and`.
    Name(String),
    /// The keyword `let`.
    Let,
    /// The keyword `in`.
    In,
    /// The keyword `end`.
    End,
    /// The keyword `if`.
    If,
    /// The keyword `then`.
    Then,
    /// The keyword `else`.
    Else,
    /// The keyword `val`.
    Val,
    /// The lambda marker `\`.
    Lambda,
    /// The arrow `->`.
    Arrow,
    /// The forward (pipe) operator `>>`.
    Pipe,
    /// `(`.
    OpenParen,
    /// `)`.
    CloseParen,
    /// `[`.
    OpenSquare,
    /// `]`.
    CloseSquare,
    /// `{`.
    OpenBrace,
    /// `}`.
    CloseBrace,
    /// `:`.
    Colon,
    /// `=`.
    EqualSign,
    /// `#`.
    Hash,
    /// `'`.
    SingleQuote,
    /// `?`, the question-mark spelling of the nothing literal.
    QuestionMark,
    /// The keyword `nothing`.
    Nothing,
    /// A maximal run of whitespace.
    Whitespace,
    /// A line comment, `--` to the end of the line.
    Comment,
}

/// The mathematical view of a [`Token`]: string payloads become character
/// sequences.
pub enum TokenV {
    /// View of `Token::Boolean`.
    Boolean(bool),
    /// View of `Token::Int`.
    Int(i64),
    /// View of `Token::String`.
    String(Seq<char>),
    /// View of `Token::Name`.
    Name(Seq<char>),
    /// View of `Token::Let`.
    Let,
    /// View of `Token::In`.
    In,
    /// View of `Token::End`.
    End,
    /// View of `Token::If`.
    If,
    /// View of `Token::Then`.
    Then,
    /// View of `Token::Else`.
    Else,
    /// View of `Token::Val`.
    Val,
    /// View of `Token::Lambda`.
    Lambda,
    /// View of `Token::Arrow`.
    Arrow,
    /// View of `Token::Pipe`.
    Pipe,
    /// View of `Token::OpenParen`.
    OpenParen,
    /// View of `Token::CloseParen`.
    CloseParen,
    /// View of `Token::OpenSquare`.
    OpenSquare,
    /// View of `Token::CloseSquare`.
    CloseSquare,
    /// View of `Token::OpenBrace`.
    OpenBrace,
    /// View of `Token::CloseBrace`.
    CloseBrace,
    /// View of `Token::Colon`.
    Colon,
    /// View of `Token::EqualSign`.
    EqualSign,
    /// View of `Token::Hash`.
    Hash,
    /// View of `Token::SingleQuote`.
    SingleQuote,
    /// View of `Token::QuestionMark`.
    QuestionMark,
    /// View of `Token::Nothing`.
    Nothing,
    /// View of `Token::Whitespace`.
    Whitespace,
    /// View of `Token::Comment`.
    Comment,
}

impl View for Token {
    type V = TokenV;

    open spec fn view(&self) -> TokenV {
        match self {
            Token::Boolean(b) => TokenV::Boolean(*b),
            Token::Int(n) => TokenV::Int(*n),
            Token::String(s) => TokenV::String(s@),
            Token::Name(s) => TokenV::Name(s@),
            Token::Let => TokenV::Let,
            Token::In => TokenV::In,
            Token::End => TokenV::End,
            Token::If => TokenV::If,
            Token::Then => TokenV::Then,
            Token::Else => TokenV::Else,
            Token::Val => TokenV::Val,
            Token::Lambda => TokenV::Lambda,
            Token::Arrow => TokenV::Arrow,
            Token::Pipe => TokenV::Pipe,
            Token::OpenParen => TokenV::OpenParen,
            Token::CloseParen => TokenV::CloseParen,
            Token::OpenSquare => TokenV::OpenSquare,
            Token::CloseSquare => TokenV::CloseSquare,
            Token::OpenBrace => TokenV::OpenBrace,
            Token::CloseBrace => TokenV::CloseBrace,
            Token::Colon => TokenV::Colon,
            Token::EqualSign => TokenV::EqualSign,
            Token::Hash => TokenV::Hash,
            Token::SingleQuote => TokenV::SingleQuote,
            Token::QuestionMark => TokenV::QuestionMark,
            Token::Nothing => TokenV::Nothing,
            Token::Whitespace => TokenV::Whitespace,
            Token::Comment => TokenV::Comment,
        }
    }
}

/// The views of a sequence of tokens.
pub open spec fn token_views(ts: Seq<Token>) -> Seq<TokenV> {
    ts.map_values(|t: Token| t@)
}

impl Clone for Token {
    /// Clones a token; the copy has the same view.
    fn clone(&self) -> (r: Self)
        ensures
            r@ == self@,
    {
        match self {
            Token::Boolean(b) => Token::Boolean(*b),
            Token::Int(n) => Token::Int(*n),
            Token::String(s) => Token::String(s.clone()),
            Token::Name(s) => Token::Name(s.clone()),
            Token::Let => Token::Let,
            Token::In => Token::In,
            Token::End => Token::End,
            Token::If => Token::If,
            Token::Then => Token::Then,
            Token::Else => Token::Else,
            Token::Val => Token::Val,
            Token::Lambda => Token::Lambda,
            Token::Arrow => Token::Arrow,
            Token::Pipe => Token::Pipe,
            Token::OpenParen => Token::OpenParen,
            Token::CloseParen => Token::CloseParen,
            Token::OpenSquare => Token::OpenSquare,
            Token::CloseSquare => Token::CloseSquare,
            Token::OpenBrace => Token::OpenBrace,
            Token::CloseBrace => Token::CloseBrace,
            Token::Colon => Token::Colon,
            Token::EqualSign => Token::EqualSign,
            Token::Hash => Token::Hash,
            Token::SingleQuote => Token::SingleQuote,
            Token::QuestionMark => Token::QuestionMark,
            Token::Nothing => Token::Nothing,
            Token::Whitespace => Token::Whitespace,
            Token::Comment => Token::Comment,
        }
    }
}

/// Clones a vector of tokens; the views are preserved pointwise.
pub fn clone_tokens(ts: &Vec<Token>) -> (r: Vec<Token>)
    ensures
        token_views(r@) == token_views(ts@),
{
    let mut out: Vec<Token> = Vec::new();
    let mut i: usize = 0;
    while i < ts.len()
        invariant
            i <= ts@.len(),
            out@.len() == i,
            forall|k: int| 0 <= k < i ==> #[trigger] out@[k]@ == ts@[k]@,
        decreases ts@.len() - i,
    {
        let t = ts[i].clone();
        let ghost old_out = out@;
        out.push(t);
        proof {
            assert(out@ == old_out.push(t));
            assert(out@[i as int]@ == ts@[i as int]@);
            assert(forall|k: int| 0 <= k < i ==> old_out.push(t)[k] == old_out[k]);
        }
        i = i + 1;
    }
    proof {
        assert(token_views(out@) =~= token_views(ts@));
    }
    out
}

// ---------------------------------------------------------------------------
// Character classes
// ---------------------------------------------------------------------------

/// Whitespace characters: space, tab, newline, carriage return.
pub open spec fn is_space_char(c: char) -> bool {
    c == ' ' || c == '\t' || c == '\n' || c == '\r'
}

/// Decimal digits.
pub open spec fn is_digit_char(c: char) -> bool {
    ('0' as u32) <= (c as u32) && (c as u32) <= ('9' as u32)
}

/// Characters that may begin an identifier.
pub open spec fn is_name_start_char(c: char) -> bool {
    (('a' as u32) <= (c as u32) && (c as u32) <= ('z' as u32))
        || (('A' as u32) <= (c as u32) && (c as u32) <= ('Z' as u32))
        || c == '_'
}

/// Characters that may continue an identifier; dots allow qualified names.
pub open spec fn is_name_char(c: char) -> bool {
    is_name_start_char(c) || is_digit_char(c) || c == '.'
}

/// The characters that may follow a backslash in a string literal.  The
/// carriage return belongs to the table because the renderer escapes it, so
/// every rendered string value must read back.
pub open spec fn is_escape_char(c: char) -> bool {
    c == 'n' || c == 't' || c == 'r' || c == '\\' || c == '"'
}

/// The numeric value of a digit character.
pub open spec fn digit_val(c: char) -> int {
    (c as u32) - ('0' as u32)
}

// ---------------------------------------------------------------------------
// Scanning specifications
// ---------------------------------------------------------------------------

/// The first position at or after `i` whose character is not whitespace.
pub open spec fn space_end(cs: Seq<char>, i: int) -> int
    decreases cs.len() - i,
{
    if 0 <= i && i < cs.len() && is_space_char(cs[i]) {
        space_end(cs, i + 1)
    } else {
        i
    }
}

/// The first position at or after `i` whose character is not a digit.
pub open spec fn digits_end(cs: Seq<char>, i: int) -> int
    decreases cs.len() - i,
{
    if 0 <= i && i < cs.len() && is_digit_char(cs[i]) {
        digits_end(cs, i + 1)
    } else {
        i
    }
}

/// The first position at or after `i` whose character is not an identifier
/// character.
pub open spec fn name_end(cs: Seq<char>, i: int) -> int
    decreases cs.len() - i,
{
    if 0 <= i && i < cs.len() && is_name_char(cs[i]) {
        name_end(cs, i + 1)
    } else {
        i
    }
}

/// The first position at or after `i` that holds a newline, or the end of the
/// input; a line comment runs to there.
pub open spec fn comment_end(cs: Seq<char>, i: int) -> int
    decreases cs.len() - i,
{
    if 0 <= i && i < cs.len() && cs[i] != '\n' {
        comment_end(cs, i + 1)
    } else {
        i
    }
}

/// The decimal value of the digit run `cs[i..j)`.
pub open spec fn digits_val(cs: Seq<char>, i: int, j: int) -> int
    decreases j - i,
{
    if i < j {
        digits_val(cs, i, j - 1) * 10 + digit_val(cs[j - 1])
    } else {
        0
    }
}

/// The categories of lexical error.
pub enum LexErr {
    /// A string literal with no closing quote before the end of the input.
    Unterminated,
    /// A backslash escape outside the accepted table.
    InvalidEscape,
    /// A character no token can start with, or a stray `-` or `>`.
    UnexpectedChar,
    /// An integer literal outside the signed 64-bit range.
    IntOverflow,
}

/// The error message the lexer reports for each error category.
pub open spec fn lex_err_msg(e: LexErr) -> Seq<char> {
    match e {
        LexErr::Unterminated => "unterminated string literal"@,
        LexErr::InvalidEscape => "invalid escape sequence in string literal"@,
        LexErr::UnexpectedChar => "unexpected character in script"@,
        LexErr::IntOverflow => "integer literal out of range"@,
    }
}

/// Scans the inside of a string literal from `i`, returning the position of
/// the closing quote.  Escapes must come from the accepted table; a literal
/// that ends before the closing quote is unterminated.
pub open spec fn string_scan(cs: Seq<char>, i: int) -> Result<int, LexErr>
    decreases cs.len() - i,
{
    if i < 0 || i >= cs.len() {
        Err(LexErr::Unterminated)
    } else if cs[i] == '"' {
        Ok(i)
    } else if cs[i] == '\\' {
        if i + 1 >= cs.len() {
            Err(LexErr::Unterminated)
        } else if is_escape_char(cs[i + 1]) {
            string_scan(cs, i + 2)
        } else {
            Err(LexErr::InvalidEscape)
        }
    } else {
        string_scan(cs, i + 1)
    }
}

/// Whether the view of a word is one of the fixed keywords.
pub open spec fn keyword_or_name(w: Seq<char>) -> TokenV {
    if w == "let"@ {
        TokenV::Let
    } else if w == "in"@ {
        TokenV::In
    } else if w == "end"@ {
        TokenV::End
    } else if w == "if"@ {
        TokenV::If
    } else if w == "then"@ {
        TokenV::Then
    } else if w == "else"@ {
        TokenV::Else
    } else if w == "val"@ {
        TokenV::Val
    } else if w == "true"@ {
        TokenV::Boolean(true)
    } else if w == "false"@ {
        TokenV::Boolean(false)
    } else if w == "nothing"@ {
        TokenV::Nothing
    } else {
        TokenV::Name(w)
    }
}

/// The largest magnitude of a negative 64-bit integer.
pub open spec fn i64_min_magnitude() -> int {
    0x8000_0000_0000_0000
}

/// The token starting at position `i`, with the position just after it; or
/// the lexical error the input provokes there.
pub open spec fn next_token(cs: Seq<char>, i: int) -> Result<(TokenV, int), LexErr>
    recommends
        0 <= i < cs.len(),
{
    let c = cs[i];
    if is_space_char(c) {
        Ok((TokenV::Whitespace, space_end(cs, i)))
    } else if c == '-' {
        if i + 1 < cs.len() && cs[i + 1] == '>' {
            Ok((TokenV::Arrow, i + 2))
        } else if i + 1 < cs.len() && cs[i + 1] == '-' {
            Ok((TokenV::Comment, comment_end(cs, i + 2)))
        } else if i + 1 < cs.len() && is_digit_char(cs[i + 1]) {
            let j = digits_end(cs, i + 1);
            let m = digits_val(cs, i + 1, j);
            if m <= i64_min_magnitude() {
                Ok((TokenV::Int((-m) as i64), j))
            } else {
                Err(LexErr::IntOverflow)
            }
        } else {
            Err(LexErr::UnexpectedChar)
        }
    } else if is_digit_char(c) {
        let j = digits_end(cs, i);
        let m = digits_val(cs, i, j);
        if m < i64_min_magnitude() {
            Ok((TokenV::Int(m as i64), j))
        } else {
            Err(LexErr::IntOverflow)
        }
    } else if c == '"' {
        match string_scan(cs, i + 1) {
            Ok(j) => Ok((TokenV::String(cs.subrange(i + 1, j)), j + 1)),
            Err(e) => Err(e),
        }
    } else if c == '>' {
        if i + 1 < cs.len() && cs[i + 1] == '>' {
            Ok((TokenV::Pipe, i + 2))
        } else {
            Err(LexErr::UnexpectedChar)
        }
    } else if c == '(' {
        Ok((TokenV::OpenParen, i + 1))
    } else if c == ')' {
        Ok((TokenV::CloseParen, i + 1))
    } else if c == '[' {
        Ok((TokenV::OpenSquare, i + 1))
    } else if c == ']' {
        Ok((TokenV::CloseSquare, i + 1))
    } else if c == '{' {
        Ok((TokenV::OpenBrace, i + 1))
    } else if c == '}' {
        Ok((TokenV::CloseBrace, i + 1))
    } else if c == ':' {
        Ok((TokenV::Colon, i + 1))
    } else if c == '=' {
        Ok((TokenV::EqualSign, i + 1))
    } else if c == '#' {
        Ok((TokenV::Hash, i + 1))
    } else if c == '\'' {
        Ok((TokenV::SingleQuote, i + 1))
    } else if c == '?' {
        Ok((TokenV::QuestionMark, i + 1))
    } else if c == '\\' {
        Ok((TokenV::Lambda, i + 1))
    } else if is_name_start_char(c) {
        let j = name_end(cs, i);
        Ok((keyword_or_name(cs.subrange(i, j)), j))
    } else {
        Err(LexErr::UnexpectedChar)
    }
}

/// The token sequence of the input from position `i` on, or the first
/// lexical error.  This is the lexer's defining specification.
pub open spec fn lex_from(cs: Seq<char>, i: int) -> Result<Seq<TokenV>, LexErr>
    decreases cs.len() - i,
{
    if i < 0 || i >= cs.len() {
        Ok(Seq::empty())
    } else {
        match next_token(cs, i) {
            Err(e) => Err(e),
            Ok((t, j)) => if i < j && j <= cs.len() {
                match lex_from(cs, j) {
                    Err(e) => Err(e),
                    Ok(rest) => Ok(seq![t] + rest),
                }
            } else {
                // No token scan moves backwards; this branch is never taken.
                Err(LexErr::UnexpectedChar)
            },
        }
    }
}

/// Whether a token is stripped before parsing.
pub open spec fn is_meta(t: TokenV) -> bool {
    t is Whitespace || t is Comment
}

/// The token sequence with whitespace and comments removed.
pub open spec fn strip_meta(ts: Seq<TokenV>) -> Seq<TokenV>
    decreases ts.len(),
{
    if ts.len() == 0 {
        Seq::empty()
    } else {
        strip_meta(ts.drop_last()) + if is_meta(ts.last()) {
            Seq::empty()
        } else {
            seq![ts.last()]
        }
    }
}

/// The filtered token sequence of a whole input: lex, then strip whitespace
/// and comments.
pub open spec fn lex_filtered(cs: Seq<char>) -> Result<Seq<TokenV>, LexErr> {
    match lex_from(cs, 0) {
        Ok(ts) => Ok(strip_meta(ts)),
        Err(e) => Err(e),
    }
}

// ---------------------------------------------------------------------------
// Executable helpers
// ---------------------------------------------------------------------------

/// Collects the characters of a string slice into a vector.
pub fn str_chars(s: &str) -> (r: Vec<char>)
    ensures
        r@ == s@,
{
    let n = s.unicode_len();
    let mut out: Vec<char> = Vec::new();
    let mut i: usize = 0;
    while i < n
        invariant
            n == s@.len(),
            i <= n,
            out@ == s@.subrange(0, i as int),
        decreases n - i,
    {
        out.push(s.get_char(i));
        proof {
            assert(out@ =~= s@.subrange(0, i + 1 as int));
        }
        i = i + 1;
    }
    proof {
        assert(out@ =~= s@);
    }
    out
}

/// Relies on `String::push`: appends exactly the one character to the string.
#[verifier::external_body]
pub(crate) fn push_char(s: &mut String, c: char)
    ensures
        final(s)@ == old(s)@.push(c),
{
    s.push(c);
}

/// Builds a string from the character range `cs[from..to)`.
pub fn chars_to_string(cs: &Vec<char>, from: usize, to: usize) -> (r: String)
    requires
        from <= to <= cs@.len(),
    ensures
        r@ == cs@.subrange(from as int, to as int),
{
    let mut out = String::new();
    let mut i: usize = from;
    while i < to
        invariant
            from <= i <= to <= cs@.len(),
            out@ == cs@.subrange(from as int, i as int),
        decreases to - i,
    {
        push_char(&mut out, cs[i]);
        proof {
            assert(out@ =~= cs@.subrange(from as int, i + 1 as int));
        }
        i = i + 1;
    }
    out
}

/// Compares two string slices character by character.
pub fn str_eq(a: &str, b: &str) -> (r: bool)
    ensures
        r == (a@ == b@),
{
    let na = a.unicode_len();
    let nb = b.unicode_len();
    if na != nb {
        proof {
            assert(a@ != b@) by {
                assert(a@.len() != b@.len());
            }
        }
        return false;
    }
    let mut i: usize = 0;
    while i < na
        invariant
            na == a@.len(),
            na == b@.len(),
            i <= na,
            forall|k: int| 0 <= k < i ==> a@[k] == b@[k],
        decreases na - i,
    {
        let ca = a.get_char(i);
        let cb = b.get_char(i);
        if (ca as u32) != (cb as u32) {
            proof {
                assert(a@[i as int] != b@[i as int]) by {
                    assert(ca as u32 != cb as u32);
                }
            }
            return false;
        }
        i = i + 1;
    }
    proof {
        assert(a@ =~= b@);
    }
    true
}

/// Whether a character is whitespace.
fn ch_is_space(c: char) -> (r: bool)
    ensures
        r == is_space_char(c),
{
    c == ' ' || c == '\t' || c == '\n' || c == '\r'
}

/// Whether a character is a decimal digit.
fn ch_is_digit(c: char) -> (r: bool)
    ensures
        r == is_digit_char(c),
{
    ('0' as u32) <= (c as u32) && (c as u32) <= ('9' as u32)
}

/// Whether a character may begin an identifier.
fn ch_is_name_start(c: char) -> (r: bool)
    ensures
        r == is_name_start_char(c),
{
    (('a' as u32) <= (c as u32) && (c as u32) <= ('z' as u32)) || (('A' as u32) <= (c as u32) && (c
        as u32) <= ('Z' as u32)) || c == '_'
}

/// Whether a character may continue an identifier.
fn ch_is_name(c: char) -> (r: bool)
    ensures
        r == is_name_char(c),
{
    ch_is_name_start(c) || ch_is_digit(c) || c == '.'
}

/// Whether a character may follow a backslash in a string literal.
pub fn ch_is_escape(c: char) -> (r: bool)
    ensures
        r == is_escape_char(c),
{
    c == 'n' || c == 't' || c == 'r' || c == '\\' || c == '"'
}

/// Scans a whitespace run starting at `i`.
fn scan_spaces(cs: &Vec<char>, i: usize) -> (r: usize)
    requires
        i <= cs@.len(),
    ensures
        r == space_end(cs@, i as int),
        i <= r <= cs@.len(),
{
    let mut j: usize = i;
    while j < cs.len() && ch_is_space(cs[j])
        invariant
            i <= j <= cs@.len(),
            space_end(cs@, i as int) == space_end(cs@, j as int),
        decreases cs@.len() - j,
    {
        j = j + 1;
    }
    j
}

/// Scans a digit run starting at `i`.
fn scan_digits(cs: &Vec<char>, i: usize) -> (r: usize)
    requires
        i <= cs@.len(),
    ensures
        r == digits_end(cs@, i as int),
        i <= r <= cs@.len(),
{
    let mut j: usize = i;
    while j < cs.len() && ch_is_digit(cs[j])
        invariant
            i <= j <= cs@.len(),
            digits_end(cs@, i as int) == digits_end(cs@, j as int),
        decreases cs@.len() - j,
    {
        j = j + 1;
    }
    j
}

/// Scans an identifier run starting at `i`.
fn scan_name(cs: &Vec<char>, i: usize) -> (r: usize)
    requires
        i <= cs@.len(),
    ensures
        r == name_end(cs@, i as int),
        i <= r <= cs@.len(),
{
    let mut j: usize = i;
    while j < cs.len() && ch_is_name(cs[j])
        invariant
            i <= j <= cs@.len(),
            name_end(cs@, i as int) == name_end(cs@, j as int),
        decreases cs@.len() - j,
    {
        j = j + 1;
    }
    j
}

/// Scans a line comment body starting at `i`.
fn scan_comment(cs: &Vec<char>, i: usize) -> (r: usize)
    requires
        i <= cs@.len(),
    ensures
        r == comment_end(cs@, i as int),
        i <= r <= cs@.len(),
{
    let mut j: usize = i;
    while j < cs.len() && cs[j] != '\n'
        invariant
            i <= j <= cs@.len(),
            comment_end(cs@, i as int) == comment_end(cs@, j as int),
        decreases cs@.len() - j,
    {
        j = j + 1;
    }
    j
}

/// Every position in a digit run holds a digit.
proof fn lemma_digits_end_digits(cs: Seq<char>, i: int, k: int)
    requires
        0 <= i <= k < digits_end(cs, i),
    ensures
        is_digit_char(cs[k]),
        digits_end(cs, i) <= cs.len(),
    decreases k - i,
{
    if i < k {
        lemma_digits_end_digits(cs, i + 1, k);
    } else {
        assert(is_digit_char(cs[i]));
        lemma_digits_end_in_range(cs, i);
    }
}

/// A digit run ends within the input.
proof fn lemma_digits_end_in_range(cs: Seq<char>, i: int)
    requires
        0 <= i <= cs.len(),
    ensures
        i <= digits_end(cs, i) <= cs.len(),
    decreases cs.len() - i,
{
    if i < cs.len() && is_digit_char(cs[i]) {
        lemma_digits_end_in_range(cs, i + 1);
    }
}

/// Appending further digits never shrinks the value of a digit run.
proof fn lemma_digits_val_grows(cs: Seq<char>, s: int, i: int, j: int)
    requires
        s <= i <= j,
        forall|k: int| s <= k < j ==> 0 <= #[trigger] digit_val(cs[k]) <= 9,
    ensures
        digits_val(cs, s, i) <= digits_val(cs, s, j),
        digits_val(cs, s, i) >= 0,
    decreases j - i,
{
    if i < j {
        lemma_digits_val_grows(cs, s, i, j - 1);
        lemma_digits_val_nonneg(cs, s, j - 1);
        assert(digits_val(cs, s, j) == digits_val(cs, s, j - 1) * 10 + digit_val(cs[j - 1]));
        assert(digits_val(cs, s, j - 1) * 10 >= digits_val(cs, s, j - 1)) by (nonlinear_arith)
            requires
                digits_val(cs, s, j - 1) >= 0,
        ;
    } else {
        lemma_digits_val_nonneg(cs, s, i);
    }
}

/// The value of a run of digits is not negative.
proof fn lemma_digits_val_nonneg(cs: Seq<char>, s: int, j: int)
    requires
        forall|k: int| s <= k < j ==> 0 <= #[trigger] digit_val(cs[k]) <= 9,
    ensures
        digits_val(cs, s, j) >= 0,
    decreases j - s,
{
    if s < j {
        lemma_digits_val_nonneg(cs, s, j - 1);
        assert(digits_val(cs, s, j - 1) * 10 >= 0) by (nonlinear_arith)
            requires
                digits_val(cs, s, j - 1) >= 0,
        ;
    }
}

/// Reads the value of the digit run `cs[i..j)`, reporting when it exceeds
/// `limit`.
fn read_digits(cs: &Vec<char>, i: usize, j: usize, limit: u64) -> (r: Option<u64>)
    requires
        i <= j <= cs@.len(),
        forall|k: int| i <= k < j ==> is_digit_char(cs@[k]),
    ensures
        match r {
            Some(v) => v as int == digits_val(cs@, i as int, j as int) && v <= limit,
            None => digits_val(cs@, i as int, j as int) > limit,
        },
{
    proof {
        assert(forall|k: int|
            i <= k < j ==> 0 <= #[trigger] digit_val(cs@[k]) <= 9);
    }
    let mut acc: u64 = 0;
    let mut p: usize = i;
    while p < j
        invariant
            i <= p <= j <= cs@.len(),
            forall|k: int| i <= k < j ==> 0 <= #[trigger] digit_val(cs@[k]) <= 9,
            acc as int == digits_val(cs@, i as int, p as int),
            acc <= limit,
        decreases j - p,
    {
        proof {
            assert(0 <= digit_val(cs@[p as int]) <= 9);
        }
        let d: u64 = ((cs[p] as u32) - ('0' as u32)) as u64;
        assert(d as int == digit_val(cs@[p as int]));
        if acc > limit / 10 || (acc == limit / 10 && d > limit % 10) {
            proof {
                assert(digits_val(cs@, i as int, p + 1 as int) > limit) by (nonlinear_arith)
                    requires
                        digits_val(cs@, i as int, p + 1 as int) == digits_val(
                            cs@,
                            i as int,
                            p as int,
                        ) * 10 + digit_val(cs@[p as int]),
                        digits_val(cs@, i as int, p as int) == acc as int,
                        digit_val(cs@[p as int]) == d as int,
                        acc > limit / 10 || (acc == limit / 10 && d > limit % 10),
                        limit == (limit / 10) * 10 + limit % 10,
                        0 <= limit % 10 < 10,
                        d <= 9,
                ;
                lemma_digits_val_grows(cs@, i as int, p + 1, j as int);
            }
            return None;
        }
        proof {
            assert(acc * 10 + d <= limit) by (nonlinear_arith)
                requires
                    acc <= limit / 10,
                    acc < limit / 10 || d <= limit % 10,
                    limit == (limit / 10) * 10 + limit % 10,
                    0 <= limit % 10 < 10,
                    0 <= d <= 9,
            ;
        }
        acc = acc * 10 + d;
        p = p + 1;
    }
    Some(acc)
}

/// Recognises the keyword spelled by a word, or wraps it as a name.
fn word_token(w: String) -> (r: Token)
    ensures
        r@ == keyword_or_name(w@),
{
    if str_eq(w.as_str(), "let") {
        Token::Let
    } else if str_eq(w.as_str(), "in") {
        Token::In
    } else if str_eq(w.as_str(), "end") {
        Token::End
    } else if str_eq(w.as_str(), "if") {
        Token::If
    } else if str_eq(w.as_str(), "then") {
        Token::Then
    } else if str_eq(w.as_str(), "else") {
        Token::Else
    } else if str_eq(w.as_str(), "val") {
        Token::Val
    } else if str_eq(w.as_str(), "true") {
        Token::Boolean(true)
    } else if str_eq(w.as_str(), "false") {
        Token::Boolean(false)
    } else if str_eq(w.as_str(), "nothing") {
        Token::Nothing
    } else {
        Token::Name(w)
    }
}

/// Scans the token starting at position `i`.
fn next_token_at(cs: &Vec<char>, i: usize) -> (r: Result<(Token, usize), WanderError>)
    requires
        i < cs@.len(),
    ensures
        match r {
            Ok(p) => {
                &&& next_token(cs@, i as int) == Ok::<(TokenV, int), LexErr>((p.0@, p.1 as int))
                &&& i < p.1 <= cs@.len()
            },
            Err(e) => {
                &&& next_token(cs@, i as int) is Err
                &&& next_token(cs@, i as int) matches Err(k) && e.0@ == lex_err_msg(k)
            },
        },
{
    let n = cs.len();
    assert(i < n);
    let c = cs[i];
    if ch_is_space(c) {
        let j = scan_spaces(cs, i + 1);
        assert(j == space_end(cs@, i as int));
        Ok((Token::Whitespace, j))
    } else if c == '-' {
        if i + 1 < n && cs[i + 1] == '>' {
            Ok((Token::Arrow, i + 2))
        } else if i + 1 < n && cs[i + 1] == '-' {
            let j = scan_comment(cs, i + 2);
            Ok((Token::Comment, j))
        } else if i + 1 < n && ch_is_digit(cs[i + 1]) {
            let j = scan_digits(cs, i + 1);
            proof {
                assert forall|k: int| i + 1 <= k < j implies is_digit_char(cs@[k]) by {
                    lemma_digits_end_digits(cs@, i + 1, k);
                }
            }
            match read_digits(cs, i + 1, j, 0x8000_0000_0000_0000u64) {
                Some(m) => {
                    let v: i64 = if m == 0x8000_0000_0000_0000u64 {
                        i64::MIN
                    } else {
                        -(m as i64)
                    };
                    assert(v as int == -(digits_val(cs@, i + 1, j as int)));
                    Ok((Token::Int(v), j))
                },
                None => Err(WanderError(msg_of(LexErr::IntOverflow))),
            }
        } else {
            Err(WanderError(msg_of(LexErr::UnexpectedChar)))
        }
    } else if ch_is_digit(c) {
        let j = scan_digits(cs, i + 1);
        assert(j == digits_end(cs@, i as int));
        proof {
            assert forall|k: int| i <= k < j implies is_digit_char(cs@[k]) by {
                lemma_digits_end_digits(cs@, i as int, k);
            }
        }
        match read_digits(cs, i, j, 0x7FFF_FFFF_FFFF_FFFFu64) {
            Some(m) => Ok((Token::Int(m as i64), j)),
            None => Err(WanderError(msg_of(LexErr::IntOverflow))),
        }
    } else if c == '"' {
        match scan_string(cs, i + 1) {
            Ok(j) => {
                let content = chars_to_string(cs, i + 1, j);
                Ok((Token::String(content), j + 1))
            },
            Err(k) => Err(WanderError(msg_of(k))),
        }
    } else if c == '>' {
        if i + 1 < n && cs[i + 1] == '>' {
            Ok((Token::Pipe, i + 2))
        } else {
            Err(WanderError(msg_of(LexErr::UnexpectedChar)))
        }
    } else if c == '(' {
        Ok((Token::OpenParen, i + 1))
    } else if c == ')' {
        Ok((Token::CloseParen, i + 1))
    } else if c == '[' {
        Ok((Token::OpenSquare, i + 1))
    } else if c == ']' {
        Ok((Token::CloseSquare, i + 1))
    } else if c == '{' {
        Ok((Token::OpenBrace, i + 1))
    } else if c == '}' {
        Ok((Token::CloseBrace, i + 1))
    } else if c == ':' {
        Ok((Token::Colon, i + 1))
    } else if c == '=' {
        Ok((Token::EqualSign, i + 1))
    } else if c == '#' {
        Ok((Token::Hash, i + 1))
    } else if c == '\'' {
        Ok((Token::SingleQuote, i + 1))
    } else if c == '?' {
        Ok((Token::QuestionMark, i + 1))
    } else if c == '\\' {
        Ok((Token::Lambda, i + 1))
    } else if ch_is_name_start(c) {
        let j = scan_name(cs, i + 1);
        assert(j == name_end(cs@, i as int));
        let w = chars_to_string(cs, i, j);
        Ok((word_token(w), j))
    } else {
        Err(WanderError(msg_of(LexErr::UnexpectedChar)))
    }
}

/// Builds the message string for a lexical error category.
fn msg_of(e: LexErr) -> (r: String)
    ensures
        r@ == lex_err_msg(e),
{
    match e {
        LexErr::Unterminated => "unterminated string literal".to_owned(),
        LexErr::InvalidEscape => "invalid escape sequence in string literal".to_owned(),
        LexErr::UnexpectedChar => "unexpected character in script".to_owned(),
        LexErr::IntOverflow => "integer literal out of range".to_owned(),
    }
}

/// Scans the body of a string literal, mirroring [`string_scan`].
fn scan_string(cs: &Vec<char>, i: usize) -> (r: Result<usize, LexErr>)
    requires
        i <= cs@.len(),
    ensures
        match r {
            Ok(j) => string_scan(cs@, i as int) == Ok::<int, LexErr>(j as int) && i <= j
                < cs@.len(),
            Err(e) => string_scan(cs@, i as int) == Err::<int, LexErr>(e),
        },
    decreases cs@.len() - i,
{
    if i >= cs.len() {
        Err(LexErr::Unterminated)
    } else if cs[i] == '"' {
        Ok(i)
    } else if cs[i] == '\\' {
        if i + 1 >= cs.len() {
            Err(LexErr::Unterminated)
        } else if ch_is_escape(cs[i + 1]) {
            scan_string(cs, i + 2)
        } else {
            Err(LexErr::InvalidEscape)
        }
    } else {
        scan_string(cs, i + 1)
    }
}

/// Scans raw text into a flat token sequence, whitespace and comments
/// included.  The result is exactly what [`lex_from`] computes on the view of
/// the input; an input with a lexical fault yields the error message of the
/// first fault and no token list.
pub fn tokenize(script: &str) -> (r: Result<Vec<Token>, WanderError>)
    ensures
        match r {
            Ok(ts) => lex_from(script@, 0) == Ok::<Seq<TokenV>, LexErr>(token_views(ts@)),
            Err(e) => lex_from(script@, 0) matches Err(k) && e.0@ == lex_err_msg(k),
        },
{
    let cs = str_chars(script);
    let mut out: Vec<Token> = Vec::new();
    let mut pos: usize = 0;
    while pos < cs.len()
        invariant
            cs@ == script@,
            pos <= cs@.len(),
            match lex_from(cs@, pos as int) {
                Ok(rest) => lex_from(cs@, 0) == Ok::<Seq<TokenV>, LexErr>(
                    token_views(out@) + rest,
                ),
                Err(k) => lex_from(cs@, 0) == Err::<Seq<TokenV>, LexErr>(k),
            },
        decreases cs@.len() - pos,
    {
        match next_token_at(&cs, pos) {
            Ok((t, j)) => {
                proof {
                    let rest0 = lex_from(cs@, pos as int);
                    assert(lex_from(cs@, pos as int) == match lex_from(cs@, j as int) {
                        Err(e) => Err::<Seq<TokenV>, LexErr>(e),
                        Ok(rest) => Ok::<Seq<TokenV>, LexErr>(seq![t@] + rest),
                    });
                }
                let ghost old_out = out@;
                out.push(t);
                proof {
                    assert(token_views(out@) =~= token_views(old_out) + seq![out@.last()@]);
                    if lex_from(cs@, j as int) is Ok {
                        assert(token_views(out@) + lex_from(cs@, j as int)->Ok_0 =~= token_views(
                            old_out,
                        ) + (seq![t@] + lex_from(cs@, j as int)->Ok_0));
                    }
                }
                pos = j;
            },
            Err(e) => {
                return Err(e);
            },
        }
    }
    proof {
        assert(token_views(out@) + Seq::<TokenV>::empty() =~= token_views(out@));
    }
    Ok(out)
}

/// A registered rewrite pass over the token stream, applied before parsing.
/// A transformer sees tokens only; it may rewrite them or reject the stream
/// with an error, which aborts the pipeline.  The library states nothing
/// about what an implementation returns.
pub trait TokenTransformer {
    /// Rewrites a token stream, or rejects it.
    fn transform(&self, tokens: &Vec<Token>) -> Result<Vec<Token>, WanderError>;
}

/// A transformer that leaves every token stream unchanged, for embeddings
/// that need none.
#[derive(Debug)]
pub struct NoTransformer {}

impl TokenTransformer for NoTransformer {
    /// Returns the tokens unchanged.
    fn transform(&self, tokens: &Vec<Token>) -> Result<Vec<Token>, WanderError> {
        Ok(clone_tokens(tokens))
    }
}

/// A trivially true marker naming the witnesses of one transformer-chain
/// step; introduction proofs instantiate it.
pub open spec fn chain_witness<A>(a: A) -> bool {
    true
}

/// The registered transformers applied in order from index `i` onwards:
/// each step hands the current stream to the next transformer, whose outcome
/// is exactly some result its `transform` can return on that stream; the
/// first rejection stops the chain with that error, and the last output is
/// the chain's result.
pub open spec fn transform_steps<X: TokenTransformer>(
    tfs: Seq<(Seq<char>, X)>,
    i: int,
    cur: Vec<Token>,
    out: Result<Vec<Token>, WanderError>,
) -> bool
    decreases tfs.len() - i,
{
    if i < 0 || i >= tfs.len() {
        out == Ok::<Vec<Token>, WanderError>(cur)
    } else {
        exists|rr: Result<Vec<Token>, WanderError>|
            {
                &&& #[trigger] chain_witness(rr)
                &&& call_ensures(X::transform, (&tfs[i].1, &cur), rr)
                &&& match rr {
                    Err(_) => out == rr,
                    Ok(ts) => transform_steps(tfs, i + 1, ts, out),
                }
            }
    }
}

/// Applies the registered transformers to the stream from index `i` on.
fn transform_from<T, F, X: TokenTransformer>(
    current: Vec<Token>,
    i: usize,
    bindings: &crate::bindings::Bindings<T, F, X>,
) -> (r: Result<Vec<Token>, WanderError>)
    requires
        i <= bindings@.transformers.len(),
    ensures
        transform_steps(bindings@.transformers, i as int, current, r),
    decreases bindings@.transformers.len() - i,
{
    let n = bindings.transformer_count();
    if i >= n {
        return Ok(current);
    }
    let x = bindings.transformer_at(i);
    let rr = x.transform(&current);
    proof {
        assert(chain_witness(rr));
        assert(*x == bindings@.transformers[i as int].1);
    }
    match rr {
        Err(e) => Err(e),
        Ok(ts) => transform_from(ts, i + 1, bindings),
    }
}

/// Applies every registered token transformer to the stream, in registration
/// order; the first rejection aborts.  The result is the end of the chain
/// [`transform_steps`] describes, started on a stream with the input's token
/// views; with no transformers registered the stream comes back unchanged
/// (same token views).
pub fn transform<T, F, X: TokenTransformer>(
    tokens: &Vec<Token>,
    bindings: &crate::bindings::Bindings<T, F, X>,
) -> (r: Result<Vec<Token>, WanderError>)
    ensures
        exists|start: Vec<Token>|
            {
                &&& #[trigger] chain_witness(start)
                &&& token_views(start@) == token_views(tokens@)
                &&& transform_steps(bindings@.transformers, 0, start, r)
            },
        bindings@.transformers.len() == 0 ==> (r matches Ok(ts) && token_views(ts@)
            == token_views(tokens@)),
{
    let start = clone_tokens(tokens);
    let ghost s0 = start;
    let r = transform_from(start, 0, bindings);
    proof {
        assert(chain_witness(s0));
        if bindings@.transformers.len() == 0 {
            assert(r == Ok::<Vec<Token>, WanderError>(s0));
        }
    }
    r
}

/// Scans raw text and strips whitespace and comment tokens: the stream the
/// parser consumes.  The result is exactly [`lex_filtered`] on the view of
/// the input.
pub fn tokenize_and_filter(script: &str) -> (r: Result<Vec<Token>, WanderError>)
    ensures
        match r {
            Ok(ts) => lex_filtered(script@) == Ok::<Seq<TokenV>, LexErr>(token_views(ts@)),
            Err(e) => lex_filtered(script@) matches Err(k) && e.0@ == lex_err_msg(k),
        },
{
    let all = match tokenize(script) {
        Ok(ts) => ts,
        Err(e) => {
            return Err(e);
        },
    };
    let mut out: Vec<Token> = Vec::new();
    let mut i: usize = 0;
    while i < all.len()
        invariant
            i <= all@.len(),
            token_views(out@) == strip_meta(token_views(all@.subrange(0, i as int))),
        decreases all@.len() - i,
    {
        let keep = match &all[i] {
            Token::Whitespace => false,
            Token::Comment => false,
            _ => true,
        };
        let ghost prefix = token_views(all@.subrange(0, i as int));
        let ghost prefix2 = token_views(all@.subrange(0, i + 1 as int));
        proof {
            assert(prefix2.drop_last() =~= prefix);
            assert(prefix2.last() == all@[i as int]@);
        }
        if keep {
            out.push(all[i].clone());
            proof {
                assert(token_views(out@) =~= strip_meta(prefix2));
            }
        } else {
            proof {
                assert(token_views(out@) =~= strip_meta(prefix2));
            }
        }
        i = i + 1;
    }
    proof {
        assert(all@.subrange(0, all@.len() as int) =~= all@);
    }
    Ok(out)
}

} // verus!
