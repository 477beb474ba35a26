//! The lexer: turns C source text into a sequence of tokens ending in `Eof`.

pub mod lexer;
pub mod token;

use vstd::prelude::*;
use crate::text::{chars_of, owned, push_char, push_str};

verus! {

/// The kinds of tokens of the C subset.
#[derive(Debug, PartialEq, Eq, Clone, Copy, Structural)]
pub enum TokenType {
    Identifier,
    Number,
    // Keywords
    Int,
    Void,
    Return,
    If,
    Else,
    Do,
    While,
    For,
    Break,
    Continue,
    // Punctuation
    LeftParen,
    RightParen,
    LeftBrace,
    RightBrace,
    Semicolon,
    Comma,
    QuestionMark,
    Colon,
    // Operators
    Assignment,
    Complement,
    Negate,
    Bang,
    Add,
    Mul,
    Div,
    Remainder,
    And,
    Or,
    EqualEqual,
    BangEqual,
    Less,
    LessEqual,
    Greater,
    GreaterEqual,
    // End of input
    Eof,
}

/// A token: its text, its kind, and (for identifiers and numbers) its value.
#[derive(Debug, Clone)]
pub struct Token {
    pub lexeme: String,
    pub type_: TokenType,
    pub value: Option<String>,
}

/// The mathematical content of a token.
pub struct TokenView {
    pub lexeme: Seq<char>,
    pub type_: TokenType,
    pub value: Option<Seq<char>>,
}

impl View for Token {
    type V = TokenView;

    open spec fn view(&self) -> TokenView {
        TokenView {
            lexeme: self.lexeme@,
            type_: self.type_,
            value: match self.value {
                Some(v) => Some(v@),
                None => None,
            },
        }
    }
}

/// Whether a character has the Unicode `White_Space` property, which std's
/// `char::is_whitespace` tests: U+0009 to U+000D, the space, U+0085, U+00A0,
/// U+1680, U+2000 to U+200A, U+2028, U+2029, U+202F, U+205F and U+3000.
pub open spec fn unicode_whitespace(c: char) -> bool {
    ||| ('\u{9}' <= c <= '\u{d}')
    ||| c == ' '
    ||| c == '\u{85}'
    ||| c == '\u{a0}'
    ||| c == '\u{1680}'
    ||| ('\u{2000}' <= c <= '\u{200a}')
    ||| c == '\u{2028}'
    ||| c == '\u{2029}'
    ||| c == '\u{202f}'
    ||| c == '\u{205f}'
    ||| c == '\u{3000}'
}

/// Whether a character outside ASCII has the Unicode `Alphabetic` property
/// (std `char::is_alphabetic`).
pub uninterp spec fn non_ascii_alphabetic(c: char) -> bool;

/// Whether a character outside ASCII is alphabetic or numeric in Unicode
/// (std `char::is_alphanumeric`).
pub uninterp spec fn non_ascii_alphanumeric(c: char) -> bool;

/// An ASCII letter.
pub open spec fn is_ascii_letter(c: char) -> bool {
    ('a' <= c <= 'z') || ('A' <= c <= 'Z')
}

/// The Unicode `Alphabetic` property: among ASCII characters exactly the
/// letters have it.
pub open spec fn unicode_alphabetic(c: char) -> bool {
    if c <= '\u{7f}' {
        is_ascii_letter(c)
    } else {
        non_ascii_alphabetic(c)
    }
}

/// Alphabetic or numeric in Unicode: among ASCII characters exactly the
/// letters and the decimal digits.
pub open spec fn unicode_alphanumeric(c: char) -> bool {
    if c <= '\u{7f}' {
        is_ascii_letter(c) || ('0' <= c <= '9')
    } else {
        non_ascii_alphanumeric(c)
    }
}

/// Whether `c` has the Unicode `White_Space` property, as std's
/// `char::is_whitespace` tests it.
pub(crate) fn is_whitespace(c: char) -> (r: bool)
    ensures
        r == unicode_whitespace(c),
{
    ('\u{9}' <= c && c <= '\u{d}') || c == ' ' || c == '\u{85}' || c == '\u{a0}' || c == '\u{1680}'
        || ('\u{2000}' <= c && c <= '\u{200a}') || c == '\u{2028}' || c == '\u{2029}' || c == '\u{202f}'
        || c == '\u{205f}' || c == '\u{3000}'
}

/// Calls std's `char::is_alphabetic`. Of an ASCII character the contract
/// states the result (exactly the letters are alphabetic); of any other
/// character the result is named, not described.
#[verifier::external_body]
pub(crate) fn is_alphabetic(c: char) -> (r: bool)
    ensures
        r == (if c <= '\u{7f}' { is_ascii_letter(c) } else { non_ascii_alphabetic(c) }),
{
    c.is_alphabetic()
}

/// Calls std's `char::is_alphanumeric`. Of an ASCII character the contract
/// states the result (exactly the letters and digits are alphanumeric); of
/// any other character the result is named, not described.
#[verifier::external_body]
pub(crate) fn is_alphanumeric(c: char) -> (r: bool)
    ensures
        r == (if c <= '\u{7f}' {
            is_ascii_letter(c) || ('0' <= c <= '9')
        } else {
            non_ascii_alphanumeric(c)
        }),
{
    c.is_alphanumeric()
}

/// A decimal digit `0`-`9`.
pub open spec fn is_ascii_digit(c: char) -> bool {
    '0' <= c <= '9'
}

/// A character that may start an identifier or keyword.
pub open spec fn starts_identifier(c: char) -> bool {
    ('a' <= c <= 'z') || ('A' <= c <= 'Z') || c == '_'
}

/// A character that may continue an identifier.
pub open spec fn continues_identifier(c: char) -> bool {
    unicode_alphanumeric(c) || c == '_'
}

/// The first index at or after `i` that is not a decimal digit.
pub open spec fn digits_end(s: Seq<char>, i: int) -> int
    decreases s.len() - i,
{
    if i < 0 || i >= s.len() || !is_ascii_digit(s[i]) {
        i
    } else {
        digits_end(s, i + 1)
    }
}

/// The first index at or after `i` that cannot continue an identifier.
pub open spec fn ident_end(s: Seq<char>, i: int) -> int
    decreases s.len() - i,
{
    if i < 0 || i >= s.len() || !continues_identifier(s[i]) {
        i
    } else {
        ident_end(s, i + 1)
    }
}

/// The kind of a single-character token, if `c` is one.
pub open spec fn single_char_kind(c: char) -> Option<TokenType> {
    if c == '(' { Some(TokenType::LeftParen) }
    else if c == ')' { Some(TokenType::RightParen) }
    else if c == '{' { Some(TokenType::LeftBrace) }
    else if c == '}' { Some(TokenType::RightBrace) }
    else if c == ';' { Some(TokenType::Semicolon) }
    else if c == ',' { Some(TokenType::Comma) }
    else if c == '?' { Some(TokenType::QuestionMark) }
    else if c == ':' { Some(TokenType::Colon) }
    else if c == '~' { Some(TokenType::Complement) }
    else if c == '-' { Some(TokenType::Negate) }
    else if c == '+' { Some(TokenType::Add) }
    else if c == '*' { Some(TokenType::Mul) }
    else if c == '/' { Some(TokenType::Div) }
    else if c == '%' { Some(TokenType::Remainder) }
    else { None }
}

/// For a character that starts a one- or two-character operator, the kinds
/// it gives alone and followed by its second character.
pub open spec fn pair_kinds(c: char) -> Option<(char, TokenType, TokenType)> {
    if c == '!' { Some(('=', TokenType::Bang, TokenType::BangEqual)) }
    else if c == '=' { Some(('=', TokenType::Assignment, TokenType::EqualEqual)) }
    else if c == '<' { Some(('=', TokenType::Less, TokenType::LessEqual)) }
    else if c == '>' { Some(('=', TokenType::Greater, TokenType::GreaterEqual)) }
    else { None }
}

/// For `&` and `|`, which must be doubled, the kind of the doubled token.
pub open spec fn doubled_kind(c: char) -> Option<TokenType> {
    if c == '&' { Some(TokenType::And) }
    else if c == '|' { Some(TokenType::Or) }
    else { None }
}

/// The kind of a word: a keyword's own kind, or `Identifier`.
pub open spec fn word_kind(w: Seq<char>) -> TokenType {
    if w == "int"@ { TokenType::Int }
    else if w == "void"@ { TokenType::Void }
    else if w == "return"@ { TokenType::Return }
    else if w == "if"@ { TokenType::If }
    else if w == "else"@ { TokenType::Else }
    else if w == "do"@ { TokenType::Do }
    else if w == "while"@ { TokenType::While }
    else if w == "for"@ { TokenType::For }
    else if w == "break"@ { TokenType::Break }
    else if w == "continue"@ { TokenType::Continue }
    else { TokenType::Identifier }
}

/// A token with no value.
pub open spec fn plain(lexeme: Seq<char>, t: TokenType) -> TokenView {
    TokenView { lexeme, type_: t, value: None }
}

/// The message for a character that starts no token.
pub open spec fn unexpected_message(c: char) -> Seq<char> {
    "Unexpected character: "@.push(c)
}

/// The message for a number directly followed by a letter.
pub open spec fn number_letter_message(digits: Seq<char>, c: char) -> Seq<char> {
    "Identifier cannot start with a number: '"@ + digits + seq![c, '\'']
}

/// What the lexer reads at index `i` (which is inside `s`): the token found
/// there, if any (whitespace gives none), and the index after it; or the error.
pub open spec fn scan_at(s: Seq<char>, i: int) -> Result<(Option<TokenView>, int), Seq<char>> {
    let c = s[i];
    if single_char_kind(c) is Some {
        Ok((Some(plain(seq![c], single_char_kind(c)->0)), i + 1))
    } else if pair_kinds(c) is Some {
        let (second, alone, doubled) = pair_kinds(c)->0;
        if i + 1 < s.len() && s[i + 1] == second {
            Ok((Some(plain(seq![c, second], doubled)), i + 2))
        } else {
            Ok((Some(plain(seq![c], alone)), i + 1))
        }
    } else if doubled_kind(c) is Some {
        if i + 1 < s.len() && s[i + 1] == c {
            Ok((Some(plain(seq![c, c], doubled_kind(c)->0)), i + 2))
        } else {
            Err(unexpected_message(c))
        }
    } else if is_ascii_digit(c) {
        let j = digits_end(s, i);
        let digits = s.subrange(i, j);
        if j < s.len() && unicode_alphabetic(s[j]) {
            Err(number_letter_message(digits, s[j]))
        } else {
            Ok((Some(TokenView { lexeme: digits, type_: TokenType::Number, value: Some(digits) }), j))
        }
    } else if starts_identifier(c) {
        let j = ident_end(s, i);
        let w = s.subrange(i, j);
        let k = word_kind(w);
        Ok((Some(TokenView {
            lexeme: w,
            type_: k,
            value: if k == TokenType::Identifier { Some(w) } else { None },
        }), j))
    } else if unicode_whitespace(c) {
        Ok((None, i + 1))
    } else {
        Err(unexpected_message(c))
    }
}

/// The tokens of `s` from index `i` on, ending with `Eof`, or the first error.
pub open spec fn lex_from(s: Seq<char>, i: int) -> Result<Seq<TokenView>, Seq<char>>
    decreases s.len() - i,
{
    if i < 0 || i >= s.len() {
        Ok(seq![plain(Seq::empty(), TokenType::Eof)])
    } else {
        match scan_at(s, i) {
            Err(e) => Err(e),
            Ok((tok, j)) => if j <= i || j > s.len() {
                Err(Seq::empty())
            } else {
                match lex_from(s, j) {
                    Err(e) => Err(e),
                    Ok(rest) => match tok {
                        Some(t) => Ok(seq![t] + rest),
                        None => Ok(rest),
                    },
                }
            },
        }
    }
}

/// The lexer's result on a whole text.
pub open spec fn lex_spec(s: Seq<char>) -> Result<Seq<TokenView>, Seq<char>> {
    lex_from(s, 0)
}

/// `prefix` followed by the tokens of `r`, or `r`'s error.
pub open spec fn after(prefix: Seq<TokenView>, r: Result<Seq<TokenView>, Seq<char>>) -> Result<Seq<TokenView>, Seq<char>> {
    match r {
        Ok(rest) => Ok(prefix + rest),
        Err(e) => Err(e),
    }
}

/// The views of a vector of tokens.
pub open spec fn token_views(ts: Seq<Token>) -> Seq<TokenView> {
    ts.map_values(|t: Token| t@)
}

/// The lexer. It has no state of its own.
#[derive(Debug)]
pub struct Lexer {}

pub(crate) fn string_of_chars(cs: &Vec<char>, from: usize, to: usize) -> (r: String)
    requires
        from <= to <= cs@.len(),
    ensures
        r@ == cs@.subrange(from as int, to as int),
{
    let mut r = String::new();
    let mut k = from;
    while k < to
        invariant
            from <= k <= to <= cs@.len(),
            r@ == cs@.subrange(from as int, k as int),
        decreases to - k,
    {
        push_char(&mut r, cs[k]);
        assert(cs@.subrange(from as int, k + 1) =~= cs@.subrange(from as int, k as int).push(cs@[k as int]));
        k += 1;
    }
    r
}

fn single_char_kind_of(c: char) -> (r: Option<TokenType>)
    ensures
        r == single_char_kind(c),
{
    if c == '(' { Some(TokenType::LeftParen) }
    else if c == ')' { Some(TokenType::RightParen) }
    else if c == '{' { Some(TokenType::LeftBrace) }
    else if c == '}' { Some(TokenType::RightBrace) }
    else if c == ';' { Some(TokenType::Semicolon) }
    else if c == ',' { Some(TokenType::Comma) }
    else if c == '?' { Some(TokenType::QuestionMark) }
    else if c == ':' { Some(TokenType::Colon) }
    else if c == '~' { Some(TokenType::Complement) }
    else if c == '-' { Some(TokenType::Negate) }
    else if c == '+' { Some(TokenType::Add) }
    else if c == '*' { Some(TokenType::Mul) }
    else if c == '/' { Some(TokenType::Div) }
    else if c == '%' { Some(TokenType::Remainder) }
    else { None }
}

fn pair_kinds_of(c: char) -> (r: Option<(char, TokenType, TokenType)>)
    ensures
        r == pair_kinds(c),
{
    if c == '!' { Some(('=', TokenType::Bang, TokenType::BangEqual)) }
    else if c == '=' { Some(('=', TokenType::Assignment, TokenType::EqualEqual)) }
    else if c == '<' { Some(('=', TokenType::Less, TokenType::LessEqual)) }
    else if c == '>' { Some(('=', TokenType::Greater, TokenType::GreaterEqual)) }
    else { None }
}

fn doubled_kind_of(c: char) -> (r: Option<TokenType>)
    ensures
        r == doubled_kind(c),
{
    if c == '&' { Some(TokenType::And) }
    else if c == '|' { Some(TokenType::Or) }
    else { None }
}

fn str_eq(a: &String, b: &str) -> (r: bool)
    ensures
        r == (a@ == b@),
{
    let t = owned(b);
    *a == t
}

fn word_kind_of(w: &String) -> (r: TokenType)
    ensures
        r == word_kind(w@),
{
    if str_eq(w, "int") { TokenType::Int }
    else if str_eq(w, "void") { TokenType::Void }
    else if str_eq(w, "return") { TokenType::Return }
    else if str_eq(w, "if") { TokenType::If }
    else if str_eq(w, "else") { TokenType::Else }
    else if str_eq(w, "do") { TokenType::Do }
    else if str_eq(w, "while") { TokenType::While }
    else if str_eq(w, "for") { TokenType::For }
    else if str_eq(w, "break") { TokenType::Break }
    else if str_eq(w, "continue") { TokenType::Continue }
    else { TokenType::Identifier }
}

fn one_char_string(c: char) -> (r: String)
    ensures
        r@ == seq![c],
{
    let mut r = String::new();
    push_char(&mut r, c);
    r
}

fn two_char_string(c: char, d: char) -> (r: String)
    ensures
        r@ == seq![c, d],
{
    let mut r = String::new();
    push_char(&mut r, c);
    push_char(&mut r, d);
    r
}

fn unexpected_error(c: char) -> (r: String)
    ensures
        r@ == unexpected_message(c),
{
    let mut r = owned("Unexpected character: ");
    push_char(&mut r, c);
    r
}

/// A number token starting at index `i`: its digits, which must not run
/// into a letter.
fn lex_number(cs: &Vec<char>, i: usize) -> (r: Result<(Option<Token>, usize), String>)
    requires
        i < cs@.len(),
        '0' <= cs@[i as int] <= '9',
    ensures
        match (r, scan_at(cs@, i as int)) {
            (Ok((t, j)), Ok((tv, jv))) => j == jv && i < j <= cs@.len() && match (t, tv) {
                (Some(t), Some(tv)) => t@ == tv,
                (None, None) => true,
                _ => false,
            },
            (Err(e), Err(ev)) => e@ == ev,
            _ => false,
        },
{
    let n = cs.len();
    let mut j = i;
    while j < n && '0' <= cs[j] && cs[j] <= '9'
        invariant
            i <= j <= n == cs@.len(),
            digits_end(cs@, i as int) == digits_end(cs@, j as int),
        decreases n - j,
    {
        j += 1;
    }
    let digits = string_of_chars(cs, i, j);
    if j < n && is_alphabetic(cs[j]) {
        let mut msg = owned("Identifier cannot start with a number: '");
        push_str(&mut msg, digits.as_str());
        push_char(&mut msg, cs[j]);
        push_char(&mut msg, '\'');
        proof {
            assert(msg@ =~= number_letter_message(digits@, cs@[j as int]));
        }
        return Err(msg);
    }
    let value = digits.clone();
    return Ok((Some(Token { lexeme: digits, type_: TokenType::Number, value: Some(value) }), j));
}

/// An identifier or keyword token starting at index `i`.
fn lex_identifier(cs: &Vec<char>, i: usize) -> (r: Result<(Option<Token>, usize), String>)
    requires
        i < cs@.len(),
        ('a' <= cs@[i as int] <= 'z') || ('A' <= cs@[i as int] <= 'Z') || cs@[i as int] == '_',
    ensures
        match (r, scan_at(cs@, i as int)) {
            (Ok((t, j)), Ok((tv, jv))) => j == jv && i < j <= cs@.len() && match (t, tv) {
                (Some(t), Some(tv)) => t@ == tv,
                (None, None) => true,
                _ => false,
            },
            (Err(e), Err(ev)) => e@ == ev,
            _ => false,
        },
{
    let n = cs.len();
    let mut j = i;
    while j < n && (is_alphanumeric(cs[j]) || cs[j] == '_')
        invariant
            i <= j <= n == cs@.len(),
            ident_end(cs@, i as int) == ident_end(cs@, j as int),
        decreases n - j,
    {
        j += 1;
    }
    assert(j > i);
    let w = string_of_chars(cs, i, j);
    let k = word_kind_of(&w);
    if k == TokenType::Identifier {
        let value = w.clone();
        return Ok((Some(Token { lexeme: w, type_: k, value: Some(value) }), j));
    } else {
        return Ok((Some(Token { lexeme: w, type_: k, value: None }), j));
    }
}

/// Scans one token at index `i` of `cs`.
fn scan(cs: &Vec<char>, i: usize) -> (r: Result<(Option<Token>, usize), String>)
    requires
        i < cs@.len(),
    ensures
        match (r, scan_at(cs@, i as int)) {
            (Ok((t, j)), Ok((tv, jv))) => j == jv && i < j <= cs@.len() && match (t, tv) {
                (Some(t), Some(tv)) => t@ == tv,
                (None, None) => true,
                _ => false,
            },
            (Err(e), Err(ev)) => e@ == ev,
            _ => false,
        },
{
    let n = cs.len();
    let c = cs[i];
    if let Some(k) = single_char_kind_of(c) {
        return Ok((Some(Token { lexeme: one_char_string(c), type_: k, value: None }), i + 1));
    }
    if let Some((second, alone, doubled)) = pair_kinds_of(c) {
        if i + 1 < n && cs[i + 1] == second {
            return Ok((Some(Token { lexeme: two_char_string(c, second), type_: doubled, value: None }), i + 2));
        } else {
            return Ok((Some(Token { lexeme: one_char_string(c), type_: alone, value: None }), i + 1));
        }
    }
    if let Some(k) = doubled_kind_of(c) {
        if i + 1 < n && cs[i + 1] == c {
            return Ok((Some(Token { lexeme: two_char_string(c, c), type_: k, value: None }), i + 2));
        } else {
            return Err(unexpected_error(c));
        }
    }
    if '0' <= c && c <= '9' {
        return lex_number(cs, i);
    }
    if ('a' <= c && c <= 'z') || ('A' <= c && c <= 'Z') || c == '_' {
        return lex_identifier(cs, i);
    }
    if is_whitespace(c) {
        return Ok((None, i + 1));
    }
    Err(unexpected_error(c))
}

impl Lexer {
    /// Creates a lexer.
    pub fn new() -> (r: Self) {
        Lexer {}
    }

    /// Splits `input` into tokens. The result always ends with a single `Eof`
    /// token; an unknown character, or a number directly followed by a letter,
    /// is an error.
    pub fn lex(&self, input: &str) -> (r: Result<Vec<Token>, String>)
        ensures
            match (r, lex_spec(input@)) {
                (Ok(ts), Ok(tvs)) => token_views(ts@) == tvs,
                (Err(e), Err(ev)) => e@ == ev,
                _ => false,
            },
    {
        let cs = chars_of(input);
        let n = cs.len();
        let mut tokens: Vec<Token> = Vec::new();
        let mut i: usize = 0;
        while i < n
            invariant
                i <= n == cs@.len(),
                cs@ == input@,
                lex_spec(cs@) == after(token_views(tokens@), lex_from(cs@, i as int)),
            decreases n - i,
        {
            match scan(&cs, i) {
                Err(e) => {
                    return Err(e);
                }
                Ok((t, j)) => {
                    let ghost before = tokens@;
                    match t {
                        Some(tok) => {
                            tokens.push(tok);
                            proof {
                                assert(token_views(tokens@) =~= token_views(before) + seq![tokens@.last()@]);
                                assert(token_views(tokens@) =~= token_views(before).push(tokens@.last()@));
                            }
                        }
                        None => {}
                    }
                    proof {
                        let r = lex_from(cs@, j as int);
                        match r {
                            Ok(rest) => {
                                match scan_at(cs@, i as int) {
                                    Ok((Some(tv), _)) => {
                                        assert(token_views(before) + (seq![tv] + rest) =~= token_views(tokens@) + rest);
                                    }
                                    _ => {}
                                }
                            }
                            Err(_) => {}
                        }
                    }
                    i = j;
                }
            }
        }
        let ghost before = tokens@;
        tokens.push(Token { lexeme: String::new(), type_: TokenType::Eof, value: None });
        proof {
            assert(token_views(tokens@) =~= token_views(before) + seq![plain(Seq::empty(), TokenType::Eof)]);
        }
        Ok(tokens)
    }
}

} // verus!
