//! The first-generation lexer: punctuation, integer literals, identifiers
//! and the keywords `int`, `return` and `void`, each token carrying the
//! byte range of its lexeme.
//!
//! The lexer advances over the source one character at a time and counts
//! bytes as it goes; when it looks ahead it takes the character whose
//! index equals the current byte offset, which is the next character
//! whenever everything before it is ASCII.

use vstd::prelude::*;
use core::ops::Range;
use crate::error::LexerError;
use crate::lexer::{
    is_alphabetic, is_alphanumeric, is_whitespace, string_of_chars, unicode_alphabetic,
    unicode_alphanumeric, unicode_whitespace,
};
use crate::lexer::token::{
    byte_len, char_width, lemma_byte_len_prefix_increasing, Token, TokenType, Value,
};
use crate::text::{chars_of, owned, push_char, push_str};

verus! {

/// The byte offset at which the character with index `k` starts.
pub open spec fn offset(s: Seq<char>, k: int) -> nat {
    byte_len(s.take(k))
}

/// What the lexer sees when it looks ahead from byte offset `b`.
pub open spec fn peek_at(s: Seq<char>, b: int) -> Option<char> {
    if 0 <= b < s.len() {
        Some(s[b])
    } else {
        None
    }
}

/// A decimal digit.
pub open spec fn is_digit(c: char) -> bool {
    '0' <= c <= '9'
}

/// The index after the digits that follow a number's first character, which
/// ends at `k`.
pub open spec fn digit_run_end(s: Seq<char>, k: int) -> int
    decreases s.len() - k,
{
    if 0 <= k < s.len() && peek_at(s, offset(s, k) as int) is Some && is_digit(peek_at(s, offset(s, k) as int)->0) {
        digit_run_end(s, k + 1)
    } else {
        k
    }
}

/// The index after the identifier characters that follow its first one.
pub open spec fn ident_run_end(s: Seq<char>, k: int) -> int
    decreases s.len() - k,
{
    if 0 <= k < s.len() && peek_at(s, offset(s, k) as int) is Some && (unicode_alphanumeric(
        peek_at(s, offset(s, k) as int)->0,
    ) || peek_at(s, offset(s, k) as int)->0 == '_') {
        ident_run_end(s, k + 1)
    } else {
        k
    }
}

/// A number ending at `k` runs into a letter or an underscore.
pub open spec fn runs_into_identifier(s: Seq<char>, k: int) -> bool {
    match peek_at(s, offset(s, k) as int) {
        Some(c) => unicode_alphabetic(c) || c == '_',
        None => false,
    }
}

/// All characters are decimal digits.
pub open spec fn all_digits(t: Seq<char>) -> bool {
    forall|i: int| 0 <= i < t.len() ==> is_digit(#[trigger] t[i])
}

/// The value of a string of decimal digits.
pub open spec fn decimal_value(t: Seq<char>) -> nat
    decreases t.len(),
{
    if t.len() == 0 {
        0
    } else {
        decimal_value(t.drop_last()) * 10 + ((t.last() as u32) - ('0' as u32)) as nat
    }
}

/// The value `i64` parsing gives a number's lexeme, if any: it must be all
/// digits and at most `i64::MAX`.
pub open spec fn parsed_int(t: Seq<char>) -> Option<i64> {
    if t.len() > 0 && all_digits(t) && decimal_value(t) <= i64::MAX {
        Some(decimal_value(t) as i64)
    } else {
        None
    }
}

/// The kind of a word: a keyword or an identifier.
pub open spec fn word_kind(w: Seq<char>) -> TokenType {
    if w == "int"@ {
        TokenType::KeywordInt
    } else if w == "return"@ {
        TokenType::KeywordReturn
    } else if w == "void"@ {
        TokenType::KeywordVoid
    } else {
        TokenType::Identifier
    }
}

/// The kind of a one-character punctuation token.
pub open spec fn punctuation_kind(c: char) -> Option<TokenType> {
    if c == '(' {
        Some(TokenType::LeftParen)
    } else if c == ')' {
        Some(TokenType::RightParen)
    } else if c == '{' {
        Some(TokenType::LeftBrace)
    } else if c == '}' {
        Some(TokenType::RightBrace)
    } else if c == ',' {
        Some(TokenType::Comma)
    } else if c == ';' {
        Some(TokenType::Semicolon)
    } else {
        None
    }
}

/// The token of kind `t` over the characters with indices `k..k2`.
pub open spec fn token_over(s: Seq<char>, t: TokenType, k: int, k2: int, literal: Option<Value>) -> Token {
    Token {
        token_type: t,
        lexeme_range: Range { start: offset(s, k) as usize, end: offset(s, k2) as usize },
        literal,
    }
}

pub open spec fn digit_message() -> Seq<char> {
    "Identifier cannot start with a digit"@
}

pub open spec fn literal_message(lexeme: Seq<char>) -> Seq<char> {
    "Integer literal '"@ + lexeme + "' is too large or invalid"@
}

pub open spec fn unexpected_message(c: char) -> Seq<char> {
    "Unexpected character: '"@ + seq![c] + "'"@
}

/// One step of the lexer at character index `k`: the token it adds (none
/// for white space) and the index after it, or the error's message.
pub open spec fn scan_step(s: Seq<char>, k: int) -> Result<(Option<Token>, int), Seq<char>> {
    let c = s[k];
    if punctuation_kind(c) is Some {
        Ok((Some(token_over(s, punctuation_kind(c)->0, k, k + 1, None)), k + 1))
    } else if is_digit(c) {
        let k2 = digit_run_end(s, k + 1);
        if runs_into_identifier(s, k2) {
            Err(digit_message())
        } else {
            match parsed_int(s.subrange(k, k2)) {
                Some(v) => Ok((Some(token_over(s, TokenType::LiteralInt, k, k2, Some(Value::Int(v)))), k2)),
                None => Err(literal_message(s.subrange(k, k2))),
            }
        }
    } else if unicode_alphabetic(c) || c == '_' {
        let k2 = ident_run_end(s, k + 1);
        Ok((Some(token_over(s, word_kind(s.subrange(k, k2)), k, k2, None)), k2))
    } else if unicode_whitespace(c) {
        Ok((None, k + 1))
    } else {
        Err(unexpected_message(c))
    }
}

/// The tokens of an optional token.
pub open spec fn opt_token(t: Option<Token>) -> Seq<Token> {
    match t {
        Some(x) => seq![x],
        None => Seq::empty(),
    }
}

/// Lexing from character index `k` with the last token start at byte
/// `start`: the tokens added, whether it succeeded (or the message), and the
/// last token start afterwards.
pub open spec fn lex_from(s: Seq<char>, k: int, start: int) -> (Seq<Token>, Result<(), Seq<char>>, int)
    decreases s.len() - k,
{
    if k < 0 || k >= s.len() {
        (seq![Token {
            token_type: TokenType::Eof,
            lexeme_range: Range { start: start as usize, end: offset(s, k) as usize },
            literal: None,
        }], Ok(()), start)
    } else {
        match scan_step(s, k) {
            Err(m) => (Seq::empty(), Err(m), offset(s, k) as int),
            Ok((t, k2)) => if k2 <= k || k2 > s.len() {
                (Seq::empty(), Ok(()), start)
            } else {
                let r = lex_from(s, k2, offset(s, k) as int);
                (opt_token(t) + r.0, r.1, r.2)
            },
        }
    }
}

/// The first-generation lexer over `source`: the tokens found so far, the
/// position (as a character index and as a byte offset) and the byte offset
/// where the last token started.
pub struct Lexer<'a> {
    source: &'a str,
    chars: Vec<char>,
    index: usize,
    current: usize,
    start: usize,
    pub tokens: Vec<Token>,
}

pub proof fn lemma_offset_bounds(s: Seq<char>, k: int)
    requires
        0 <= k <= s.len(),
    ensures
        k <= offset(s, k) <= offset(s, s.len() as int),
        offset(s, s.len() as int) == byte_len(s),
    decreases k,
{
    assert(s.take(s.len() as int) =~= s);
    if k > 0 {
        lemma_offset_bounds(s, k - 1);
        lemma_byte_len_prefix_increasing(s, k - 1, k);
        if k < s.len() {
            lemma_byte_len_prefix_increasing(s, k, s.len() as int);
        }
    } else {
        assert(s.take(0) =~= Seq::<char>::empty());
        if s.len() > 0 {
            lemma_byte_len_prefix_increasing(s, 0, s.len() as int);
        }
    }
}

proof fn lemma_offset_step(s: Seq<char>, k: int)
    requires
        0 <= k < s.len(),
    ensures
        offset(s, k + 1) == offset(s, k) + char_width(s[k]),
{
    assert(s.take(k + 1).drop_last() =~= s.take(k));
    assert(s.take(k + 1).last() == s[k]);
}

pub proof fn lemma_runs_end(s: Seq<char>, k: int)
    requires
        0 <= k <= s.len(),
    ensures
        k <= digit_run_end(s, k) <= s.len(),
        k <= ident_run_end(s, k) <= s.len(),
    decreases s.len() - k,
{
    if k < s.len() {
        lemma_runs_end(s, k + 1);
    }
}

/// The decimal value of `t.subrange(from, to)` if it is all digits and at
/// most `i64::MAX`.
fn parse_int(cs: &Vec<char>, from: usize, to: usize) -> (r: Option<i64>)
    requires
        from <= to <= cs@.len(),
    ensures
        r == parsed_int(cs@.subrange(from as int, to as int)),
{
    let ghost t = cs@.subrange(from as int, to as int);
    if from == to {
        return None;
    }
    let mut acc: i128 = 0;
    let mut i: usize = from;
    assert(t.take(0) =~= Seq::<char>::empty());
    while i < to
        invariant
            from <= i <= to <= cs@.len(),
            t == cs@.subrange(from as int, to as int),
            all_digits(t.take(i - from)),
            acc == decimal_value(t.take(i - from)),
            0 <= acc <= i64::MAX,
        decreases to - i,
    {
        let c = cs[i];
        let ghost j = i - from;
        assert(t.take(j + 1).drop_last() =~= t.take(j));
        assert(t.take(j + 1).last() == c);
        if !('0' <= c && c <= '9') {
            assert(!is_digit(t[j]));
            return None;
        }
        let d = (c as u32) - ('0' as u32);
        acc = acc * 10 + (d as i128);
        assert(all_digits(t.take(j + 1))) by {
            assert forall|x: int| 0 <= x < t.take(j + 1).len() implies is_digit(#[trigger] t.take(j + 1)[x]) by {
                if x < j {
                    assert(t.take(j + 1)[x] == t.take(j)[x]);
                }
            }
        }
        if acc > 0x7fff_ffff_ffff_ffff {
            proof {
                if all_digits(t) {
                    lemma_decimal_prefix(t, j + 1);
                }
            }
            return None;
        }
        i += 1;
    }
    assert(t.take(to - from) =~= t);
    Some(acc as i64)
}

/// The value of a digit string is at least that of each of its prefixes.
proof fn lemma_decimal_prefix(t: Seq<char>, j: int)
    requires
        0 <= j <= t.len(),
        all_digits(t),
    ensures
        decimal_value(t.take(j)) <= decimal_value(t),
    decreases t.len() - j,
{
    if j < t.len() {
        lemma_decimal_prefix(t, j + 1);
        assert(t.take(j + 1).drop_last() =~= t.take(j));
        assert(is_digit(t[j]));
    } else {
        assert(t.take(j) =~= t);
    }
}

/// Whether `cs[from..to]` spells `w`.
fn spells(cs: &Vec<char>, from: usize, to: usize, w: &str) -> (r: bool)
    requires
        from <= to <= cs@.len(),
    ensures
        r == (cs@.subrange(from as int, to as int) == w@),
{
    let wv = chars_of(w);
    if to - from != wv.len() {
        return false;
    }
    let mut i: usize = 0;
    while i < wv.len()
        invariant
            i <= wv@.len(),
            wv@ == w@,
            to - from == wv@.len(),
            from <= to <= cs@.len(),
            forall|x: int| 0 <= x < i ==> cs@[from + x] == wv@[x],
        decreases wv@.len() - i,
    {
        if cs[from + i] != wv[i] {
            assert(cs@.subrange(from as int, to as int)[i as int] != w@[i as int]);
            return false;
        }
        i += 1;
    }
    assert(cs@.subrange(from as int, to as int) =~= w@);
    true
}

impl<'a> Lexer<'a> {
    /// The source text.
    pub closed spec fn text(&self) -> Seq<char> {
        self.source@
    }

    /// The index of the next character to read.
    pub closed spec fn position(&self) -> int {
        self.index as int
    }

    /// The tokens found so far.
    pub closed spec fn found(&self) -> Seq<Token> {
        self.tokens@
    }

    /// The byte offset where the last token started.
    pub closed spec fn token_start(&self) -> int {
        self.start as int
    }

    /// The lexer's position is inside the source, kept both as a character
    /// index and as the byte offset of that character.
    pub closed spec fn wf(&self) -> bool {
        &&& self.chars@ == self.source@
        &&& self.index <= self.chars@.len()
        &&& self.current == offset(self.chars@, self.index as int)
        &&& byte_len(self.chars@) <= usize::MAX
    }

    /// The lexer at the start of `source`, with no tokens.
    pub fn new(source: &'a str) -> (r: Self)
        requires
            byte_len(source@) <= usize::MAX,
        ensures
            r.wf(),
            r.text() == source@,
            r.position() == 0,
            r.token_start() == 0,
            r.found() == Seq::<Token>::empty(),
    {
        let chars = chars_of(source);
        proof {
            assert(chars@.take(0) =~= Seq::<char>::empty());
        }
        Lexer { source, chars, index: 0, current: 0, start: 0, tokens: Vec::new() }
    }

    /// Lexes the rest of the source: appends its tokens and an `Eof` token
    /// (whose range runs from the last token's start to the end), or stops at
    /// the first error, keeping the tokens found before it.
    pub fn tokenize(&mut self) -> (r: Result<(), LexerError>)
        requires
            old(self).wf(),
        ensures
            final(self).wf(),
            final(self).text() == old(self).text(),
            ({
                let run = lex_from(old(self).text(), old(self).position(), old(self).token_start());
                &&& final(self).found() == old(self).found() + run.0
                &&& match (r, run.1) {
                    (Ok(()), Ok(())) => final(self).position() == old(self).text().len()
                        && final(self).token_start() == run.2,
                    (Err(e), Err(m)) => e.message@ == m,
                    _ => false,
                }
            }),
    {
        let ghost s = self.chars@;
        let ghost k0 = self.index as int;
        let ghost st0 = self.start as int;
        let ghost old_tokens = self.tokens@;
        let ghost mut acc: Seq<Token> = Seq::empty();
        while self.index < self.chars.len()
            invariant
                self.wf(),
                self.chars@ == s,
                self.text() == s,
                self.tokens@ == old_tokens + acc,
                s == old(self).text(),
                k0 == old(self).position(),
                st0 == old(self).token_start(),
                old_tokens == old(self).found(),
                lex_from(s, k0, st0) == ({
                    let r = lex_from(s, self.index as int, self.start as int);
                    (acc + r.0, r.1, r.2)
                }),
            decreases s.len() - self.index,
        {
            let ghost k = self.index as int;
            let ghost st_prev = self.start as int;
            self.start = self.current;
            match self.scan_token() {
                Ok(()) => {
                    proof {
                        let t = scan_step(s, k)->Ok_0.0;
                        let k2 = scan_step(s, k)->Ok_0.1;
                        let r2 = lex_from(s, k2, offset(s, k) as int);
                        assert(lex_from(s, k, st_prev) == (opt_token(t) + r2.0, r2.1, r2.2));
                        assert(acc + (opt_token(t) + r2.0) =~= (acc + opt_token(t)) + r2.0);
                        acc = acc + opt_token(t);
                        assert(self.tokens@ =~= old_tokens + acc);
                    }
                },
                Err(e) => {
                    proof {
                        assert(scan_step(s, k) is Err);
                        assert(lex_from(s, k, st_prev).0 =~= Seq::<Token>::empty());
                        assert(lex_from(s, k, st_prev).1 == Err::<(), Seq<char>>(e.message@));
                        assert(acc + Seq::<Token>::empty() =~= acc);
                        assert(self.tokens@ =~= old_tokens + lex_from(s, k0, st0).0);
                    }
                    return Err(e);
                },
            }
        }
        let eof = Token::new(TokenType::Eof, Range { start: self.start, end: self.current }, None);
        self.tokens.push(eof);
        proof {
            assert(self.tokens@ =~= old_tokens + lex_from(s, k0, st0).0);
        }
        Ok(())
    }

    /// The tokens found, taken out of the lexer.
    pub fn into_tokens(self) -> (r: Vec<Token>)
        ensures
            r@ == self.found(),
    {
        self.tokens
    }

    /// Reads one token (or white space) at the current position.
    fn scan_token(&mut self) -> (r: Result<(), LexerError>)
        requires
            old(self).wf(),
            old(self).index < old(self).chars@.len(),
        ensures
            final(self).wf(),
            final(self).chars@ == old(self).chars@,
            final(self).source == old(self).source,
            final(self).start == old(self).current,
            final(self).index > old(self).index,
            r is Err ==> final(self).tokens@ == old(self).tokens@,
            match (r, scan_step(old(self).chars@, old(self).index as int)) {
                (Ok(()), Ok((t, k2))) => final(self).index == k2 && final(self).tokens@ == old(self).tokens@ + opt_token(t),
                (Err(e), Err(m)) => e.message@ == m,
                _ => false,
            },
    {
        let ghost s = self.chars@;
        let k = self.index;
        self.start = self.current;
        let c = self.advance();
        if c == '(' || c == ')' || c == '{' || c == '}' || c == ',' || c == ';' {
            let kind = if c == '(' {
                TokenType::LeftParen
            } else if c == ')' {
                TokenType::RightParen
            } else if c == '{' {
                TokenType::LeftBrace
            } else if c == '}' {
                TokenType::RightBrace
            } else if c == ',' {
                TokenType::Comma
            } else {
                TokenType::Semicolon
            };
            self.add_token(kind, None);
            Ok(())
        } else if '0' <= c && c <= '9' {
            let mut is_valid_number = true;
            loop
                invariant_except_break
                    self.wf(),
                    self.chars@ == s,
                    self.source == old(self).source,
                    self.start == old(self).current,
                    self.tokens@ == old(self).tokens@,
                    k + 1 <= self.index,
                    digit_run_end(s, k + 1) == digit_run_end(s, self.index as int),
                    is_valid_number,
                ensures
                    self.wf(),
                    self.chars@ == s,
                    self.source == old(self).source,
                    self.start == old(self).current,
                    self.tokens@ == old(self).tokens@,
                    k + 1 <= self.index,
                    self.index == digit_run_end(s, k + 1),
                    is_valid_number == !runs_into_identifier(s, self.index as int),
                decreases s.len() - self.index,
            {
                match self.peek() {
                    Some(next_char) => {
                        if '0' <= next_char && next_char <= '9' {
                            proof {
                                lemma_offset_bounds(s, self.index as int);
                            }
                            self.advance();
                        } else if is_alphabetic(next_char) || next_char == '_' {
                            is_valid_number = false;
                            break;
                        } else {
                            break;
                        }
                    },
                    None => {
                        break;
                    },
                }
            }
            if is_valid_number {
                match parse_int(&self.chars, k, self.index) {
                    Some(value) => {
                        self.add_token(TokenType::LiteralInt, Some(Value::Int(value)));
                        Ok(())
                    },
                    None => {
                        let lexeme = string_of_chars(&self.chars, k, self.index);
                        let mut message = owned("Integer literal '");
                        push_str(&mut message, lexeme.as_str());
                        push_str(&mut message, "' is too large or invalid");
                        Err(LexerError { message })
                    },
                }
            } else {
                Err(LexerError { message: owned("Identifier cannot start with a digit") })
            }
        } else if is_alphabetic(c) || c == '_' {
            loop
                invariant_except_break
                    self.wf(),
                    self.chars@ == s,
                    self.source == old(self).source,
                    self.start == old(self).current,
                    self.tokens@ == old(self).tokens@,
                    k + 1 <= self.index,
                    ident_run_end(s, k + 1) == ident_run_end(s, self.index as int),
                ensures
                    self.wf(),
                    self.chars@ == s,
                    self.source == old(self).source,
                    self.start == old(self).current,
                    self.tokens@ == old(self).tokens@,
                    k + 1 <= self.index,
                    self.index == ident_run_end(s, k + 1),
                decreases s.len() - self.index,
            {
                match self.peek() {
                    Some(next_char) => {
                        if is_alphanumeric(next_char) || next_char == '_' {
                            proof {
                                lemma_offset_bounds(s, self.index as int);
                            }
                            self.advance();
                        } else {
                            break;
                        }
                    },
                    None => {
                        break;
                    },
                }
            }
            let kind = if spells(&self.chars, k, self.index, "int") {
                TokenType::KeywordInt
            } else if spells(&self.chars, k, self.index, "return") {
                TokenType::KeywordReturn
            } else if spells(&self.chars, k, self.index, "void") {
                TokenType::KeywordVoid
            } else {
                TokenType::Identifier
            };
            self.add_token(kind, None);
            Ok(())
        } else if is_whitespace(c) {
            Ok(())
        } else {
            let mut message = owned("Unexpected character: '");
            push_char(&mut message, c);
            push_str(&mut message, "'");
            Err(LexerError { message })
        }
    }

    /// Adds a token over the bytes from the token start to the position.
    fn add_token(&mut self, token_type: TokenType, literal: Option<Value>)
        ensures
            final(self).tokens@ == old(self).tokens@.push(Token {
                token_type,
                lexeme_range: Range { start: old(self).start, end: old(self).current },
                literal,
            }),
            final(self).chars == old(self).chars,
            final(self).source == old(self).source,
            final(self).index == old(self).index,
            final(self).current == old(self).current,
            final(self).start == old(self).start,
    {
        let token = Token::new(token_type, Range { start: self.start, end: self.current }, literal);
        self.tokens.push(token);
    }

    /// Consumes the next character.
    fn advance(&mut self) -> (c: char)
        requires
            old(self).wf(),
            old(self).index < old(self).chars@.len(),
        ensures
            final(self).wf(),
            c == old(self).chars@[old(self).index as int],
            final(self).index == old(self).index + 1,
            final(self).chars == old(self).chars,
            final(self).source == old(self).source,
            final(self).start == old(self).start,
            final(self).tokens == old(self).tokens,
    {
        proof {
            lemma_offset_step(self.chars@, self.index as int);
            lemma_offset_bounds(self.chars@, self.index as int + 1);
        }
        let c = self.chars[self.index];
        let w: usize = if (c as u32) < 0x80 {
            1
        } else if (c as u32) < 0x800 {
            2
        } else if (c as u32) < 0x10000 {
            3
        } else {
            4
        };
        self.index = self.index + 1;
        self.current = self.current + w;
        c
    }

    /// The character whose index is the current byte offset.
    fn peek(&self) -> (r: Option<char>)
        ensures
            r == peek_at(self.chars@, self.current as int),
    {
        if self.current < self.chars.len() {
            Some(self.chars[self.current])
        } else {
            None
        }
    }
}

} // verus!
