//! Tokens of the first-generation front end: a kind, the byte range of the
//! lexeme in the source text, and the value of an integer literal.

use vstd::prelude::*;
use core::ops::Range;
use crate::text::{chars_of, owned, push_char};

verus! {

/// The value a literal token carries.
#[derive(Debug, Clone, Copy, PartialEq, Eq, Structural)]
pub enum Value {
    Int(i64),
}

/// The kinds of tokens.
#[derive(Debug, Clone, Copy, PartialEq, Eq, Structural)]
pub enum TokenType {
    KeywordInt,
    KeywordReturn,
    KeywordVoid,
    KeywordIf,
    KeywordElse,
    Identifier,
    LeftParen,
    RightParen,
    LeftBrace,
    RightBrace,
    Comma,
    Semicolon,
    LiteralInt,
    BitwiseNot,
    Minus,
    Decrement,
    Add,
    Mul,
    Div,
    Remainder,
    Bang,
    And,
    Or,
    EqualEqual,
    BangEqual,
    Less,
    LessEqual,
    Greater,
    GreaterEqual,
    Equal,
    Question,
    Colon,
    Eof,
}

/// A token: its kind, the byte range of its lexeme, and its literal value.
#[derive(Debug, PartialEq)]
pub struct Token {
    pub token_type: TokenType,
    pub lexeme_range: Range<usize>,
    pub literal: Option<Value>,
}

/// The number of bytes the UTF-8 encoding of `c` takes.
pub open spec fn char_width(c: char) -> nat {
    if (c as u32) < 0x80 {
        1
    } else if (c as u32) < 0x800 {
        2
    } else if (c as u32) < 0x10000 {
        3
    } else {
        4
    }
}

/// The number of bytes the UTF-8 encoding of `s` takes.
pub open spec fn byte_len(s: Seq<char>) -> nat
    decreases s.len(),
{
    if s.len() == 0 {
        0
    } else {
        byte_len(s.drop_last()) + char_width(s.last())
    }
}

/// The number of characters of `s` whose encoding fills exactly the first
/// `b` bytes, if byte offset `b` falls between two characters (or at an end).
pub open spec fn boundary_index(s: Seq<char>, b: int) -> Option<nat>
    decreases s.len(),
{
    if b == byte_len(s) {
        Some(s.len())
    } else if s.len() == 0 {
        None
    } else {
        boundary_index(s.drop_last(), b)
    }
}

/// The byte range `start..end` of `s` falls on character boundaries and is
/// not reversed.
pub open spec fn is_char_range(s: Seq<char>, start: int, end: int) -> bool {
    &&& start <= end
    &&& boundary_index(s, start) is Some
    &&& boundary_index(s, end) is Some
}

/// The text in the byte range `start..end` of `s`.
pub open spec fn range_text(s: Seq<char>, start: int, end: int) -> Seq<char> {
    s.subrange(boundary_index(s, start)->0 as int, boundary_index(s, end)->0 as int)
}

/// Encodings of longer prefixes are longer.
pub proof fn lemma_byte_len_prefix_increasing(s: Seq<char>, a: int, b: int)
    requires
        0 <= a < b <= s.len(),
    ensures
        byte_len(s.take(a)) < byte_len(s.take(b)),
        byte_len(s.take(a)) + char_width(s[a]) <= byte_len(s.take(b)),
    decreases b - a,
{
    assert(s.take(a + 1).drop_last() =~= s.take(a));
    assert(s.take(a + 1).last() == s[a]);
    if a + 1 < b {
        lemma_byte_len_prefix_increasing(s, a + 1, b);
    }
}

/// A boundary index names the prefix whose encoding fills the given bytes.
pub proof fn lemma_boundary_index(s: Seq<char>, b: int)
    requires
        boundary_index(s, b) is Some,
    ensures
        boundary_index(s, b)->0 <= s.len(),
        byte_len(s.take(boundary_index(s, b)->0 as int)) == b,
    decreases s.len(),
{
    if b == byte_len(s) {
        assert(s.take(s.len() as int) =~= s);
    } else {
        let k = boundary_index(s.drop_last(), b)->0;
        lemma_boundary_index(s.drop_last(), b);
        assert(s.drop_last().take(k as int) =~= s.take(k as int));
    }
}

/// The byte offset at which a character starts (or the end) is a boundary,
/// and it names that character's index.
pub proof fn lemma_boundary_of_prefix(s: Seq<char>, j: int)
    requires
        0 <= j <= s.len(),
    ensures
        boundary_index(s, byte_len(s.take(j)) as int) == Some(j as nat),
    decreases s.len(),
{
    if j == s.len() {
        assert(s.take(j) =~= s);
    } else {
        lemma_byte_len_prefix_increasing(s, j, s.len() as int);
        assert(s.take(s.len() as int) =~= s);
        assert(s.drop_last().take(j) =~= s.take(j));
        lemma_boundary_of_prefix(s.drop_last(), j);
    }
}

impl Token {
    /// A token of kind `token_type` over the byte range `lexeme`.
    pub fn new(token_type: TokenType, lexeme: Range<usize>, literal: Option<Value>) -> (r: Self)
        ensures
            r.token_type == token_type,
            r.lexeme_range == lexeme,
            r.literal == literal,
    {
        Token { token_type, lexeme_range: lexeme, literal }
    }

    /// The text of the token in `source`.
    pub fn get_lexeme(&self, source: &str) -> (r: String)
        requires
            is_char_range(source@, self.lexeme_range.start as int, self.lexeme_range.end as int),
        ensures
            r@ == range_text(source@, self.lexeme_range.start as int, self.lexeme_range.end as int),
    {
        let ghost s = source@;
        let start = self.lexeme_range.start;
        let end = self.lexeme_range.end;
        let ghost i = boundary_index(s, start as int)->0 as int;
        let ghost j = boundary_index(s, end as int)->0 as int;
        proof {
            lemma_boundary_index(s, start as int);
            lemma_boundary_index(s, end as int);
            if j < i {
                lemma_byte_len_prefix_increasing(s, j, i);
            }
        }
        let cs = chars_of(source);
        let mut out = owned("");
        proof {
            reveal_strlit("");
            assert(s.take(0) =~= Seq::<char>::empty());
        }
        let mut pos: usize = 0;
        let mut k: usize = 0;
        while k < cs.len() && pos < end
            invariant
                cs@ == s,
                0 <= i <= j <= s.len(),
                byte_len(s.take(i)) == start,
                byte_len(s.take(j)) == end,
                start <= end,
                k <= j,
                pos == byte_len(s.take(k as int)),
                out@ == if k >= i { s.subrange(i, k as int) } else { Seq::empty() },
            decreases cs@.len() - k,
        {
            proof {
                if k == j {
                    assert(pos == end);
                }
                lemma_byte_len_prefix_increasing(s, k as int, j);
                if (k as int) < i {
                    lemma_byte_len_prefix_increasing(s, k as int, i);
                } else if i < k {
                    lemma_byte_len_prefix_increasing(s, i, k as int);
                }
                assert(s.take(k + 1).drop_last() =~= s.take(k as int));
                assert(s.take(k + 1).last() == s[k as int]);
            }
            let c = cs[k];
            let w: usize = if (c as u32) < 0x80 {
                1
            } else if (c as u32) < 0x800 {
                2
            } else if (c as u32) < 0x10000 {
                3
            } else {
                4
            };
            if pos >= start {
                push_char(&mut out, c);
                assert(out@ =~= s.subrange(i, k + 1));
            } else {
                proof {
                    if k + 1 >= i {
                        assert(k + 1 == i);
                        assert(s.subrange(i, k + 1) =~= Seq::<char>::empty());
                    }
                }
            }
            pos = pos + w;
            k = k + 1;
        }
        proof {
            if (k as int) < j {
                lemma_byte_len_prefix_increasing(s, k as int, j);
            }
            if k as int <= i && i < j {
                lemma_byte_len_prefix_increasing(s, k as int, i);
            }
        }
        out
    }

    /// A copy of the token.
    pub fn duplicate(&self) -> (r: Token)
        ensures
            r == *self,
    {
        Token {
            token_type: self.token_type,
            lexeme_range: Range { start: self.lexeme_range.start, end: self.lexeme_range.end },
            literal: self.literal,
        }
    }
}

} // verus!
