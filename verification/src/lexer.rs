//! The path lexer.  A query string is cut into dot, bracket, identifier,
//! quoted-string and integer tokens, with whitespace skipped and every other
//! character reported as an unrecognized token.  Each token carries the
//! character span it was read from.

use vstd::prelude::*;

use crate::text::{is_digit, is_ident_char, is_ident_start, is_ws};

verus! {

/// One kind of token of the path grammar.
#[derive(Debug, Clone, Copy, PartialEq, Eq, Structural)]
pub enum Token {
    /// `.`
    Dot,
    /// `[`
    OpenBracket,
    /// `]`
    CloseBracket,
    /// A bare identifier, `[A-Za-z_][A-Za-z0-9_]*`.
    Field,
    /// A double-quoted string; a backslash escapes the following character.
    QuotedField,
    /// An unsigned integer, `[0-9]+`.
    Index,
    /// A character no token starts with, or an unterminated quoted string.
    Error,
}

/// A token together with the character span `start..end` it occupies in the
/// input.
#[derive(Debug, Clone, Copy, PartialEq, Eq, Structural)]
pub struct Lexeme {
    pub token: Token,
    pub start: usize,
    pub end: usize,
}

/// The mathematical image of a [`Lexeme`]: the same token with unbounded
/// span positions.
pub struct LexemeV {
    pub token: Token,
    pub start: int,
    pub end: int,
}

impl View for Lexeme {
    type V = LexemeV;

    open spec fn view(&self) -> LexemeV {
        LexemeV { token: self.token, start: self.start as int, end: self.end as int }
    }
}

impl DeepView for Lexeme {
    type V = LexemeV;

    open spec fn deep_view(&self) -> LexemeV {
        self.view()
    }
}

/// The position right after the maximal run of identifier characters
/// starting at `i`.
pub open spec fn ident_end(s: Seq<char>, i: int) -> int
    decreases s.len() - i,
{
    if i < 0 || i >= s.len() {
        i
    } else if is_ident_char(s[i]) {
        ident_end(s, i + 1)
    } else {
        i
    }
}

/// The position right after the maximal run of decimal digits starting at
/// `i`.
pub open spec fn digits_end(s: Seq<char>, i: int) -> int
    decreases s.len() - i,
{
    if i < 0 || i >= s.len() {
        i
    } else if is_digit(s[i]) {
        digits_end(s, i + 1)
    } else {
        i
    }
}

/// Scanning a quoted string from position `i` (just after the opening
/// quote): the position right after the closing quote, or `None` if the
/// string never closes.  A backslash escapes the character after it.
pub open spec fn quote_end(s: Seq<char>, i: int) -> Option<int>
    decreases s.len() - i,
{
    if i < 0 || i >= s.len() {
        Option::None
    } else if s[i] == '"' {
        Option::Some(i + 1)
    } else if s[i] == '\\' {
        if i + 1 < s.len() {
            quote_end(s, i + 2)
        } else {
            Option::None
        }
    } else {
        quote_end(s, i + 1)
    }
}

/// The token sequence of the input from position `i` on: maximal-munch
/// lexing of the path grammar, whitespace skipped.
pub open spec fn lex_spec(s: Seq<char>, i: int) -> Seq<LexemeV>
    decreases s.len() - i,
    via lex_spec_decreases
{
    if i < 0 || i >= s.len() {
        Seq::empty()
    } else if is_ws(s[i]) {
        lex_spec(s, i + 1)
    } else {
        seq![lex_head(s, i)] + lex_spec(s, lex_head(s, i).end)
    }
}

#[via_fn]
proof fn lex_spec_decreases(s: Seq<char>, i: int) {
    if 0 <= i < s.len() && !is_ws(s[i]) {
        lemma_lex_head_bounds(s, i);
    }
}

/// The head token begins at `i` and ends within the input.
pub proof fn lemma_lex_head_bounds(s: Seq<char>, i: int)
    requires
        0 <= i < s.len(),
    ensures
        i < lex_head(s, i).end <= s.len(),
        lex_head(s, i).start == i,
{
    if s[i] == '.' || s[i] == '[' || s[i] == ']' {
    } else if is_ident_start(s[i]) {
        lemma_ident_end_bounds(s, i + 1);
    } else if is_digit(s[i]) {
        lemma_digits_end_bounds(s, i + 1);
    } else if s[i] == '"' {
        lemma_quote_end_bounds(s, i + 1);
    }
}

/// The single token starting at position `i`, which must hold a
/// non-whitespace character.
pub open spec fn lex_head(s: Seq<char>, i: int) -> LexemeV
    decreases s.len() - i, 0int,
{
    let c = s[i];
    if c == '.' {
        LexemeV { token: Token::Dot, start: i, end: i + 1 }
    } else if c == '[' {
        LexemeV { token: Token::OpenBracket, start: i, end: i + 1 }
    } else if c == ']' {
        LexemeV { token: Token::CloseBracket, start: i, end: i + 1 }
    } else if is_ident_start(c) {
        LexemeV { token: Token::Field, start: i, end: ident_end(s, i + 1) }
    } else if is_digit(c) {
        LexemeV { token: Token::Index, start: i, end: digits_end(s, i + 1) }
    } else if c == '"' {
        match quote_end(s, i + 1) {
            Option::Some(j) => LexemeV { token: Token::QuotedField, start: i, end: j },
            Option::None => LexemeV { token: Token::Error, start: i, end: s.len() as int },
        }
    } else {
        LexemeV { token: Token::Error, start: i, end: i + 1 }
    }
}

proof fn lemma_ident_end_bounds(s: Seq<char>, i: int)
    requires
        0 <= i <= s.len(),
    ensures
        i <= ident_end(s, i) <= s.len(),
    decreases s.len() - i,
{
    if i < s.len() && is_ident_char(s[i]) {
        lemma_ident_end_bounds(s, i + 1);
    }
}

proof fn lemma_digits_end_bounds(s: Seq<char>, i: int)
    requires
        0 <= i <= s.len(),
    ensures
        i <= digits_end(s, i) <= s.len(),
    decreases s.len() - i,
{
    if i < s.len() && is_digit(s[i]) {
        lemma_digits_end_bounds(s, i + 1);
    }
}

proof fn lemma_quote_end_bounds(s: Seq<char>, i: int)
    requires
        0 <= i <= s.len(),
    ensures
        quote_end(s, i) matches Option::Some(j) ==> i < j <= s.len(),
    decreases s.len() - i,
{
    if i < s.len() && s[i] != '"' {
        if s[i] == '\\' {
            if i + 1 < s.len() {
                lemma_quote_end_bounds(s, i + 2);
            }
        } else {
            lemma_quote_end_bounds(s, i + 1);
        }
    }
}

proof fn lemma_digits_end_range(s: Seq<char>, i: int)
    requires
        0 <= i <= s.len(),
    ensures
        forall|j: int| i <= j < digits_end(s, i) ==> is_digit(#[trigger] s[j]),
    decreases s.len() - i,
{
    if i < s.len() && is_digit(s[i]) {
        lemma_digits_end_range(s, i + 1);
    }
}

/// Shape facts about the token at position `k` of the lexed input: its span
/// is in bounds; an integer token covers decimal digits only; a quoted
/// string token is at least two characters long.
pub proof fn lemma_lex_spec_at(s: Seq<char>, i: int, k: int)
    requires
        0 <= i <= s.len(),
        0 <= k < lex_spec(s, i).len(),
    ensures
        ({
            let l = lex_spec(s, i)[k];
            &&& i <= l.start < l.end <= s.len()
            &&& (l.token == Token::Index ==> forall|j: int|
                l.start <= j < l.end ==> is_digit(#[trigger] s[j]))
            &&& (l.token == Token::QuotedField ==> l.end >= l.start + 2)
        }),
    decreases s.len() - i,
{
    if is_ws(s[i]) {
        lemma_lex_spec_at(s, i + 1, k);
    } else {
        let h = lex_head(s, i);
        lemma_lex_head_bounds(s, i);
        if k == 0 {
            if h.token == Token::Index {
                lemma_digits_end_range(s, i + 1);
            }
            if h.token == Token::QuotedField {
                lemma_quote_end_bounds(s, i + 1);
            }
        } else {
            lemma_lex_spec_at(s, h.end, k - 1);
        }
    }
}

/// Tokenizes a path string.  The result is exactly the token sequence the
/// grammar assigns to the input; spans are character positions.
pub fn lex(input: &str) -> (r: Vec<Lexeme>)
    ensures
        r.deep_view() =~= lex_spec(input@, 0),
        forall|k: int|
            0 <= k < r@.len() ==> {
                let l = #[trigger] r@[k];
                l.start < l.end <= input@.len()
            },
{
    let ghost s = input@;
    let len = input.unicode_len();
    let mut r: Vec<Lexeme> = Vec::new();
    let mut i: usize = 0;
    while i < len
        invariant
            i <= len,
            len == s.len(),
            s == input@,
            lex_spec(s, 0) =~= r.deep_view() + lex_spec(s, i as int),
            forall|k: int|
                0 <= k < r@.len() ==> {
                    let l = #[trigger] r@[k];
                    l.start < l.end <= s.len()
                },
        decreases len - i,
    {
        let ghost r_old = r.deep_view();
        let c = input.get_char(i);
        if c == ' ' || c == '\t' || c == '\n' || c == '\u{c}' {
            i = i + 1;
        } else if c == '.' {
            r.push(Lexeme { token: Token::Dot, start: i, end: i + 1 });
            proof {
                assert(r.deep_view() =~= r_old.push(lex_head(s, i as int)));
            }
            i = i + 1;
        } else if c == '[' {
            r.push(Lexeme { token: Token::OpenBracket, start: i, end: i + 1 });
            proof {
                assert(r.deep_view() =~= r_old.push(lex_head(s, i as int)));
            }
            i = i + 1;
        } else if c == ']' {
            r.push(Lexeme { token: Token::CloseBracket, start: i, end: i + 1 });
            proof {
                assert(r.deep_view() =~= r_old.push(lex_head(s, i as int)));
            }
            i = i + 1;
        } else if ('a' <= c && c <= 'z') || ('A' <= c && c <= 'Z') || c == '_' {
            let j = scan_ident(input, i + 1, len);
            r.push(Lexeme { token: Token::Field, start: i, end: j });
            proof {
                assert(r.deep_view() =~= r_old.push(lex_head(s, i as int)));
            }
            i = j;
        } else if '0' <= c && c <= '9' {
            let j = scan_digits(input, i + 1, len);
            r.push(Lexeme { token: Token::Index, start: i, end: j });
            proof {
                assert(r.deep_view() =~= r_old.push(lex_head(s, i as int)));
            }
            i = j;
        } else if c == '"' {
            match scan_quote(input, i + 1, len) {
                Option::Some(j) => {
                    r.push(Lexeme { token: Token::QuotedField, start: i, end: j });
                    proof {
                        assert(r.deep_view() =~= r_old.push(lex_head(s, i as int)));
                    }
                    i = j;
                },
                Option::None => {
                    r.push(Lexeme { token: Token::Error, start: i, end: len });
                    proof {
                        assert(r.deep_view() =~= r_old.push(lex_head(s, i as int)));
                    }
                    i = len;
                },
            }
        } else {
            r.push(Lexeme { token: Token::Error, start: i, end: i + 1 });
            proof {
                assert(r.deep_view() =~= r_old.push(lex_head(s, i as int)));
            }
            i = i + 1;
        }
    }
    r
}

/// Advances over identifier characters, returning the position of the first
/// character that no longer belongs to the identifier.
fn scan_ident(input: &str, from: usize, len: usize) -> (j: usize)
    requires
        from <= len,
        len == input@.len(),
    ensures
        j as int == ident_end(input@, from as int),
        from <= j <= len,
{
    let ghost s = input@;
    let mut j = from;
    loop
        invariant
            from <= j <= len,
            len == s.len(),
            s == input@,
            ident_end(s, from as int) == ident_end(s, j as int),
        decreases len - j,
    {
        if j == len {
            return j;
        }
        let c = input.get_char(j);
        if ('a' <= c && c <= 'z') || ('A' <= c && c <= 'Z') || c == '_' || ('0' <= c && c <= '9') {
            j = j + 1;
        } else {
            return j;
        }
    }
}

/// Advances over decimal digits, returning the position of the first
/// non-digit character.
fn scan_digits(input: &str, from: usize, len: usize) -> (j: usize)
    requires
        from <= len,
        len == input@.len(),
    ensures
        j as int == digits_end(input@, from as int),
        from <= j <= len,
{
    let ghost s = input@;
    let mut j = from;
    loop
        invariant
            from <= j <= len,
            len == s.len(),
            s == input@,
            digits_end(s, from as int) == digits_end(s, j as int),
        decreases len - j,
    {
        if j == len {
            return j;
        }
        let c = input.get_char(j);
        if '0' <= c && c <= '9' {
            j = j + 1;
        } else {
            return j;
        }
    }
}

/// Advances through a quoted string begun just before `from`, honouring
/// backslash escapes, and returns the position right after the closing
/// quote, or `None` if the input ends first.
fn scan_quote(input: &str, from: usize, len: usize) -> (j: Option<usize>)
    requires
        from <= len,
        len == input@.len(),
    ensures
        match j {
            Option::Some(j) => quote_end(input@, from as int) == Option::Some(j as int) && from < j
                <= len,
            Option::None => quote_end(input@, from as int) is None,
        },
{
    let ghost s = input@;
    let mut j = from;
    loop
        invariant
            from <= j <= len,
            len == s.len(),
            s == input@,
            quote_end(s, from as int) == quote_end(s, j as int),
        decreases len - j,
    {
        if j == len {
            return Option::None;
        }
        let c = input.get_char(j);
        if c == '"' {
            return Option::Some(j + 1);
        } else if c == '\\' {
            if j + 1 < len {
                j = j + 2;
            } else {
                return Option::None;
            }
        } else {
            j = j + 1;
        }
    }
}

} // verus!
