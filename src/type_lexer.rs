use vstd::prelude::*;

use crate::text::{chars_of, is_space, is_space_char};

verus! {

/// Why the characters at some position could not be read as a token.
#[derive(Clone, Copy, Debug, PartialEq, Eq, Structural)]
pub enum LexError {
    /// A character that starts no token.
    UnexpectedChar { pos: usize, ch: char },
    /// A run of digits whose value does not fit in 64 bits.
    IntegerTooLarge { pos: usize },
}

/// One token of a shader type declaration.
#[derive(Clone, Debug, PartialEq, Eq)]
pub enum Token {
    LSqBracket,
    RSqBracket,
    Semicolon,
    Typename(String),
    Integer(u64),
    LexerError(LexError),
}

/// The mathematical value of a token.
pub enum TokenSpec {
    LSqBracket,
    RSqBracket,
    Semicolon,
    Typename(Seq<char>),
    Integer(u64),
    LexerError(LexError),
}

impl View for Token {
    type V = TokenSpec;

    open spec fn view(&self) -> TokenSpec {
        match self {
            Token::LSqBracket => TokenSpec::LSqBracket,
            Token::RSqBracket => TokenSpec::RSqBracket,
            Token::Semicolon => TokenSpec::Semicolon,
            Token::Typename(s) => TokenSpec::Typename(s@),
            Token::Integer(n) => TokenSpec::Integer(*n),
            Token::LexerError(e) => TokenSpec::LexerError(*e),
        }
    }
}

pub open spec fn is_digit(c: char) -> bool {
    '0' <= c <= '9'
}

pub open spec fn is_alpha(c: char) -> bool {
    ('a' <= c <= 'z') || ('A' <= c <= 'Z') || c == '_'
}

pub open spec fn is_ident_char(c: char) -> bool {
    is_alpha(c) || is_digit(c)
}

/// The first position at or after `i` that holds no whitespace.
pub open spec fn space_end(s: Seq<char>, i: int) -> int
    decreases s.len() - i,
{
    if 0 <= i < s.len() && is_space(s[i]) {
        space_end(s, i + 1)
    } else {
        i
    }
}

/// The first position at or after `i` that holds no digit.
pub open spec fn digit_end(s: Seq<char>, i: int) -> int
    decreases s.len() - i,
{
    if 0 <= i < s.len() && is_digit(s[i]) {
        digit_end(s, i + 1)
    } else {
        i
    }
}

/// The first position at or after `i` that holds no identifier character.
pub open spec fn ident_end(s: Seq<char>, i: int) -> int
    decreases s.len() - i,
{
    if 0 <= i < s.len() && is_ident_char(s[i]) {
        ident_end(s, i + 1)
    } else {
        i
    }
}

/// The value of a run of decimal digits.
pub open spec fn digits_value(d: Seq<char>) -> nat
    decreases d.len(),
{
    if d.len() == 0 {
        0
    } else {
        digits_value(d.drop_last()) * 10 + (d.last() as nat - '0' as nat) as nat
    }
}

/// The token that starts at or after position `i` of `s`, with the position
/// just past it; `None` where only whitespace is left.
pub open spec fn lex_step(s: Seq<char>, i: int) -> Option<(TokenSpec, int)> {
    let j = space_end(s, i);
    if j >= s.len() {
        None
    } else if s[j] == '[' {
        Some((TokenSpec::LSqBracket, j + 1))
    } else if s[j] == ']' {
        Some((TokenSpec::RSqBracket, j + 1))
    } else if s[j] == ';' {
        Some((TokenSpec::Semicolon, j + 1))
    } else if is_digit(s[j]) {
        let e = digit_end(s, j);
        let v = digits_value(s.subrange(j, e));
        if v <= u64::MAX {
            Some((TokenSpec::Integer(v as u64), e))
        } else {
            Some((TokenSpec::LexerError(LexError::IntegerTooLarge { pos: j as usize }), e))
        }
    } else if is_alpha(s[j]) {
        let e = ident_end(s, j);
        Some((TokenSpec::Typename(s.subrange(j, e)), e))
    } else {
        Some((TokenSpec::LexerError(LexError::UnexpectedChar { pos: j as usize, ch: s[j] }), j + 1))
    }
}

proof fn lemma_space_end(s: Seq<char>, i: int)
    requires
        0 <= i <= s.len(),
    ensures
        i <= space_end(s, i) <= s.len(),
        space_end(s, i) < s.len() ==> !is_space(s[space_end(s, i)]),
    decreases s.len() - i,
{
    if i < s.len() && is_space(s[i]) {
        lemma_space_end(s, i + 1);
    }
}

proof fn lemma_digit_end(s: Seq<char>, i: int)
    requires
        0 <= i <= s.len(),
    ensures
        i <= digit_end(s, i) <= s.len(),
    decreases s.len() - i,
{
    if i < s.len() && is_digit(s[i]) {
        lemma_digit_end(s, i + 1);
    }
}

proof fn lemma_ident_end(s: Seq<char>, i: int)
    requires
        0 <= i <= s.len(),
    ensures
        i <= ident_end(s, i) <= s.len(),
    decreases s.len() - i,
{
    if i < s.len() && is_ident_char(s[i]) {
        lemma_ident_end(s, i + 1);
    }
}

/// Every step of the lexer moves forward and stays within the text.
pub proof fn lemma_lex_step_advances(s: Seq<char>, i: int)
    requires
        0 <= i <= s.len(),
    ensures
        lex_step(s, i) matches Some((_, e)) ==> i < e <= s.len(),
{
    lemma_space_end(s, i);
    let j = space_end(s, i);
    if j < s.len() {
        lemma_digit_end(s, j + 1);
        lemma_ident_end(s, j + 1);
    }
}

/// A consuming stream of tokens over a type declaration, with one token of
/// lookahead through `peek`.
pub struct TokenIter<'a> {
    text: &'a str,
    chars: Vec<char>,
    pos: usize,
    failed: bool,
}

impl<'a> TokenIter<'a> {
    /// The characters being scanned.
    pub closed spec fn source(&self) -> Seq<char> {
        self.text@
    }

    /// How many characters have been consumed.
    pub closed spec fn position(&self) -> int {
        self.pos as int
    }

    /// Whether a lexer error has been handed out, which ends the stream.
    pub closed spec fn has_failed(&self) -> bool {
        self.failed
    }

    pub closed spec fn wf(&self) -> bool {
        self.chars@ == self.text@ && self.pos <= self.chars@.len()
    }

    pub proof fn lemma_position_in_bounds(&self)
        requires
            self.wf(),
        ensures
            0 <= self.position() <= self.source().len(),
    {
    }

    pub fn new(str: &'a str) -> (r: Self)
        ensures
            r.wf(),
            r.source() == str@,
            r.position() == 0,
            !r.has_failed(),
    {
        TokenIter { text: str, chars: chars_of(str), pos: 0, failed: false }
    }

    /// Reads the token at the current position without consuming it.
    pub fn peek(&self) -> (r: Option<Token>)
        requires
            self.wf(),
        ensures
            self.has_failed() ==> r is None,
            !self.has_failed() ==> match lex_step(self.source(), self.position()) {
                None => r is None,
                Some((t, _)) => r matches Some(tok) && tok@ == t,
            },
    {
        if self.failed {
            None
        } else {
            match self.scan() {
                None => None,
                Some((t, _)) => Some(t),
            }
        }
    }

    /// Consumes and returns the next token. After a lexer error the stream is over.
    pub fn next(&mut self) -> (r: Option<Token>)
        requires
            old(self).wf(),
        ensures
            final(self).wf(),
            final(self).source() == old(self).source(),
            old(self).has_failed() ==> r is None && final(self).has_failed(),
            !old(self).has_failed() ==> match lex_step(old(self).source(), old(self).position()) {
                None => r is None && final(self).position() == old(self).position()
                    && !final(self).has_failed(),
                Some((t, e)) => r matches Some(tok) && tok@ == t && final(self).position() == e
                    && final(self).has_failed() == (t is LexerError),
            },
    {
        if self.failed {
            return None;
        }
        match self.scan() {
            None => None,
            Some((t, e)) => {
                proof {
                    lemma_lex_step_advances(self.chars@, self.pos as int);
                }
                self.pos = e;
                if let Token::LexerError(_) = t {
                    self.failed = true;
                }
                Some(t)
            },
        }
    }

    fn scan(&self) -> (r: Option<(Token, usize)>)
        requires
            self.wf(),
        ensures
            match lex_step(self.source(), self.position()) {
                None => r is None,
                Some((t, e)) => r matches Some((tok, k)) && tok@ == t && k == e,
            },
    {
        let ghost s = self.chars@;
        let n = self.chars.len();
        let mut j = self.pos;
        while j < n && is_space_char(self.chars[j])
            invariant
                s == self.chars@,
                n == s.len(),
                self.pos <= j <= n,
                space_end(s, self.pos as int) == space_end(s, j as int),
            decreases n - j,
        {
            j = j + 1;
        }
        if j >= n {
            return None;
        }
        let c = self.chars[j];
        if c == '[' {
            Some((Token::LSqBracket, j + 1))
        } else if c == ']' {
            Some((Token::RSqBracket, j + 1))
        } else if c == ';' {
            Some((Token::Semicolon, j + 1))
        } else if '0' <= c && c <= '9' {
            let mut k = j;
            let mut value: u64 = 0;
            let mut too_large = false;
            while k < n && '0' <= self.chars[k] && self.chars[k] <= '9'
                invariant
                    s == self.chars@,
                    n == s.len(),
                    j <= k <= n,
                    digit_end(s, j as int) == digit_end(s, k as int),
                    !too_large ==> value == digits_value(s.subrange(j as int, k as int)),
                    too_large ==> digits_value(s.subrange(j as int, k as int)) > u64::MAX,
                decreases n - k,
            {
                let d = (self.chars[k] as u32 - '0' as u32) as u64;
                let ghost prev = s.subrange(j as int, k as int);
                let ghost cur = s.subrange(j as int, k + 1);
                assert(cur.drop_last() =~= prev);
                assert(digits_value(cur) == digits_value(prev) * 10 + d);
                if !too_large {
                    match value.checked_mul(10) {
                        Some(m) => match m.checked_add(d) {
                            Some(v) => {
                                value = v;
                            },
                            None => {
                                too_large = true;
                            },
                        },
                        None => {
                            too_large = true;
                        },
                    }
                } else {
                    assert(digits_value(cur) >= digits_value(prev)) by (nonlinear_arith)
                        requires
                            digits_value(cur) == digits_value(prev) * 10 + d,
                    ;
                }
                k = k + 1;
            }
            if too_large {
                Some((Token::LexerError(LexError::IntegerTooLarge { pos: j }), k))
            } else {
                Some((Token::Integer(value), k))
            }
        } else if is_alpha_char(c) {
            let mut k = j;
            while k < n && (is_alpha_char(self.chars[k]) || ('0' <= self.chars[k] && self.chars[k]
                <= '9'))
                invariant
                    s == self.chars@,
                    n == s.len(),
                    j <= k <= n,
                    ident_end(s, j as int) == ident_end(s, k as int),
                decreases n - k,
            {
                k = k + 1;
            }
            let name = String::from_str(self.text.substring_char(j, k));
            Some((Token::Typename(name), k))
        } else {
            Some((Token::LexerError(LexError::UnexpectedChar { pos: j, ch: c }), j + 1))
        }
    }
}

fn is_alpha_char(c: char) -> (r: bool)
    ensures
        r == is_alpha(c),
{
    ('a' <= c && c <= 'z') || ('A' <= c && c <= 'Z') || c == '_'
}

} // verus!
