use vstd::prelude::*;

use crate::type_lexer::{lemma_lex_step_advances, lex_step, LexError, Token, TokenIter, TokenSpec};

verus! {

/// The type of a shader parameter: a scalar, a vector, or a fixed-size array.
#[derive(Debug, PartialEq, Eq)]
pub enum ShaderType {
    Float,
    Vec3,
    UInt,
    Int,
    Array(Box<ShaderType>, u64),
}

/// Why a type declaration was rejected.
#[derive(Clone, Debug, PartialEq, Eq)]
pub enum TypeError {
    /// The tokenizer could not read the text; passed on as it came.
    Lexer(LexError),
    /// The text ended where a type was to start.
    IncompleteType,
    StartsWithInteger(u64),
    StartsWithRightBracket,
    StartsWithSemicolon,
    /// A typename that names no known type, with its text.
    UnknownTypename(String),
    /// An array's element type was not followed by `;`.
    ExpectedSemicolon,
    /// An array's `;` was not followed by an integer length.
    ExpectedLength,
    /// An array's length was not followed by `]`.
    ExpectedRightBracket,
}

pub enum TypeErrorSpec {
    Lexer(LexError),
    IncompleteType,
    StartsWithInteger(u64),
    StartsWithRightBracket,
    StartsWithSemicolon,
    UnknownTypename(Seq<char>),
    ExpectedSemicolon,
    ExpectedLength,
    ExpectedRightBracket,
}

impl View for TypeError {
    type V = TypeErrorSpec;

    open spec fn view(&self) -> TypeErrorSpec {
        match self {
            TypeError::Lexer(e) => TypeErrorSpec::Lexer(*e),
            TypeError::IncompleteType => TypeErrorSpec::IncompleteType,
            TypeError::StartsWithInteger(n) => TypeErrorSpec::StartsWithInteger(*n),
            TypeError::StartsWithRightBracket => TypeErrorSpec::StartsWithRightBracket,
            TypeError::StartsWithSemicolon => TypeErrorSpec::StartsWithSemicolon,
            TypeError::UnknownTypename(s) => TypeErrorSpec::UnknownTypename(s@),
            TypeError::ExpectedSemicolon => TypeErrorSpec::ExpectedSemicolon,
            TypeError::ExpectedLength => TypeErrorSpec::ExpectedLength,
            TypeError::ExpectedRightBracket => TypeErrorSpec::ExpectedRightBracket,
        }
    }
}

/// The scalar or vector type that a typename denotes.
pub open spec fn simple_type_of(name: Seq<char>) -> Option<ShaderType> {
    if name == "float"@ {
        Some(ShaderType::Float)
    } else if name == "int"@ {
        Some(ShaderType::Int)
    } else if name == "uint"@ {
        Some(ShaderType::UInt)
    } else if name == "vec3"@ {
        Some(ShaderType::Vec3)
    } else {
        None
    }
}

/// The rest of an array, `; LENGTH ]`, read from position `k` after its element type.
pub open spec fn parse_array_tail(s: Seq<char>, elem: ShaderType, k: int) -> Result<
    (ShaderType, int),
    TypeErrorSpec,
> {
    match lex_step(s, k) {
        Some((TokenSpec::Semicolon, k1)) => match lex_step(s, k1) {
            Some((TokenSpec::Integer(n), k2)) => match lex_step(s, k2) {
                Some((TokenSpec::RSqBracket, k3)) => Ok((ShaderType::Array(Box::new(elem), n), k3)),
                Some((TokenSpec::LexerError(e), _)) => Err(TypeErrorSpec::Lexer(e)),
                _ => Err(TypeErrorSpec::ExpectedRightBracket),
            },
            Some((TokenSpec::LexerError(e), _)) => Err(TypeErrorSpec::Lexer(e)),
            _ => Err(TypeErrorSpec::ExpectedLength),
        },
        Some((TokenSpec::LexerError(e), _)) => Err(TypeErrorSpec::Lexer(e)),
        _ => Err(TypeErrorSpec::ExpectedSemicolon),
    }
}

/// The type that starts at position `i` of `s`, with the position just past it.
pub open spec fn parse_at(s: Seq<char>, i: int) -> Result<(ShaderType, int), TypeErrorSpec>
    decreases s.len() - i,
{
    match lex_step(s, i) {
        None => Err(TypeErrorSpec::IncompleteType),
        Some((TokenSpec::LexerError(e), _)) => Err(TypeErrorSpec::Lexer(e)),
        Some((TokenSpec::Integer(n), _)) => Err(TypeErrorSpec::StartsWithInteger(n)),
        Some((TokenSpec::RSqBracket, _)) => Err(TypeErrorSpec::StartsWithRightBracket),
        Some((TokenSpec::Semicolon, _)) => Err(TypeErrorSpec::StartsWithSemicolon),
        Some((TokenSpec::Typename(name), j)) => match simple_type_of(name) {
            Some(t) => Ok((t, j)),
            None => Err(TypeErrorSpec::UnknownTypename(name)),
        },
        Some((TokenSpec::LSqBracket, j)) => {
            if i < j <= s.len() {
                match parse_at(s, j) {
                    Ok((elem, k)) => parse_array_tail(s, elem, k),
                    Err(e) => Err(e),
                }
            } else {
                Err(TypeErrorSpec::IncompleteType)
            }
        },
    }
}

/// The type that a whole declaration denotes (text after the type is not read).
pub open spec fn parse_type_spec(s: Seq<char>) -> Result<ShaderType, TypeErrorSpec> {
    match parse_at(s, 0) {
        Ok((t, _)) => Ok(t),
        Err(e) => Err(e),
    }
}

/// Parses a shader parameter type such as `float`, `vec3` or `[[int; 2]; 3]`.
pub fn parse_type_str(type_str: &str) -> (r: Result<ShaderType, TypeError>)
    ensures
        match parse_type_spec(type_str@) {
            Ok(t) => r == Ok::<ShaderType, TypeError>(t),
            Err(e) => r matches Err(x) && x@ == e,
        },
{
    let mut tokens = TokenIter::new(type_str);
    parse_type(&mut tokens)
}

fn parse_type(tokens: &mut TokenIter) -> (r: Result<ShaderType, TypeError>)
    requires
        old(tokens).wf(),
        !old(tokens).has_failed(),
    ensures
        final(tokens).wf(),
        final(tokens).source() == old(tokens).source(),
        match parse_at(old(tokens).source(), old(tokens).position()) {
            Ok((t, k)) => r == Ok::<ShaderType, TypeError>(t) && final(tokens).position() == k
                && !final(tokens).has_failed(),
            Err(e) => r matches Err(x) && x@ == e,
        },
        r matches Err(TypeError::Lexer(_)) ==> final(tokens).has_failed(),
        lex_step(old(tokens).source(), old(tokens).position()) matches Some(
            (TokenSpec::LexerError(_), e),
        ) ==> final(tokens).position() == e && final(tokens).has_failed(),
    decreases old(tokens).source().len() - old(tokens).position(), 1int,
{
    match tokens.peek() {
        None => Err(TypeError::IncompleteType),
        Some(Token::LSqBracket) => parse_array(tokens),
        Some(Token::Typename(_)) => parse_simple_type(tokens),
        Some(Token::Integer(n)) => Err(TypeError::StartsWithInteger(n)),
        Some(Token::RSqBracket) => Err(TypeError::StartsWithRightBracket),
        Some(Token::Semicolon) => Err(TypeError::StartsWithSemicolon),
        Some(Token::LexerError(e)) => {
            tokens.next();
            Err(TypeError::Lexer(e))
        },
    }
}

fn parse_array(tokens: &mut TokenIter) -> (r: Result<ShaderType, TypeError>)
    requires
        old(tokens).wf(),
        !old(tokens).has_failed(),
        lex_step(old(tokens).source(), old(tokens).position()) matches Some(
            (TokenSpec::LSqBracket, _),
        ),
    ensures
        final(tokens).wf(),
        final(tokens).source() == old(tokens).source(),
        match parse_at(old(tokens).source(), old(tokens).position()) {
            Ok((t, k)) => r == Ok::<ShaderType, TypeError>(t) && final(tokens).position() == k
                && !final(tokens).has_failed(),
            Err(e) => r matches Err(x) && x@ == e,
        },
        r matches Err(TypeError::Lexer(_)) ==> final(tokens).has_failed(),
    decreases old(tokens).source().len() - old(tokens).position(), 0int,
{
    let ghost s = tokens.source();
    proof {
        tokens.lemma_position_in_bounds();
        lemma_lex_step_advances(s, tokens.position());
    }
    tokens.next();
    let elem = match parse_type(tokens) {
        Ok(t) => t,
        Err(e) => return Err(e),
    };
    match tokens.next() {
        Some(Token::Semicolon) => {},
        Some(Token::LexerError(e)) => return Err(TypeError::Lexer(e)),
        _ => return Err(TypeError::ExpectedSemicolon),
    }
    let length = match tokens.next() {
        Some(Token::Integer(n)) => n,
        Some(Token::LexerError(e)) => return Err(TypeError::Lexer(e)),
        _ => return Err(TypeError::ExpectedLength),
    };
    match tokens.next() {
        Some(Token::RSqBracket) => Ok(ShaderType::Array(Box::new(elem), length)),
        Some(Token::LexerError(e)) => Err(TypeError::Lexer(e)),
        _ => Err(TypeError::ExpectedRightBracket),
    }
}

fn parse_simple_type(tokens: &mut TokenIter) -> (r: Result<ShaderType, TypeError>)
    requires
        old(tokens).wf(),
        !old(tokens).has_failed(),
        lex_step(old(tokens).source(), old(tokens).position()) matches Some(
            (TokenSpec::Typename(_), _),
        ),
    ensures
        final(tokens).wf(),
        final(tokens).source() == old(tokens).source(),
        match parse_at(old(tokens).source(), old(tokens).position()) {
            Ok((t, k)) => r == Ok::<ShaderType, TypeError>(t) && final(tokens).position() == k
                && !final(tokens).has_failed(),
            Err(e) => r matches Err(x) && x@ == e,
        },
        match lex_step(old(tokens).source(), old(tokens).position()) {
            Some((TokenSpec::Typename(name), _)) => simple_type_of(name) is None ==> (r matches Err(
                TypeError::UnknownTypename(x),
            ) && x@ == name),
            _ => true,
        },
{
    match tokens.next() {
        Some(Token::Typename(name)) => match simple_type_named(&name) {
            Some(t) => Ok(t),
            None => Err(TypeError::UnknownTypename(name)),
        },
        _ => Err(TypeError::IncompleteType),
    }
}

fn simple_type_named(name: &String) -> (r: Option<ShaderType>)
    ensures
        r == simple_type_of(name@),
{
    if *name == String::from_str("float") {
        Some(ShaderType::Float)
    } else if *name == String::from_str("int") {
        Some(ShaderType::Int)
    } else if *name == String::from_str("uint") {
        Some(ShaderType::UInt)
    } else if *name == String::from_str("vec3") {
        Some(ShaderType::Vec3)
    } else {
        None
    }
}

} // verus!
