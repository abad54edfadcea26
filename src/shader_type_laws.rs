use vstd::prelude::*;

use crate::shader_type::{parse_at, parse_type_spec, simple_type_of, ShaderType, TypeErrorSpec};
use crate::text::is_space;
use crate::type_lexer::{
    digit_end, digits_value, ident_end, is_alpha, is_digit, is_ident_char, lex_step, space_end,
    TokenSpec,
};

verus! {

/// The decimal digit character for `d < 10`.
pub open spec fn digit_char(d: nat) -> char {
    ((48 + d) as u32) as char
}

/// The decimal form of `n`, without leading zeros.
pub open spec fn decimal(n: nat) -> Seq<char>
    decreases n,
{
    if n < 10 {
        seq![digit_char(n)]
    } else {
        decimal(n / 10).push(digit_char(n % 10))
    }
}

/// The canonical text of a type: `float`, `[int;2]`, `[[vec3;4];5]`.
pub open spec fn type_text(t: ShaderType) -> Seq<char>
    decreases t,
{
    match t {
        ShaderType::Float => "float"@,
        ShaderType::Vec3 => "vec3"@,
        ShaderType::UInt => "uint"@,
        ShaderType::Int => "int"@,
        ShaderType::Array(elem, n) => seq!['['] + type_text(*elem) + seq![';'] + decimal(n as nat)
            + seq![']'],
    }
}

proof fn lemma_decimal(n: nat)
    ensures
        decimal(n).len() >= 1,
        forall|k: int| 0 <= k < decimal(n).len() ==> is_digit(#[trigger] decimal(n)[k]),
        digits_value(decimal(n)) == n,
    decreases n,
{
    assert(digit_char(n % 10) as nat == 48 + n % 10);
    assert('0' as nat == 48);
    if n < 10 {
        assert(decimal(n).drop_last() =~= seq![]);
        assert(decimal(n).last() == digit_char(n));
        assert(digit_char(n) as nat == 48 + n);
        assert(digits_value(seq![]) == 0);
        assert(digits_value(decimal(n)) == digits_value(decimal(n).drop_last()) * 10 + (
        digit_char(n) as nat - 48) as nat);
    } else {
        assert(decimal(n).last() == digit_char(n % 10));
        lemma_decimal(n / 10);
        let d = decimal(n);
        assert(d.drop_last() =~= decimal(n / 10));
        assert forall|k: int| 0 <= k < d.len() implies is_digit(#[trigger] d[k]) by {
            if k < d.len() - 1 {
                assert(d[k] == decimal(n / 10)[k]);
            }
        }
        assert(digits_value(d) == digits_value(decimal(n / 10)) * 10 + n % 10);
        assert((n / 10) * 10 + n % 10 == n) by (nonlinear_arith);
    }
}

proof fn lemma_ident_run(s: Seq<char>, i: int, e: int)
    requires
        0 <= i <= e <= s.len(),
        forall|k: int| i <= k < e ==> is_ident_char(#[trigger] s[k]),
        e == s.len() || !is_ident_char(s[e]),
    ensures
        ident_end(s, i) == e,
    decreases e - i,
{
    if i < e {
        lemma_ident_run(s, i + 1, e);
    }
}

proof fn lemma_digit_run(s: Seq<char>, i: int, e: int)
    requires
        0 <= i <= e <= s.len(),
        forall|k: int| i <= k < e ==> is_digit(#[trigger] s[k]),
        e == s.len() || !is_digit(s[e]),
    ensures
        digit_end(s, i) == e,
    decreases e - i,
{
    if i < e {
        lemma_digit_run(s, i + 1, e);
    }
}

proof fn lemma_simple_name(s: Seq<char>, i: int, name: Seq<char>, t: ShaderType)
    requires
        0 <= i,
        i + name.len() <= s.len(),
        s.subrange(i, i + name.len()) == name,
        name.len() > 0,
        is_alpha(name[0]),
        forall|k: int| 0 <= k < name.len() ==> is_ident_char(#[trigger] name[k]),
        i + name.len() == s.len() || !is_ident_char(s[i + name.len()]),
        simple_type_of(name) == Some(t),
    ensures
        parse_at(s, i) == Ok::<(ShaderType, int), TypeErrorSpec>((t, i + name.len())),
{
    let e: int = i + name.len();
    assert(s[i] == name[0]);
    assert(!is_space(s[i]));
    assert(space_end(s, i) == i);
    assert forall|k: int| i <= k < e implies is_ident_char(#[trigger] s[k]) by {
        assert(s[k] == name[k - i]);
    }
    lemma_ident_run(s, i, e);
}

proof fn lemma_parse_type_text(t: ShaderType, s: Seq<char>, i: int)
    requires
        0 <= i,
        i + type_text(t).len() <= s.len(),
        s.subrange(i, i + type_text(t).len()) == type_text(t),
        i + type_text(t).len() == s.len() || !is_ident_char(s[i + type_text(t).len()]),
    ensures
        parse_at(s, i) == Ok::<(ShaderType, int), TypeErrorSpec>((t, i + type_text(t).len())),
    decreases t,
{
    reveal_strlit("float");
    reveal_strlit("vec3");
    reveal_strlit("uint");
    reveal_strlit("int");
    match t {
        ShaderType::Float => {
            lemma_simple_name(s, i, "float"@, t);
        },
        ShaderType::Vec3 => {
            assert("vec3"@[0] != "uint"@[0]);
            lemma_simple_name(s, i, "vec3"@, t);
        },
        ShaderType::UInt => {
            lemma_simple_name(s, i, "uint"@, t);
        },
        ShaderType::Int => {
            lemma_simple_name(s, i, "int"@, t);
        },
        ShaderType::Array(elem, n) => {
            let et = type_text(*elem);
            let dec = decimal(n as nat);
            let tt = type_text(t);
            lemma_decimal(n as nat);
            let e_end: int = i + 1 + et.len();
            let d_end: int = e_end + 1 + dec.len();
            assert(tt.len() == et.len() + dec.len() + 3);
            assert(s[i] == tt[0]);
            assert(tt[0] == '[');
            assert(space_end(s, i) == i);
            assert(s.subrange(i + 1, e_end) =~= et) by {
                assert forall|k: int| 0 <= k < et.len() implies s.subrange(i + 1, e_end)[k]
                    == et[k] by {
                    assert(s[i + 1 + k] == tt[1 + k]);
                }
            }
            assert(s[e_end] == tt[1 + et.len() as int]);
            assert(s[e_end] == ';');
            lemma_parse_type_text(*elem, s, i + 1);
            assert(space_end(s, e_end) == e_end);
            assert forall|k: int| e_end + 1 <= k < d_end implies is_digit(#[trigger] s[k]) by {
                assert(s[k] == tt[k - i]);
                assert(tt[k - i] == dec[k - e_end - 1]);
            }
            assert(s[d_end] == tt[d_end - i]);
            assert(s[d_end] == ']');
            assert(s[e_end + 1] == tt[e_end + 1 - i]);
            assert(tt[e_end + 1 - i] == dec[0]);
            assert(is_digit(s[e_end + 1]));
            assert(space_end(s, e_end + 1) == e_end + 1);
            lemma_digit_run(s, e_end + 1, d_end);
            assert(s.subrange(e_end + 1, d_end) =~= dec) by {
                assert forall|k: int| 0 <= k < dec.len() implies s.subrange(e_end + 1, d_end)[k]
                    == dec[k] by {
                    assert(s[e_end + 1 + k] == tt[e_end + 1 + k - i]);
                }
            }
            assert(space_end(s, d_end) == d_end);
        },
    }
}

/// Every type reads back from its canonical text: parsing `type_text(t)`,
/// followed by anything that does not continue a word, gives `t`.
pub proof fn law_type_text_round_trip(t: ShaderType, rest: Seq<char>)
    requires
        rest.len() == 0 || !is_ident_char(rest[0]),
    ensures
        parse_type_spec(type_text(t) + rest) == Ok::<ShaderType, TypeErrorSpec>(t),
{
    let s = type_text(t) + rest;
    assert(s.subrange(0, type_text(t).len() as int) =~= type_text(t));
    if rest.len() > 0 {
        assert(s[type_text(t).len() as int] == rest[0]);
    }
    lemma_parse_type_text(t, s, 0);
}

/// `n` opening brackets.
pub open spec fn open_brackets(n: nat) -> Seq<char> {
    Seq::new(n, |k: int| '[')
}

/// A typename that names no type fails the parse and is handed back in the
/// error, however deep in arrays it stands.
pub proof fn law_unknown_typename_is_named(depth: nat, name: Seq<char>, rest: Seq<char>)
    requires
        name.len() > 0,
        is_alpha(name[0]),
        forall|k: int| 0 <= k < name.len() ==> is_ident_char(#[trigger] name[k]),
        rest.len() == 0 || !is_ident_char(rest[0]),
        simple_type_of(name) is None,
    ensures
        parse_type_spec(open_brackets(depth) + name + rest) == Err::<ShaderType, TypeErrorSpec>(
            TypeErrorSpec::UnknownTypename(name),
        ),
{
    let s = open_brackets(depth) + name + rest;
    let e: int = depth + name.len() as int;
    assert forall|k: int| depth <= k < e implies is_ident_char(#[trigger] s[k]) by {
        assert(s[k] == name[k - depth]);
    }
    if rest.len() > 0 {
        assert(s[e] == rest[0]);
    }
    assert(s[depth as int] == name[0]);
    assert(space_end(s, depth as int) == depth);
    lemma_ident_run(s, depth as int, e);
    assert(s.subrange(depth as int, e) =~= name);
    assert forall|k: int| 0 <= k < depth implies #[trigger] s[k] == '[' by {
        assert(s[k] == open_brackets(depth)[k]);
    }
    lemma_unknown_below(s, depth, name, 0);
}

proof fn lemma_unknown_below(s: Seq<char>, depth: nat, name: Seq<char>, i: int)
    requires
        0 <= i <= depth < s.len(),
        forall|k: int| 0 <= k < depth ==> #[trigger] s[k] == '[',
        lex_step(s, depth as int) matches Some((TokenSpec::Typename(x), _)) && x == name,
        simple_type_of(name) is None,
    ensures
        parse_at(s, i) == Err::<(ShaderType, int), TypeErrorSpec>(TypeErrorSpec::UnknownTypename(name)),
    decreases depth - i,
{
    if i < depth {
        assert(s[i] == '[');
        assert(space_end(s, i) == i);
        lemma_unknown_below(s, depth, name, i + 1);
    }
}

/// An array whose closing `]` is missing at the end of the text fails, and
/// the error says that `]` was expected.
pub proof fn law_missing_right_bracket(elem: ShaderType, n: u64)
    ensures
        parse_type_spec(seq!['['] + type_text(elem) + seq![';'] + decimal(n as nat)) == Err::<
            ShaderType,
            TypeErrorSpec,
        >(TypeErrorSpec::ExpectedRightBracket),
{
    let full = seq!['['] + type_text(elem) + seq![';'] + decimal(n as nat) + seq![']'];
    let s = seq!['['] + type_text(elem) + seq![';'] + decimal(n as nat);
    assert(full.drop_last() =~= s);
    let et = type_text(elem);
    let dec = decimal(n as nat);
    lemma_decimal(n as nat);
    let e_end: int = 1 + et.len() as int;
    let d_end: int = e_end + 1 + dec.len();
    assert(s[0] == '[');
    assert(space_end(s, 0) == 0);
    assert(s.subrange(1, e_end) =~= et);
    assert(s[e_end] == ';');
    lemma_parse_type_text(elem, s, 1);
    assert(space_end(s, e_end) == e_end);
    assert forall|k: int| e_end + 1 <= k < d_end implies is_digit(#[trigger] s[k]) by {
        assert(s[k] == dec[k - e_end - 1]);
    }
    assert(s[e_end + 1] == dec[0]);
    assert(space_end(s, e_end + 1) == e_end + 1);
    lemma_digit_run(s, e_end + 1, d_end);
    assert(s.subrange(e_end + 1, d_end) =~= dec);
    assert(d_end == s.len());
    assert(space_end(s, d_end) == d_end);
}

} // verus!
