//! The grammar of the `actix_web_error!` macro, which gives each variant
//! of an error enum the HTTP status code it answers with:
//!
//! `Enum { Variant => { code: 404 }, Other(..) => { code: 500 }, ... }`

use vstd::prelude::*;

use crate::macro_tokens::{
    is_joint_punct, is_punct, token_is_joint_punct, token_is_punct, AttrSyntaxError, AttrToken,
    Delimiter,
};
use crate::text::{parse_bounded, parse_unsigned, str_chars};

verus! {

/// How a variant is matched: as a unit variant, with `(..)` or with `{..}`.
#[derive(Debug, Clone, Copy, PartialEq, Eq, Structural)]
pub enum VariantShape {
    Unit,
    Tuple,
    Struct,
}

/// A variant and the status code it answers with (200 unless given).
#[derive(Debug)]
pub struct ActixWebError {
    pub name: String,
    pub code: u16,
    pub delimiter: VariantShape,
}

/// The enum and its variants, in order.
#[derive(Debug)]
pub struct ActixWebErrorInput {
    pub enum_name: String,
    pub variants: Vec<ActixWebError>,
}

/// Why the macro's input was refused.
#[derive(Debug, PartialEq, Eq)]
pub enum ActixParseError {
    Syntax(AttrSyntaxError),
    /// A field other than `code` in a variant's braces.
    UnknownField(String),
}

pub open spec fn unknown_field_text(field: Seq<char>) -> Seq<char> {
    "Unkown field `"@ + field + "`, only expected `code`, `msg` field."@
}

impl ActixParseError {
    /// The message reported for an unknown field.
    pub fn unknown_field_message(field: &String) -> (r: String)
        ensures
            r@ == unknown_field_text(field@),
    {
        let mut m = "Unkown field `".to_owned();
        m.append(field.as_str());
        m.append("`, only expected `code`, `msg` field.");
        m
    }
}

/// An error of the grammar, as plain values.
pub enum ParseFailure {
    Syntax(AttrSyntaxError),
    UnknownField(Seq<char>),
}

/// The view of a parse error.
pub open spec fn failure_of(e: ActixParseError) -> ParseFailure {
    match e {
        ActixParseError::Syntax(s) => ParseFailure::Syntax(s),
        ActixParseError::UnknownField(f) => ParseFailure::UnknownField(f@),
    }
}

/// The code given in a variant's braces from token `i` on, `code` being
/// the code so far: `field: value` pairs separated by commas, where the
/// only field is `code`, an integer that fits a `u16`.
pub open spec fn parse_code_fields(f: Seq<AttrToken>, i: int, code: u16) -> Result<u16, ParseFailure>
    decreases f.len() - i,
{
    if i >= f.len() {
        Ok(code)
    } else {
        match f[i] {
            AttrToken::Ident(field) => if !(i + 1 < f.len() && is_punct(f[i + 1], ':')) {
                Err(ParseFailure::Syntax(AttrSyntaxError::ExpectedColon))
            } else if field@ == "code"@ {
                if i + 2 < f.len() {
                    match f[i + 2] {
                        AttrToken::Int(d) => match parse_unsigned(d@, u16::MAX as nat) {
                            Some(v) => if i + 3 >= f.len() {
                                Ok(v as u16)
                            } else if is_punct(f[i + 3], ',') {
                                parse_code_fields(f, i + 4, v as u16)
                            } else {
                                Err(ParseFailure::Syntax(AttrSyntaxError::ExpectedComma))
                            },
                            None => Err(ParseFailure::Syntax(AttrSyntaxError::IntOverflow)),
                        },
                        _ => Err(ParseFailure::Syntax(AttrSyntaxError::ExpectedInt)),
                    }
                } else {
                    Err(ParseFailure::Syntax(AttrSyntaxError::ExpectedInt))
                }
            } else {
                Err(ParseFailure::UnknownField(field@))
            },
            _ => Err(ParseFailure::Syntax(AttrSyntaxError::ExpectedIdent)),
        }
    }
}

/// A variant as plain values: its name, its code and its shape.
pub type VariantView = (Seq<char>, u16, VariantShape);

pub open spec fn variant_view(v: ActixWebError) -> VariantView {
    (v.name@, v.code, v.delimiter)
}

/// The shape given after a variant's name at token `j`, and where the
/// arrow is expected.
pub open spec fn shape_at(c: Seq<AttrToken>, j: int) -> (VariantShape, int) {
    if j < c.len() && c[j] matches AttrToken::Group(Delimiter::Parenthesis, _) {
        (VariantShape::Tuple, j + 1)
    } else if j < c.len() && c[j] matches AttrToken::Group(Delimiter::Brace, _) {
        (VariantShape::Struct, j + 1)
    } else {
        (VariantShape::Unit, j)
    }
}

/// The variants from token `i` on: entries separated by commas, each a
/// name, an optional `(..)` or `{..}`, `=>` and braces holding its fields.
pub open spec fn parse_variants(c: Seq<AttrToken>, i: int) -> Result<Seq<VariantView>, ParseFailure>
    decreases c.len() - i,
{
    if i >= c.len() {
        Ok(seq![])
    } else {
        match c[i] {
            AttrToken::Ident(name) => {
                let (shape, j) = shape_at(c, i + 1);
                if !(j + 1 < c.len() && is_joint_punct(c[j], '=') && is_punct(c[j + 1], '>')) {
                    Err(ParseFailure::Syntax(AttrSyntaxError::ExpectedArrow))
                } else if j + 2 < c.len() {
                    match c[j + 2] {
                        AttrToken::Group(Delimiter::Brace, fields) => match parse_code_fields(
                            fields@,
                            0,
                            200,
                        ) {
                            Ok(code) => {
                                let v = (name@, code, shape);
                                if j + 3 >= c.len() {
                                    Ok(seq![v])
                                } else if is_punct(c[j + 3], ',') {
                                    match parse_variants(c, j + 4) {
                                        Ok(rest) => Ok(seq![v] + rest),
                                        Err(e) => Err(e),
                                    }
                                } else {
                                    Err(ParseFailure::Syntax(AttrSyntaxError::ExpectedComma))
                                }
                            },
                            Err(e) => Err(e),
                        },
                        _ => Err(ParseFailure::Syntax(AttrSyntaxError::ExpectedBraces)),
                    }
                } else {
                    Err(ParseFailure::Syntax(AttrSyntaxError::ExpectedBraces))
                }
            },
            _ => Err(ParseFailure::Syntax(AttrSyntaxError::ExpectedIdent)),
        }
    }
}

/// The macro's whole input: the enum's name and its variants in braces,
/// and nothing after.
pub open spec fn parse_input(t: Seq<AttrToken>) -> Result<(Seq<char>, Seq<VariantView>), ParseFailure> {
    if t.len() == 0 {
        Err(ParseFailure::Syntax(AttrSyntaxError::ExpectedIdent))
    } else {
        match t[0] {
            AttrToken::Ident(name) => if t.len() < 2 {
                Err(ParseFailure::Syntax(AttrSyntaxError::ExpectedBraces))
            } else {
                match t[1] {
                    AttrToken::Group(Delimiter::Brace, content) => match parse_variants(
                        content@,
                        0,
                    ) {
                        Ok(vs) => if t.len() > 2 {
                            Err(ParseFailure::Syntax(AttrSyntaxError::UnexpectedToken))
                        } else {
                            Ok((name@, vs))
                        },
                        Err(e) => Err(e),
                    },
                    _ => Err(ParseFailure::Syntax(AttrSyntaxError::ExpectedBraces)),
                }
            },
            _ => Err(ParseFailure::Syntax(AttrSyntaxError::ExpectedIdent)),
        }
    }
}

/// The `u16` an integer literal's digits stand for.
fn digits_u16(d: &String) -> (r: Option<u16>)
    ensures
        match parse_unsigned(d@, u16::MAX as nat) {
            Some(v) => r == Some(v as u16),
            None => r is None,
        },
{
    let v = str_chars(d.as_str());
    let n = v.len();
    assert(v@.subrange(0, n as int) =~= d@);
    match parse_bounded(&v, 0, n, 65535) {
        Some(x) => Some(x as u16),
        None => None,
    }
}

/// Reads the code from a variant's braces.
fn parse_code_fields_tokens(f: &Vec<AttrToken>) -> (r: Result<u16, ActixParseError>)
    ensures
        match r {
            Ok(c) => parse_code_fields(f@, 0, 200) == Ok::<u16, ParseFailure>(c),
            Err(e) => parse_code_fields(f@, 0, 200) == Err::<u16, ParseFailure>(failure_of(e)),
        },
{
    let mut code: u16 = 200;
    let mut i: usize = 0;
    while i < f.len()
        invariant
            i <= f@.len(),
            parse_code_fields(f@, 0, 200) == parse_code_fields(f@, i as int, code),
        decreases f@.len() - i,
    {
        match &f[i] {
            AttrToken::Ident(field) => {
                if !(i + 1 < f.len() && token_is_punct(&f[i + 1], ':')) {
                    return Err(ActixParseError::Syntax(AttrSyntaxError::ExpectedColon));
                }
                if *field != "code".to_owned() {
                    return Err(ActixParseError::UnknownField(field.clone()));
                }
                if i + 2 >= f.len() {
                    return Err(ActixParseError::Syntax(AttrSyntaxError::ExpectedInt));
                }
                match &f[i + 2] {
                    AttrToken::Int(d) => match digits_u16(d) {
                        Some(v) => {
                            code = v;
                            if i + 3 >= f.len() {
                                return Ok(code);
                            }
                            if !token_is_punct(&f[i + 3], ',') {
                                return Err(ActixParseError::Syntax(AttrSyntaxError::ExpectedComma));
                            }
                            i = i + 4;
                        },
                        None => {
                            return Err(ActixParseError::Syntax(AttrSyntaxError::IntOverflow));
                        },
                    },
                    _ => {
                        return Err(ActixParseError::Syntax(AttrSyntaxError::ExpectedInt));
                    },
                }
            },
            _ => {
                return Err(ActixParseError::Syntax(AttrSyntaxError::ExpectedIdent));
            },
        }
    }
    Ok(code)
}

pub open spec fn prefixed_variants(
    acc: Seq<VariantView>,
    r: Result<Seq<VariantView>, ParseFailure>,
) -> Result<Seq<VariantView>, ParseFailure> {
    match r {
        Ok(x) => Ok(acc + x),
        Err(e) => Err(e),
    }
}

/// Reads the variants inside the enum's braces.
fn parse_variants_tokens(c: &Vec<AttrToken>) -> (r: Result<Vec<ActixWebError>, ActixParseError>)
    ensures
        match r {
            Ok(vs) => parse_variants(c@, 0) == Ok::<Seq<VariantView>, ParseFailure>(
                vs@.map_values(|v: ActixWebError| variant_view(v)),
            ),
            Err(e) => parse_variants(c@, 0) == Err::<Seq<VariantView>, ParseFailure>(
                failure_of(e),
            ),
        },
{
    let mut out: Vec<ActixWebError> = Vec::new();
    let mut i: usize = 0;
    let ghost t = c@;
    assert(out@.map_values(|v: ActixWebError| variant_view(v)) =~= Seq::<VariantView>::empty());
    assert(parse_variants(t, 0) == prefixed_variants(
        out@.map_values(|v: ActixWebError| variant_view(v)),
        parse_variants(t, 0),
    )) by {
        if parse_variants(t, 0) is Ok {
            assert(Seq::<VariantView>::empty() + parse_variants(t, 0)->Ok_0 =~= parse_variants(
                t,
                0,
            )->Ok_0);
        }
    }
    while i < c.len()
        invariant
            t == c@,
            i <= t.len(),
            parse_variants(t, 0) == prefixed_variants(
                out@.map_values(|v: ActixWebError| variant_view(v)),
                parse_variants(t, i as int),
            ),
        decreases t.len() - i,
    {
        let ghost acc = out@.map_values(|v: ActixWebError| variant_view(v));
        match &c[i] {
            AttrToken::Ident(name) => {
                let mut j = i + 1;
                let mut shape = VariantShape::Unit;
                if j < c.len() {
                    match &c[j] {
                        AttrToken::Group(Delimiter::Parenthesis, _) => {
                            shape = VariantShape::Tuple;
                            j = j + 1;
                        },
                        AttrToken::Group(Delimiter::Brace, _) => {
                            shape = VariantShape::Struct;
                            j = j + 1;
                        },
                        _ => {},
                    }
                }
                assert(shape_at(t, i + 1) == (shape, j as int));
                if !(j < c.len() && j + 1 < c.len() && token_is_joint_punct(&c[j], '=') && token_is_punct(
                    &c[j + 1],
                    '>',
                )) {
                    return Err(ActixParseError::Syntax(AttrSyntaxError::ExpectedArrow));
                }
                if j + 2 >= c.len() {
                    return Err(ActixParseError::Syntax(AttrSyntaxError::ExpectedBraces));
                }
                match &c[j + 2] {
                    AttrToken::Group(Delimiter::Brace, fields) => {
                        let code = match parse_code_fields_tokens(fields) {
                            Ok(code) => code,
                            Err(e) => {
                                return Err(e);
                            },
                        };
                        let v = ActixWebError { name: name.clone(), code, delimiter: shape };
                        let ghost vv = variant_view(v);
                        out.push(v);
                        assert(out@.map_values(|v: ActixWebError| variant_view(v)) =~= acc.push(vv));
                        if j + 3 >= c.len() {
                            assert(acc + seq![vv] =~= acc.push(vv));
                            assert(acc.push(vv) + Seq::<VariantView>::empty() =~= acc.push(vv));
                            return Ok(out);
                        }
                        if !token_is_punct(&c[j + 3], ',') {
                            return Err(ActixParseError::Syntax(AttrSyntaxError::ExpectedComma));
                        }
                        proof {
                            let rest = parse_variants(t, j + 4);
                            if rest is Ok {
                                assert(acc + (seq![vv] + rest->Ok_0) =~= acc.push(vv) + rest->Ok_0);
                            }
                        }
                        i = j + 4;
                    },
                    _ => {
                        return Err(ActixParseError::Syntax(AttrSyntaxError::ExpectedBraces));
                    },
                }
            },
            _ => {
                return Err(ActixParseError::Syntax(AttrSyntaxError::ExpectedIdent));
            },
        }
    }
    proof {
        let acc = out@.map_values(|v: ActixWebError| variant_view(v));
        assert(acc + Seq::<VariantView>::empty() =~= acc);
    }
    Ok(out)
}

/// Reads the macro's input: the enum's name, then its variants in braces,
/// each with the status code it answers with.
pub fn parse_actix_web_error_input(tokens: &Vec<AttrToken>) -> (r: Result<
    ActixWebErrorInput,
    ActixParseError,
>)
    ensures
        match r {
            Ok(input) => parse_input(tokens@) == Ok::<
                (Seq<char>, Seq<VariantView>),
                ParseFailure,
            >((input.enum_name@, input.variants@.map_values(|v: ActixWebError| variant_view(v)))),
            Err(e) => parse_input(tokens@) == Err::<(Seq<char>, Seq<VariantView>), ParseFailure>(
                failure_of(e),
            ),
        },
{
    if tokens.len() == 0 {
        return Err(ActixParseError::Syntax(AttrSyntaxError::ExpectedIdent));
    }
    match &tokens[0] {
        AttrToken::Ident(name) => {
            if tokens.len() < 2 {
                return Err(ActixParseError::Syntax(AttrSyntaxError::ExpectedBraces));
            }
            match &tokens[1] {
                AttrToken::Group(Delimiter::Brace, content) => {
                    let variants = match parse_variants_tokens(content) {
                        Ok(v) => v,
                        Err(e) => {
                            return Err(e);
                        },
                    };
                    if tokens.len() > 2 {
                        return Err(ActixParseError::Syntax(AttrSyntaxError::UnexpectedToken));
                    }
                    Ok(ActixWebErrorInput { enum_name: name.clone(), variants })
                },
                _ => Err(ActixParseError::Syntax(AttrSyntaxError::ExpectedBraces)),
            }
        },
        _ => Err(ActixParseError::Syntax(AttrSyntaxError::ExpectedIdent)),
    }
}

} // verus!
