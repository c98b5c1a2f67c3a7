use cosmox::error_macro::{parse_actix_web_error_input, ActixParseError, VariantShape};
use cosmox::macro_tokens::{AttrSyntaxError, AttrToken, Delimiter};

fn ident(s: &str) -> AttrToken {
    AttrToken::Ident(s.to_string())
}

fn arrow() -> Vec<AttrToken> {
    vec![AttrToken::JointPunct('='), AttrToken::Punct('>')]
}

fn code(n: &str) -> AttrToken {
    AttrToken::Group(
        Delimiter::Brace,
        vec![ident("code"), AttrToken::Punct(':'), AttrToken::Int(n.to_string())],
    )
}

fn input(entries: Vec<AttrToken>) -> Vec<AttrToken> {
    vec![ident("ApiError"), AttrToken::Group(Delimiter::Brace, entries)]
}

#[test]
fn parses_variants_with_codes_and_shapes() {
    let mut e = vec![ident("NotFound")];
    e.extend(arrow());
    e.push(code("404"));
    e.push(AttrToken::Punct(','));
    e.push(ident("Db"));
    e.push(AttrToken::Group(Delimiter::Parenthesis, vec![ident("String")]));
    e.extend(arrow());
    e.push(code("500"));
    e.push(AttrToken::Punct(','));
    e.push(ident("Bad"));
    e.push(AttrToken::Group(Delimiter::Brace, vec![]));
    e.extend(arrow());
    e.push(AttrToken::Group(Delimiter::Brace, vec![]));
    e.push(AttrToken::Punct(','));
    let parsed = parse_actix_web_error_input(&input(e)).unwrap();
    assert_eq!(parsed.enum_name, "ApiError");
    let got: Vec<(String, u16, VariantShape)> =
        parsed.variants.iter().map(|v| (v.name.clone(), v.code, v.delimiter)).collect();
    assert_eq!(
        got,
        vec![
            ("NotFound".into(), 404, VariantShape::Unit),
            ("Db".into(), 500, VariantShape::Tuple),
            ("Bad".into(), 200, VariantShape::Struct),
        ]
    );
}

#[test]
fn unknown_field_is_refused_with_its_message() {
    let mut e = vec![ident("A")];
    e.extend(arrow());
    e.push(AttrToken::Group(
        Delimiter::Brace,
        vec![ident("msg"), AttrToken::Punct(':'), AttrToken::Str("x".into())],
    ));
    let err = parse_actix_web_error_input(&input(e)).unwrap_err();
    assert_eq!(err, ActixParseError::UnknownField("msg".into()));
    assert_eq!(
        ActixParseError::unknown_field_message(&"msg".to_string()),
        "Unkown field `msg`, only expected `code`, `msg` field."
    );
}

#[test]
fn syntax_errors() {
    let mut no_arrow = vec![ident("A"), AttrToken::Punct('=')];
    no_arrow.push(code("1"));
    assert_eq!(
        parse_actix_web_error_input(&input(no_arrow)).unwrap_err(),
        ActixParseError::Syntax(AttrSyntaxError::ExpectedArrow)
    );
    let mut too_big = vec![ident("A")];
    too_big.extend(arrow());
    too_big.push(code("70000"));
    assert_eq!(
        parse_actix_web_error_input(&input(too_big)).unwrap_err(),
        ActixParseError::Syntax(AttrSyntaxError::IntOverflow)
    );
    let mut extra = input(vec![]);
    extra.push(ident("x"));
    assert_eq!(
        parse_actix_web_error_input(&extra).unwrap_err(),
        ActixParseError::Syntax(AttrSyntaxError::UnexpectedToken)
    );
    assert_eq!(
        parse_actix_web_error_input(&vec![ident("E")]).unwrap_err(),
        ActixParseError::Syntax(AttrSyntaxError::ExpectedBraces)
    );
    assert_eq!(
        parse_actix_web_error_input(&vec![]).unwrap_err(),
        ActixParseError::Syntax(AttrSyntaxError::ExpectedIdent)
    );
}
