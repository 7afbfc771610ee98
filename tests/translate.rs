use nandu::lex::Token;
use nandu::{translate, ParseError};

#[test]
fn translate_and() {
    assert_eq!(translate("And(a, b)").unwrap(), "Nand(Nand(a, b), Nand(a, b))");
}

#[test]
fn translate_or() {
    assert_eq!(translate("Or(a, b)").unwrap(), "Nand(Nand(a, a), Nand(b, b))");
}

#[test]
fn translate_nand_is_fixed_point() {
    assert_eq!(translate("Nand(a, b)").unwrap(), "Nand(a, b)");
    assert_eq!(translate("Nand(a, b)\n").unwrap(), "Nand(a, b)");
}

#[test]
fn translate_nested() {
    assert_eq!(
        translate("And(a, Or(b, c))").unwrap(),
        "Nand(Nand(a, Nand(Nand(b, b), Nand(c, c))), Nand(a, Nand(Nand(b, b), Nand(c, c))))"
    );
}

#[test]
fn translate_result_reparses_to_itself() {
    for input in ["And(a, Or(b, c))", "Or(And(x, y), Nand(z, Or(p, q)))", "Nand(a,b)"] {
        let once = translate(input).unwrap();
        let twice = translate(&once).unwrap();
        assert_eq!(twice, once);
    }
}

#[test]
fn translate_rejects_wrong_arity() {
    assert_eq!(
        translate("And(a, b, c)"),
        Err(ParseError::InvalidFunctionId("And".to_owned()))
    );
    assert_eq!(
        translate("Nand(a)"),
        Err(ParseError::InvalidFunctionId("Nand".to_owned()))
    );
}

#[test]
fn translate_rejects_unknown_gate() {
    assert_eq!(
        translate("Xor(a, b)"),
        Err(ParseError::InvalidFunctionId("Xor".to_owned()))
    );
}

#[test]
fn translate_rejects_trailing_tokens() {
    let err = translate("Nand(a, b))").unwrap_err();
    assert_eq!(err, ParseError::UnexpectedToken(Some(Token::RParen)));
    assert!(err.to_string().contains("')'"));
}

#[test]
fn translate_rejects_uppercase_variable() {
    assert_eq!(
        translate("And(A, b)"),
        Err(ParseError::UnexpectedToken(Some(Token::LexError)))
    );
    assert_eq!(
        translate("And(Ab, c)"),
        Err(ParseError::UnexpectedToken(Some(Token::Delim)))
    );
}

#[test]
fn translate_rejects_unmatched_character() {
    assert_eq!(
        translate("!"),
        Err(ParseError::UnexpectedToken(Some(Token::LexError)))
    );
    assert_eq!(
        translate("And(a, !b)"),
        Err(ParseError::UnexpectedToken(Some(Token::LexError)))
    );
}

#[test]
fn translate_rejects_premature_end() {
    assert_eq!(translate("And(a, b"), Err(ParseError::UnexpectedToken(None)));
    assert_eq!(translate(""), Err(ParseError::UnexpectedToken(None)));
}

#[test]
fn translate_rejects_bare_variable() {
    assert_eq!(
        translate("a"),
        Err(ParseError::UnexpectedToken(Some(Token::VarIdent("a".to_owned()))))
    );
}
