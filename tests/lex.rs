use nandu::lex::{tokenize, Token};

fn func_ident(name: &str) -> Token {
    Token::FuncIdent(name.to_owned())
}

fn var_ident(name: &str) -> Token {
    Token::VarIdent(name.to_owned())
}

#[test]
fn tokenize_call() {
    assert_eq!(
        tokenize("And(a, b)\n"),
        vec![
            func_ident("And"),
            Token::LParen,
            var_ident("a"),
            Token::Delim,
            var_ident("b"),
            Token::RParen,
        ]
    );
}

#[test]
fn tokenize_skips_all_whitespace() {
    assert_eq!(
        tokenize(" \t\r\n\x0cNand (x_y ,\tz)"),
        vec![
            func_ident("Nand"),
            Token::LParen,
            var_ident("x_y"),
            Token::Delim,
            var_ident("z"),
            Token::RParen,
        ]
    );
    assert_eq!(tokenize(""), vec![]);
    assert_eq!(tokenize("  \n"), vec![]);
}

#[test]
fn tokenize_takes_longest_match() {
    assert_eq!(tokenize("NaNd"), vec![func_ident("NaNd")]);
    assert_eq!(tokenize("abc_de"), vec![var_ident("abc_de")]);
    assert_eq!(tokenize("aB"), vec![var_ident("a"), Token::LexError]);
    assert_eq!(tokenize("aBc"), vec![var_ident("a"), func_ident("Bc")]);
    assert_eq!(tokenize("a1"), vec![var_ident("a"), Token::LexError]);
}

#[test]
fn tokenize_stops_at_first_error() {
    assert_eq!(tokenize("!"), vec![Token::LexError]);
    assert_eq!(tokenize("a ! b"), vec![var_ident("a"), Token::LexError]);
    assert_eq!(tokenize("A(b)"), vec![Token::LexError]);
    assert_eq!(tokenize("_a"), vec![Token::LexError]);
    assert_eq!(tokenize("And(ä)"), vec![func_ident("And"), Token::LParen, Token::LexError]);
}

#[test]
fn token_text_and_description() {
    assert_eq!(func_ident("And").into_text(), "And");
    assert_eq!(var_ident("a_b").into_text(), "a_b");
    assert_eq!(Token::LParen.into_text(), "LParen");
    assert_eq!(Token::RParen.into_text(), "RParen");
    assert_eq!(Token::Delim.into_text(), "Delim");
    assert_eq!(Token::LexError.into_text(), "LexError");
    assert_eq!(Token::LParen.to_string(), "'('");
    assert_eq!(Token::RParen.to_string(), "')'");
    assert_eq!(Token::Delim.to_string(), "','");
    assert_eq!(func_ident("Or").to_string(), "function 'Or'");
    assert_eq!(var_ident("b").to_string(), "variable 'b'");
    assert_eq!(Token::LexError.to_string(), "lexical error");
}

#[test]
fn token_clone_is_equal() {
    let t = var_ident("q");
    assert_eq!(t.clone(), t);
}
