use nandu::lex::Token;
use nandu::parse::{arg_list, consume, func, start, Id, ParseError, TokenStream};
use nandu::tree::Node;

fn var(name: &str) -> Node {
    Node::Var { id: name.to_owned() }
}

#[test]
fn parse_accepts_and() {
    let mut token_stream = TokenStream::new(vec![
        Token::FuncIdent("And".to_owned()),
        Token::LParen,
        Token::VarIdent("a".to_owned()),
        Token::Delim,
        Token::VarIdent("b".to_owned()),
        Token::RParen,
    ]);
    func(&mut token_stream).unwrap();
}

#[test]
fn parse_accepts_or() {
    let mut token_stream = TokenStream::new(vec![
        Token::FuncIdent("Or".to_owned()),
        Token::LParen,
        Token::VarIdent("a".to_owned()),
        Token::Delim,
        Token::VarIdent("b".to_owned()),
        Token::RParen,
    ]);
    func(&mut token_stream).unwrap();
}

#[test]
fn parse_accepts_nand() {
    let mut token_stream = TokenStream::new(vec![
        Token::FuncIdent("Nand".to_owned()),
        Token::LParen,
        Token::VarIdent("a".to_owned()),
        Token::Delim,
        Token::VarIdent("b".to_owned()),
        Token::RParen,
    ]);
    func(&mut token_stream).unwrap();
}

#[test]
fn parse_accepts_nested_functions() {
    let mut token_stream = TokenStream::new(vec![
        Token::FuncIdent("And".to_owned()),
        Token::LParen,
        Token::FuncIdent("Or".to_owned()),
        Token::LParen,
        Token::VarIdent("b".to_owned()),
        Token::Delim,
        Token::VarIdent("c".to_owned()),
        Token::RParen,
        Token::Delim,
        Token::VarIdent("a".to_owned()),
        Token::RParen,
    ]);
    func(&mut token_stream).unwrap();
}

#[test]
fn parse_simple_ast() {
    let mut token_stream = TokenStream::new(vec![
        Token::FuncIdent("And".to_owned()),
        Token::LParen,
        Token::VarIdent("a".to_owned()),
        Token::Delim,
        Token::VarIdent("b".to_owned()),
        Token::RParen,
    ]);
    let expected_tree = Node::Func {
        id: Id::And,
        args: vec![var("a"), var("b")],
    };
    let result_tree = start(&mut token_stream).unwrap();
    assert_eq!(result_tree, expected_tree);
}

#[test]
fn parse_nested_ast() {
    let mut token_stream = TokenStream::new(vec![
        Token::FuncIdent("And".to_owned()),
        Token::LParen,
        Token::FuncIdent("Or".to_owned()),
        Token::LParen,
        Token::FuncIdent("Nand".to_owned()),
        Token::LParen,
        Token::VarIdent("c".to_owned()),
        Token::Delim,
        Token::VarIdent("d".to_owned()),
        Token::RParen,
        Token::Delim,
        Token::VarIdent("b".to_owned()),
        Token::RParen,
        Token::Delim,
        Token::VarIdent("a".to_owned()),
        Token::RParen,
    ]);
    let expected_tree = Node::Func {
        id: Id::And,
        args: vec![
            Node::Func {
                id: Id::Or,
                args: vec![
                    Node::Func {
                        id: Id::Nand,
                        args: vec![var("c"), var("d")],
                    },
                    var("b"),
                ],
            },
            var("a"),
        ],
    };
    let result_tree = start(&mut token_stream).unwrap();
    assert_eq!(result_tree, expected_tree);
}

#[test]
fn start_rejects_trailing_token() {
    let mut token_stream = TokenStream::new(vec![
        Token::FuncIdent("Nand".to_owned()),
        Token::LParen,
        Token::VarIdent("a".to_owned()),
        Token::Delim,
        Token::VarIdent("b".to_owned()),
        Token::RParen,
        Token::RParen,
    ]);
    assert_eq!(
        start(&mut token_stream),
        Err(ParseError::UnexpectedToken(Some(Token::RParen)))
    );
}

#[test]
fn func_rejects_missing_close_paren() {
    let mut token_stream = TokenStream::new(vec![
        Token::FuncIdent("And".to_owned()),
        Token::LParen,
        Token::VarIdent("a".to_owned()),
        Token::Delim,
        Token::VarIdent("b".to_owned()),
    ]);
    assert_eq!(func(&mut token_stream), Err(ParseError::UnexpectedToken(None)));
}

#[test]
fn func_rejects_wrong_arity() {
    let mut token_stream = TokenStream::new(vec![
        Token::FuncIdent("Or".to_owned()),
        Token::LParen,
        Token::VarIdent("a".to_owned()),
        Token::RParen,
    ]);
    assert_eq!(
        func(&mut token_stream),
        Err(ParseError::InvalidFunctionId("Or".to_owned()))
    );
}

#[test]
fn func_rejects_variable_at_start() {
    let mut token_stream = TokenStream::new(vec![Token::VarIdent("a".to_owned())]);
    assert_eq!(
        func(&mut token_stream),
        Err(ParseError::UnexpectedToken(Some(Token::VarIdent("a".to_owned()))))
    );
}

#[test]
fn arg_list_reads_every_argument() {
    let mut token_stream = TokenStream::new(vec![
        Token::VarIdent("a".to_owned()),
        Token::Delim,
        Token::VarIdent("b".to_owned()),
        Token::Delim,
        Token::VarIdent("c".to_owned()),
        Token::RParen,
    ]);
    let args = arg_list(&mut token_stream).unwrap();
    assert_eq!(args, vec![var("a"), var("b"), var("c")]);
    assert_eq!(token_stream.next(), Some(Token::RParen));
    assert_eq!(token_stream.next(), None);
}

#[test]
fn consume_on_empty_stream_is_unexpected_end() {
    let mut token_stream = TokenStream::new(vec![]);
    assert_eq!(consume(&mut token_stream), Err(ParseError::UnexpectedEnd));
    let mut token_stream = TokenStream::new(vec![Token::Delim]);
    assert_eq!(consume(&mut token_stream), Ok(Token::Delim));
}

#[test]
fn id_parse_checks_name_and_arity() {
    assert_eq!(Id::parse("And", 2), Some(Id::And));
    assert_eq!(Id::parse("Or", 2), Some(Id::Or));
    assert_eq!(Id::parse("Nand", 2), Some(Id::Nand));
    assert_eq!(Id::parse("And", 3), None);
    assert_eq!(Id::parse("Nand", 1), None);
    assert_eq!(Id::parse("Xor", 2), None);
    assert_eq!(Id::parse("and", 2), None);
    assert_eq!(Id::parse("Nan", 2), None);
}

#[test]
fn id_names() {
    assert_eq!(Id::And.to_string(), "And");
    assert_eq!(Id::Or.to_string(), "Or");
    assert_eq!(Id::Nand.to_string(), "Nand");
}

#[test]
fn error_messages() {
    assert_eq!(
        ParseError::UnexpectedToken(Some(Token::RParen)).to_string(),
        "unexpected token ')'"
    );
    assert_eq!(
        ParseError::UnexpectedToken(Some(Token::VarIdent("a".to_owned()))).to_string(),
        "unexpected token variable 'a'"
    );
    assert_eq!(
        ParseError::UnexpectedToken(None).to_string(),
        "unexpected missing token"
    );
    assert_eq!(
        ParseError::InvalidFunctionId("Xor".to_owned()).to_string(),
        "unknown function id 'Xor'"
    );
    assert_eq!(ParseError::UnexpectedEnd.to_string(), "unexpected end of input");
}
