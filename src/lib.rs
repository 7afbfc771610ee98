//! Translation of boolean circuit expressions built from `And`, `Or` and
//! `Nand` gates into equivalent expressions built from `Nand` gates alone.
use vstd::prelude::*;

pub mod lex;
pub mod parse;
pub mod tree;

pub use lex::Token;
pub use parse::{Id, ParseError};
pub use tree::Node;

use lex::{
    lemma_lex_char, lemma_lex_func_name, lemma_lex_var_name, lemma_lex_var_names, lex,
    starts_no_token, tokenize, SpecToken,
};
use parse::{
    args_tokens, gate_name, lemma_parse_func_valid, lemma_parse_tokens, parse_start, start,
    tokens_of, unexpected, SpecError, TokenStream,
};
use tree::{
    args_text, lemma_nand_of_shape, lemma_nand_only_fixed, lemma_valid_wf, nand_of, text_of,
    SpecTree,
};

verus! {

/// What `translate` gives for the text `input`: the canonical text of the
/// `Nand`-only form of the expression, or the parse error.
pub open spec fn translation(input: Seq<char>) -> Result<Seq<char>, SpecError> {
    match parse_start(lex(input)) {
        Ok(t) => Ok(text_of(nand_of(t))),
        Err(e) => Err(e),
    }
}

/// Translates a circuit expression into its `Nand`-only form.
pub fn translate(input: &str) -> (r: Result<String, ParseError>)
    ensures
        match r {
            Ok(s) => translation(input@) == Ok::<Seq<char>, SpecError>(s@),
            Err(e) => translation(input@) == Err::<Seq<char>, SpecError>(e@),
        },
{
    let mut tokens = TokenStream::new(tokenize(input));
    let mut ast = match start(&mut tokens) {
        Ok(t) => t,
        Err(e) => return Err(e),
    };
    ast.to_nand();
    Ok(ast.to_string())
}

/// The text of a tree scans to the tokens of the tree, when what follows it
/// cannot extend its last token.
proof fn lemma_lex_text(t: SpecTree, r: Seq<char>)
    requires
        t.valid(),
        r.len() == 0 || r[0] == ',' || r[0] == ')',
    ensures
        lex(text_of(t) + r) == tokens_of(t) + lex(r),
    decreases t,
{
    match t {
        SpecTree::Var(x) => {
            lemma_lex_var_name(x, r);
        },
        SpecTree::Func(id, args) => {
            let a = args[0];
            let b = args[1];
            let name = gate_name(id);
            assert(args.subrange(0, 1) =~= seq![a]);
            assert(args_text(seq![a]) == text_of(a));
            assert(args_tokens(seq![a]) == tokens_of(a));
            let r5 = seq![')'] + r;
            let r4 = text_of(b) + r5;
            let r3 = seq![' '] + r4;
            let r2 = seq![','] + r3;
            let r1 = text_of(a) + r2;
            let r0 = seq!['('] + r1;
            assert(text_of(t) + r =~= name + r0);
            lemma_gate_name_lexes(id, r0);
            lemma_lex_char('(', r1);
            lemma_lex_text(a, r2);
            lemma_lex_char(',', r3);
            lemma_lex_char(' ', r4);
            lemma_lex_text(b, r5);
            lemma_lex_char(')', r);
            let ta = tokens_of(a);
            let tb = tokens_of(b);
            assert(tokens_of(t) == seq![SpecToken::FuncIdent(name), SpecToken::LParen] + (ta
                + seq![SpecToken::Delim] + tb) + seq![SpecToken::RParen]);
            lemma_regroup(SpecToken::FuncIdent(name), ta, tb, lex(r));
        },
    }
}

proof fn lemma_regroup(
    f: SpecToken,
    ta: Seq<SpecToken>,
    tb: Seq<SpecToken>,
    rest: Seq<SpecToken>,
)
    ensures
        seq![f] + (seq![SpecToken::LParen] + (ta + (seq![SpecToken::Delim] + (tb + (seq![
            SpecToken::RParen,
        ] + rest))))) == seq![f, SpecToken::LParen] + (ta + seq![SpecToken::Delim] + tb) + seq![
            SpecToken::RParen,
        ] + rest,
{
    assert(seq![f] + (seq![SpecToken::LParen] + (ta + (seq![SpecToken::Delim] + (tb + (seq![
        SpecToken::RParen,
    ] + rest))))) =~= seq![f, SpecToken::LParen] + (ta + seq![SpecToken::Delim] + tb) + seq![
        SpecToken::RParen,
    ] + rest);
}

proof fn lemma_gate_name_lexes(id: Id, r: Seq<char>)
    requires
        r.len() > 0,
        r[0] == '(',
    ensures
        lex(gate_name(id) + r) == seq![SpecToken::FuncIdent(gate_name(id))] + lex(r),
{
    let name = gate_name(id);
    assert(forall|i: int| 0 <= i < name.len() ==> lex::is_letter(#[trigger] name[i]));
    lemma_lex_func_name(name, r);
}

/// Translating the text of an expression whose gates all take two arguments
/// and whose variables are well named succeeds, and gives the text of its
/// `Nand`-only form, which parses back to that form.
pub proof fn lemma_translate_round_trip(t: SpecTree)
    requires
        t is Func,
        t.valid(),
    ensures
        translation(text_of(t)) == Ok::<Seq<char>, SpecError>(text_of(nand_of(t))),
        parse_start(lex(text_of(nand_of(t)))) == Ok::<SpecTree, SpecError>(nand_of(t)),
        nand_of(t).nand_only(),
{
    let empty = Seq::<SpecToken>::empty();
    lemma_valid_wf(t);
    lemma_lex_text(t, Seq::empty());
    assert(text_of(t) + Seq::empty() =~= text_of(t));
    assert(tokens_of(t) + lex(Seq::empty()) =~= tokens_of(t) + empty);
    lemma_parse_tokens(t, empty);
    assert(tokens_of(t) + empty =~= tokens_of(t));
    let n = nand_of(t);
    lemma_nand_of_shape(t);
    lemma_lex_text(n, Seq::empty());
    assert(text_of(n) + Seq::empty() =~= text_of(n));
    assert(tokens_of(n) + lex(Seq::empty()) =~= tokens_of(n) + empty);
    lemma_parse_tokens(n, empty);
    assert(tokens_of(n) + empty =~= tokens_of(n));
}

/// A text that starts with a character that starts no token fails to
/// translate, on the lexical error.
pub proof fn lemma_unmatched_char_fails(input: Seq<char>)
    requires
        input.len() > 0,
        starts_no_token(input[0]),
    ensures
        lex(input) == seq![SpecToken::LexError],
        translation(input) == Err::<Seq<char>, SpecError>(
            SpecError::UnexpectedToken(Some(SpecToken::LexError)),
        ),
{
    lemma_lex_char(input[0], input.drop_first());
    assert(seq![input[0]] + input.drop_first() =~= input);
    assert(unexpected(seq![SpecToken::LexError]) == SpecError::UnexpectedToken(
        Some(SpecToken::LexError),
    ));
}

/// What `translate` returns is accepted again and translates to itself.
pub proof fn lemma_translation_closed(input: Seq<char>)
    requires
        translation(input) is Ok,
    ensures
        translation(translation(input)->Ok_0) == translation(input),
{
    let t = parse_start(lex(input))->Ok_0;
    lemma_lex_var_names(input);
    lemma_parse_func_valid(lex(input));
    lemma_valid_wf(t);
    lemma_nand_of_shape(t);
    let n = nand_of(t);
    lemma_translate_round_trip(n);
    lemma_nand_only_fixed(n);
}

} // verus!
