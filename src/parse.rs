use vstd::prelude::*;
use vstd::string::StrSliceExecFns;
use vstd::string::StringExecFns;

use crate::lex::{describe, is_var_name, token_views, var_names_valid, SpecToken, Token};
use crate::tree::{lemma_views, views, Node, SpecTree};

verus! {

broadcast use vstd::std_specs::vec::group_vec_axioms;

pub const AND_ID: &'static str = "And";

pub const OR_ID: &'static str = "Or";

pub const NAND_ID: &'static str = "Nand";

/// The gates of the circuit language; each takes exactly two arguments.
#[derive(Debug, Clone, Copy, PartialEq, Eq, Structural)]
pub enum Id {
    And,
    Or,
    Nand,
}

/// The printed name of a gate.
pub open spec fn gate_name(id: Id) -> Seq<char> {
    match id {
        Id::And => seq!['A', 'n', 'd'],
        Id::Or => seq!['O', 'r'],
        Id::Nand => seq!['N', 'a', 'n', 'd'],
    }
}

/// The known function called `name` with `num_args` arguments, if any.
pub open spec fn gate_of(name: Seq<char>, num_args: nat) -> Option<Id> {
    if num_args != 2 {
        None
    } else if name == gate_name(Id::And) {
        Some(Id::And)
    } else if name == gate_name(Id::Or) {
        Some(Id::Or)
    } else if name == gate_name(Id::Nand) {
        Some(Id::Nand)
    } else {
        None
    }
}

/// Whether `a` and `b` hold the same characters.
fn same_text(a: &str, b: &str) -> (r: bool)
    ensures
        r == (a@ == b@),
{
    let n = a.unicode_len();
    if n != b.unicode_len() {
        return false;
    }
    let mut i: usize = 0;
    while i < n
        invariant
            n == a@.len(),
            n == b@.len(),
            i <= n,
            a@.take(i as int) == b@.take(i as int),
        decreases n - i,
    {
        if a.get_char(i) != b.get_char(i) {
            return false;
        }
        assert(a@.take(i + 1) =~= a@.take(i as int).push(a@[i as int]));
        assert(b@.take(i + 1) =~= b@.take(i as int).push(b@[i as int]));
        i += 1;
    }
    assert(a@ =~= a@.take(n as int));
    assert(b@ =~= b@.take(n as int));
    true
}

impl Id {
    /// Looks a gate up by its name and its number of arguments.
    pub fn parse(id: &str, num_args: usize) -> (r: Option<Self>)
        ensures
            r == gate_of(id@, num_args as nat),
    {
        proof {
            reveal_strlit("And");
            reveal_strlit("Or");
            reveal_strlit("Nand");
            assert(AND_ID@ =~= gate_name(Id::And));
            assert(OR_ID@ =~= gate_name(Id::Or));
            assert(NAND_ID@ =~= gate_name(Id::Nand));
        }
        if num_args != 2 {
            None
        } else if same_text(id, AND_ID) {
            Some(Self::And)
        } else if same_text(id, OR_ID) {
            Some(Self::Or)
        } else if same_text(id, NAND_ID) {
            Some(Self::Nand)
        } else {
            None
        }
    }

    /// The printed name, as `And`.
    pub fn to_string(&self) -> (r: String)
        ensures
            r@ == gate_name(*self),
    {
        proof {
            reveal_strlit("And");
            reveal_strlit("Or");
            reveal_strlit("Nand");
        }
        match self {
            Self::And => String::from_str(AND_ID),
            Self::Or => String::from_str(OR_ID),
            Self::Nand => String::from_str(NAND_ID),
        }
    }
}

/// Why a token sequence is not a circuit expression.
#[derive(Debug, Clone, PartialEq, Eq)]
pub enum ParseError {
    /// The next token, or the end of input (`None`), does not fit the grammar
    /// at this point.
    UnexpectedToken(Option<Token>),
    /// A function name that is not known, or a known function applied to a
    /// number of arguments other than its arity.
    InvalidFunctionId(String),
    /// A token was taken from a stream that had ended.
    UnexpectedEnd,
}

/// The mathematical value of a `ParseError`.
pub enum SpecError {
    UnexpectedToken(Option<SpecToken>),
    InvalidFunctionId(Seq<char>),
    UnexpectedEnd,
}

impl View for ParseError {
    type V = SpecError;

    open spec fn view(&self) -> SpecError {
        match self {
            ParseError::UnexpectedToken(Some(t)) => SpecError::UnexpectedToken(Some(t@)),
            ParseError::UnexpectedToken(None) => SpecError::UnexpectedToken(None),
            ParseError::InvalidFunctionId(id) => SpecError::InvalidFunctionId(id@),
            ParseError::UnexpectedEnd => SpecError::UnexpectedEnd,
        }
    }
}

/// The message shown to a user for an error.
pub open spec fn error_message(e: SpecError) -> Seq<char> {
    match e {
        SpecError::UnexpectedToken(Some(t)) => "unexpected token "@ + describe(t),
        SpecError::UnexpectedToken(None) => "unexpected missing token"@,
        SpecError::InvalidFunctionId(id) => "unknown function id '"@ + id + "'"@,
        SpecError::UnexpectedEnd => "unexpected end of input"@,
    }
}

impl ParseError {
    /// The message shown to a user, see `error_message`.
    pub fn to_string(&self) -> (r: String)
        ensures
            r@ == error_message(self@),
    {
        match self {
            ParseError::UnexpectedToken(Some(t)) => {
                let mut s = String::from_str("unexpected token ");
                let d = t.to_string();
                s.append(d.as_str());
                s
            },
            ParseError::UnexpectedToken(None) => String::from_str("unexpected missing token"),
            ParseError::InvalidFunctionId(id) => {
                let mut s = String::from_str("unknown function id '");
                s.append(id.as_str());
                s.append("'");
                s
            },
            ParseError::UnexpectedEnd => String::from_str("unexpected end of input"),
        }
    }
}

/// A sequence of tokens read from the front, one token at a time.
pub struct TokenStream {
    tokens: Vec<Token>,
    pos: usize,
}

impl View for TokenStream {
    type V = Seq<SpecToken>;

    /// The tokens not yet read.
    closed spec fn view(&self) -> Seq<SpecToken> {
        token_views(self.tokens@).skip(self.pos as int)
    }
}

impl TokenStream {
    #[verifier::type_invariant]
    spec fn inv(self) -> bool {
        self.pos <= self.tokens.len()
    }

    pub fn new(tokens: Vec<Token>) -> (r: Self)
        ensures
            r@ == token_views(tokens@),
    {
        let r = TokenStream { tokens, pos: 0 };
        assert(r@ =~= token_views(r.tokens@));
        r
    }

    /// The next token, without reading it.
    pub fn peek(&self) -> (r: Option<&Token>)
        ensures
            match r {
                Some(t) => self@.len() > 0 && t@ == self@[0],
                None => self@.len() == 0,
            },
    {
        proof {
            use_type_invariant(self);
        }
        if self.pos < self.tokens.len() {
            Some(&self.tokens[self.pos])
        } else {
            None
        }
    }

    /// Reads the next token.
    pub fn next(&mut self) -> (r: Option<Token>)
        ensures
            match r {
                Some(t) => old(self)@.len() > 0 && t@ == old(self)@[0] && final(self)@
                    == old(self)@.drop_first(),
                None => old(self)@.len() == 0 && final(self)@ == old(self)@,
            },
    {
        proof {
            use_type_invariant(&*self);
        }
        if self.pos < self.tokens.len() {
            let t = self.tokens[self.pos].clone();
            self.pos = self.pos + 1;
            assert(final(self)@ =~= old(self)@.drop_first());
            Some(t)
        } else {
            None
        }
    }
}

/// The error for a token sequence whose first token, or its end, does not fit.
pub open spec fn unexpected(ts: Seq<SpecToken>) -> SpecError {
    SpecError::UnexpectedToken(if ts.len() > 0 { Some(ts[0]) } else { None })
}

/// Outcome of parsing a prefix: the value read and the tokens after it.
pub type Parsed<T> = Result<(T, Seq<SpecToken>), SpecError>;

/// `Func ::= FuncIdent '(' ArgList ')'`, where the name and the number of
/// arguments must form a gate of the table.
pub open spec fn parse_func(ts: Seq<SpecToken>) -> Parsed<SpecTree>
    decreases ts.len(), 0int,
{
    if !(ts.len() > 0 && ts[0] is FuncIdent) {
        Err(unexpected(ts))
    } else if !(ts.len() > 1 && ts[1] is LParen) {
        Err(unexpected(ts.skip(1)))
    } else {
        match parse_args(ts.skip(2), Seq::empty()) {
            Err(e) => Err(e),
            Ok((args, rest)) => if !(rest.len() > 0 && rest[0] is RParen) {
                Err(unexpected(rest))
            } else {
                let name = ts[0]->FuncIdent_0;
                match gate_of(name, args.len()) {
                    Some(id) => Ok((SpecTree::Func(id, args), rest.skip(1))),
                    None => Err(SpecError::InvalidFunctionId(name)),
                }
            },
        }
    }
}

/// `Arg (',' Arg)*`, appending the arguments read to `acc`.
pub open spec fn parse_args(ts: Seq<SpecToken>, acc: Seq<SpecTree>) -> Parsed<Seq<SpecTree>>
    decreases ts.len(), 2int,
{
    match parse_arg(ts) {
        Err(e) => Err(e),
        Ok((a, rest)) => if rest.len() < ts.len() {
            more_args(rest, acc.push(a))
        } else {
            // never taken: an argument always takes at least one token, see
            // `lemma_parse_arg_valid`
            Err(unexpected(rest))
        },
    }
}

/// `(',' Arg)*` after the arguments `acc`.
pub open spec fn more_args(ts: Seq<SpecToken>, acc: Seq<SpecTree>) -> Parsed<Seq<SpecTree>>
    decreases ts.len(), 3int,
{
    if ts.len() > 0 && ts[0] is Delim {
        parse_args(ts.skip(1), acc)
    } else {
        Ok((acc, ts))
    }
}

/// `Arg ::= VarIdent | Func`.
pub open spec fn parse_arg(ts: Seq<SpecToken>) -> Parsed<SpecTree>
    decreases ts.len(), 1int,
{
    if ts.len() > 0 && ts[0] is VarIdent {
        Ok((SpecTree::Var(ts[0]->VarIdent_0), ts.skip(1)))
    } else if ts.len() > 0 && ts[0] is FuncIdent {
        parse_func(ts)
    } else {
        Err(unexpected(ts))
    }
}

/// `Start ::= Func end-of-input`.
pub open spec fn parse_start(ts: Seq<SpecToken>) -> Result<SpecTree, SpecError> {
    match parse_func(ts) {
        Err(e) => Err(e),
        Ok((t, rest)) => if rest.len() == 0 {
            Ok(t)
        } else {
            Err(unexpected(rest))
        },
    }
}

/// Parses a whole circuit expression: one gate call and nothing after it.
pub fn start(lex: &mut TokenStream) -> (r: Result<Node, ParseError>)
    ensures
        match r {
            Ok(n) => parse_start(old(lex)@) == Ok::<SpecTree, SpecError>(n@) && n@.wf(),
            Err(e) => parse_start(old(lex)@) == Err::<SpecTree, SpecError>(e@),
        },
{
    let tree = match func(lex) {
        Ok(t) => t,
        Err(e) => return Err(e),
    };
    if lex.peek().is_some() {
        return Err(ParseError::UnexpectedToken(lex.next()));
    }
    Ok(tree)
}

/// The parenthesis token: `)` if `close`, else `(`.
pub open spec fn paren(close: bool) -> SpecToken {
    if close {
        SpecToken::RParen
    } else {
        SpecToken::LParen
    }
}

/// Reads the next token if it is the parenthesis `paren(close)`, else fails
/// on it.
fn expect_paren(lex: &mut TokenStream, close: bool) -> (r: Result<Token, ParseError>)
    ensures
        match r {
            Ok(t) => old(lex)@.len() > 0 && old(lex)@[0] == paren(close) && t@ == paren(close)
                && final(lex)@ == old(lex)@.drop_first(),
            Err(e) => !(old(lex)@.len() > 0 && old(lex)@[0] == paren(close)) && e@ == unexpected(
                old(lex)@,
            ),
        },
{
    let fits = match lex.peek() {
        Some(Token::LParen) => !close,
        Some(Token::RParen) => close,
        _ => false,
    };
    if fits {
        consume(lex)
    } else {
        Err(ParseError::UnexpectedToken(lex.next()))
    }
}

/// `Func ::= FuncIdent '(' ArgList ')'`.
pub fn func(lex: &mut TokenStream) -> (r: Result<Node, ParseError>)
    ensures
        match r {
            Ok(n) => parse_func(old(lex)@) == Parsed::Ok((n@, final(lex)@)) && n@.wf()
                && final(lex)@.len() < old(lex)@.len(),
            Err(e) => parse_func(old(lex)@) == Parsed::<SpecTree>::Err(e@),
        },
    decreases old(lex)@.len(), 0int,
{
    let ghost ts = lex@;
    let token = match lex.peek() {
        Some(Token::FuncIdent(_)) => consume(lex),
        _ => Err(ParseError::UnexpectedToken(lex.next())),
    };
    let token = match token {
        Ok(t) => t,
        Err(e) => return Err(e),
    };
    if let Err(e) = expect_paren(lex, false) {
        return Err(e);
    }
    assert(lex@ =~= ts.skip(2));
    let args = match arg_list(lex) {
        Ok(a) => a,
        Err(e) => return Err(e),
    };
    let ghost rest = lex@;
    if let Err(e) = expect_paren(lex, true) {
        return Err(e);
    }
    let name = token.into_text();
    proof {
        lemma_views(args@);
    }
    match Id::parse(name.as_str(), args.len()) {
        Some(id) => Ok(Node::Func { id, args }),
        None => Err(ParseError::InvalidFunctionId(name)),
    }
}

/// `ArgList ::= Arg (',' Arg)*`.
pub fn arg_list(lex: &mut TokenStream) -> (r: Result<Vec<Node>, ParseError>)
    ensures
        match r {
            Ok(v) => parse_args(old(lex)@, Seq::empty()) == Parsed::Ok((views(v@), final(lex)@))
                && (forall|i: int| 0 <= i < v.len() ==> (#[trigger] v@[i])@.wf())
                && final(lex)@.len() < old(lex)@.len(),
            Err(e) => parse_args(old(lex)@, Seq::empty()) == Parsed::<Seq<SpecTree>>::Err(e@),
        },
    decreases old(lex)@.len(), 2int,
{
    let ghost ts = lex@;
    let mut args: Vec<Node> = Vec::new();
    let first = match arg(lex) {
        Ok(a) => a,
        Err(e) => return Err(e),
    };
    args.push(first);
    proof {
        lemma_views(args@);
        assert(views(args@) =~= Seq::<SpecTree>::empty().push(first@));
    }
    loop
        invariant
            ts == old(lex)@,
            parse_args(ts, Seq::empty()) == more_args(lex@, views(args@)),
            forall|i: int| 0 <= i < args.len() ==> (#[trigger] args@[i])@.wf(),
            lex@.len() < ts.len(),
        decreases lex@.len(),
    {
        let delim = match lex.peek() {
            Some(Token::Delim) => true,
            _ => false,
        };
        if !delim {
            return Ok(args);
        }
        let ghost before = lex@;
        let _ = consume(lex);
        let a = match arg(lex) {
            Ok(a) => a,
            Err(e) => return Err(e),
        };
        let ghost prev = args@;
        proof {
            lemma_views(prev);
        }
        args.push(a);
        proof {
            lemma_views(args@);
            assert(views(args@) =~= views(prev).push(a@));
        }
    }
}

/// `Arg ::= VarIdent | Func`.
fn arg(lex: &mut TokenStream) -> (r: Result<Node, ParseError>)
    ensures
        match r {
            Ok(n) => parse_arg(old(lex)@) == Parsed::Ok((n@, final(lex)@)) && n@.wf()
                && final(lex)@.len() < old(lex)@.len(),
            Err(e) => parse_arg(old(lex)@) == Parsed::<SpecTree>::Err(e@),
        },
    decreases old(lex)@.len(), 1int,
{
    let kind: u8 = match lex.peek() {
        Some(Token::VarIdent(_)) => 0,
        Some(Token::FuncIdent(_)) => 1,
        _ => 2,
    };
    if kind == 0 {
        let token = match consume(lex) {
            Ok(t) => t,
            Err(e) => return Err(e),
        };
        Ok(Node::Var { id: token.into_text() })
    } else if kind == 1 {
        func(lex)
    } else {
        Err(ParseError::UnexpectedToken(lex.next()))
    }
}

/// Reads the next token; fails if the stream has ended.
pub fn consume(lex: &mut TokenStream) -> (r: Result<Token, ParseError>)
    ensures
        match r {
            Ok(t) => old(lex)@.len() > 0 && t@ == old(lex)@[0] && final(lex)@
                == old(lex)@.drop_first(),
            Err(e) => old(lex)@.len() == 0 && e == ParseError::UnexpectedEnd && final(lex)@
                == old(lex)@,
        },
{
    match lex.next() {
        Some(t) => Ok(t),
        None => Err(ParseError::UnexpectedEnd),
    }
}


/// The tokens of the canonical text of a tree.
pub open spec fn tokens_of(t: SpecTree) -> Seq<SpecToken>
    decreases t,
{
    match t {
        SpecTree::Func(id, args) => seq![SpecToken::FuncIdent(gate_name(id)), SpecToken::LParen]
            + args_tokens(args) + seq![SpecToken::RParen],
        SpecTree::Var(x) => seq![SpecToken::VarIdent(x)],
    }
}

/// The tokens of `args`, separated by `Delim`.
pub open spec fn args_tokens(args: Seq<SpecTree>) -> Seq<SpecToken>
    decreases args,
{
    if args.len() == 0 {
        Seq::empty()
    } else if args.len() == 1 {
        tokens_of(args[0])
    } else {
        args_tokens(args.subrange(0, args.len() - 1)) + seq![SpecToken::Delim] + tokens_of(
            args[args.len() - 1],
        )
    }
}

/// Each known function is found under its own name.
pub proof fn lemma_gate_of_name(id: Id)
    ensures
        gate_of(gate_name(id), 2) == Some(id),
{
    assert(gate_name(Id::Nand).len() != gate_name(Id::And).len());
    assert(gate_name(Id::Nand).len() != gate_name(Id::Or).len());
    assert(gate_name(Id::Or).len() != gate_name(Id::And).len());
}

/// The tokens of a tree parse back to the tree, whatever follows them.
pub proof fn lemma_parse_tokens(t: SpecTree, rest: Seq<SpecToken>)
    requires
        t.wf(),
    ensures
        parse_arg(tokens_of(t) + rest) == Parsed::Ok((t, rest)),
        t is Func ==> parse_func(tokens_of(t) + rest) == Parsed::Ok((t, rest)),
    decreases t,
{
    let ts = tokens_of(t) + rest;
    match t {
        SpecTree::Var(x) => {
            assert(ts.skip(1) =~= rest);
        },
        SpecTree::Func(id, args) => {
            let a = args[0];
            let b = args[1];
            assert(args.subrange(0, 1) =~= seq![a]);
            assert(args_tokens(seq![a]) == tokens_of(a));
            assert(args_tokens(args) == tokens_of(a) + seq![SpecToken::Delim] + tokens_of(b));
            let r2 = seq![SpecToken::RParen] + rest;
            let r1 = seq![SpecToken::Delim] + tokens_of(b) + r2;
            assert(ts.skip(2) =~= tokens_of(a) + r1);
            assert(r1.skip(1) =~= tokens_of(b) + r2);
            assert(r2.skip(1) =~= rest);
            lemma_parse_tokens(a, r1);
            lemma_parse_tokens(b, r2);
            lemma_tokens_nonempty(a);
            lemma_tokens_nonempty(b);
            lemma_gate_of_name(id);
            assert(Seq::<SpecTree>::empty().push(a).push(b) =~= args);
            assert(more_args(r2, seq![a, b]) == Parsed::Ok((seq![a, b], r2)));
            assert(parse_args(r1.skip(1), seq![a]) == more_args(r2, seq![a].push(b)));
            assert(seq![a].push(b) =~= seq![a, b]);
            assert(Seq::<SpecTree>::empty().push(a) =~= seq![a]);
            assert(parse_args(ts.skip(2), Seq::empty()) == more_args(r1, seq![a]));
            assert(ts[0] == SpecToken::FuncIdent(gate_name(id)));
        },
    }
}

proof fn lemma_tokens_nonempty(t: SpecTree)
    ensures
        tokens_of(t).len() > 0,
{
}

/// `rest` is what is left of `ts` after a prefix.
pub open spec fn is_suffix(rest: Seq<SpecToken>, ts: Seq<SpecToken>) -> bool {
    rest.len() <= ts.len() && rest == ts.skip(ts.len() - rest.len())
}

/// Every tree of `s` is valid.
pub open spec fn all_valid(s: Seq<SpecTree>) -> bool {
    forall|i: int| 0 <= i < s.len() ==> #[trigger] s[i].valid()
}

proof fn lemma_suffix_trans(ts: Seq<SpecToken>, r1: Seq<SpecToken>, r2: Seq<SpecToken>)
    requires
        is_suffix(r1, ts),
        is_suffix(r2, r1),
    ensures
        is_suffix(r2, ts),
        var_names_valid(ts) ==> var_names_valid(r2),
{
    assert(r2 =~= ts.skip(ts.len() - r2.len()));
    if var_names_valid(ts) {
        assert forall|i: int| 0 <= i < r2.len() && #[trigger] r2[i] is VarIdent implies is_var_name(
            r2[i]->VarIdent_0,
        ) by {
            assert(r2[i] == ts[i + ts.len() - r2.len()]);
        }
    }
}

proof fn lemma_skip_suffix(ts: Seq<SpecToken>, k: int)
    requires
        0 <= k <= ts.len(),
    ensures
        is_suffix(ts.skip(k), ts),
        var_names_valid(ts) ==> var_names_valid(ts.skip(k)),
{
    let r = ts.skip(k);
    assert(r =~= ts.skip(ts.len() - r.len()));
    if var_names_valid(ts) {
        assert forall|i: int| 0 <= i < r.len() && #[trigger] r[i] is VarIdent implies is_var_name(
            r[i]->VarIdent_0,
        ) by {
            assert(r[i] == ts[i + k]);
        }
    }
}

/// A parsed gate call is a gate with a suffix of the input left over, and
/// is valid when the variable tokens of the input are.
pub proof fn lemma_parse_func_valid(ts: Seq<SpecToken>)
    ensures
        parse_func(ts) is Ok ==> {
            let (t, rest) = parse_func(ts)->Ok_0;
            &&& t is Func
            &&& rest.len() < ts.len()
            &&& is_suffix(rest, ts)
            &&& var_names_valid(ts) ==> t.valid()
        },
    decreases ts.len(), 0int,
{
    if ts.len() > 1 && ts[0] is FuncIdent && ts[1] is LParen {
        let inner = ts.skip(2);
        lemma_skip_suffix(ts, 2);
        lemma_parse_args_valid(inner, Seq::empty());
        if parse_args(inner, Seq::empty()) is Ok {
            let (args, rest) = parse_args(inner, Seq::empty())->Ok_0;
            if rest.len() > 0 && rest[0] is RParen {
                lemma_suffix_trans(ts, inner, rest);
                lemma_skip_suffix(rest, 1);
                lemma_suffix_trans(ts, rest, rest.skip(1));
                if args.len() == 2 && var_names_valid(ts) {
                    assert(args[0].valid());
                    assert(args[1].valid());
                }
            }
        }
    }
}

proof fn lemma_parse_args_valid(ts: Seq<SpecToken>, acc: Seq<SpecTree>)
    ensures
        parse_args(ts, acc) is Ok ==> {
            let (all, rest) = parse_args(ts, acc)->Ok_0;
            &&& rest.len() < ts.len()
            &&& is_suffix(rest, ts)
            &&& var_names_valid(ts) && all_valid(acc) ==> all_valid(all)
        },
    decreases ts.len(), 2int,
{
    lemma_parse_arg_valid(ts);
    if parse_arg(ts) is Ok {
        let (a, rest) = parse_arg(ts)->Ok_0;
        lemma_more_args_valid(rest, acc.push(a));
        if more_args(rest, acc.push(a)) is Ok {
            let rest2 = more_args(rest, acc.push(a))->Ok_0.1;
            lemma_suffix_trans(ts, rest, rest2);
        }
        if var_names_valid(ts) && all_valid(acc) {
            assert(all_valid(acc.push(a)));
        }
    }
}

proof fn lemma_more_args_valid(ts: Seq<SpecToken>, acc: Seq<SpecTree>)
    ensures
        more_args(ts, acc) is Ok ==> {
            let (all, rest) = more_args(ts, acc)->Ok_0;
            &&& is_suffix(rest, ts)
            &&& var_names_valid(ts) && all_valid(acc) ==> all_valid(all)
        },
    decreases ts.len(), 3int,
{
    if ts.len() > 0 && ts[0] is Delim {
        lemma_skip_suffix(ts, 1);
        lemma_parse_args_valid(ts.skip(1), acc);
        if parse_args(ts.skip(1), acc) is Ok {
            let rest = parse_args(ts.skip(1), acc)->Ok_0.1;
            lemma_suffix_trans(ts, ts.skip(1), rest);
        }
    } else {
        assert(ts.skip(0) =~= ts);
    }
}

proof fn lemma_parse_arg_valid(ts: Seq<SpecToken>)
    ensures
        parse_arg(ts) is Ok ==> {
            let (t, rest) = parse_arg(ts)->Ok_0;
            &&& rest.len() < ts.len()
            &&& is_suffix(rest, ts)
            &&& var_names_valid(ts) ==> t.valid()
        },
    decreases ts.len(), 1int,
{
    if ts.len() > 0 && ts[0] is VarIdent {
        lemma_skip_suffix(ts, 1);
    } else if ts.len() > 0 && ts[0] is FuncIdent {
        lemma_parse_func_valid(ts);
    }
}

} // verus!
