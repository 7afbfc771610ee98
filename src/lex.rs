use vstd::prelude::*;
use vstd::string::StringExecFns;

verus! {

/// A lexical unit of the circuit language.
#[derive(Debug, PartialEq, Eq)]
pub enum Token {
    LParen,
    RParen,
    Delim,
    /// A gate name: a capital letter followed by at least one more letter.
    FuncIdent(String),
    /// A variable name: a lowercase letter followed by lowercase letters or
    /// underscores.
    VarIdent(String),
    /// Marks the first character sequence that matches no token; nothing is
    /// scanned after it.
    LexError,
}

/// The mathematical value of a token: names are character sequences.
pub enum SpecToken {
    LParen,
    RParen,
    Delim,
    FuncIdent(Seq<char>),
    VarIdent(Seq<char>),
    LexError,
}

impl View for Token {
    type V = SpecToken;

    open spec fn view(&self) -> SpecToken {
        match self {
            Token::LParen => SpecToken::LParen,
            Token::RParen => SpecToken::RParen,
            Token::Delim => SpecToken::Delim,
            Token::FuncIdent(id) => SpecToken::FuncIdent(id@),
            Token::VarIdent(id) => SpecToken::VarIdent(id@),
            Token::LexError => SpecToken::LexError,
        }
    }
}

/// The text a token stands for: the name of an identifier, the kind of any
/// other token.
pub open spec fn token_text(t: SpecToken) -> Seq<char> {
    match t {
        SpecToken::LParen => "LParen"@,
        SpecToken::RParen => "RParen"@,
        SpecToken::Delim => "Delim"@,
        SpecToken::FuncIdent(id) => id,
        SpecToken::VarIdent(id) => id,
        SpecToken::LexError => "LexError"@,
    }
}

/// How a token is shown to a user: `'('`, `function 'And'`, `variable 'a'`.
pub open spec fn describe(t: SpecToken) -> Seq<char> {
    match t {
        SpecToken::LParen => "'('"@,
        SpecToken::RParen => "')'"@,
        SpecToken::Delim => "','"@,
        SpecToken::FuncIdent(id) => "function '"@ + id + "'"@,
        SpecToken::VarIdent(id) => "variable '"@ + id + "'"@,
        SpecToken::LexError => "lexical error"@,
    }
}

impl Clone for Token {
    fn clone(&self) -> (r: Token)
        ensures
            r == *self,
    {
        match self {
            Token::LParen => Token::LParen,
            Token::RParen => Token::RParen,
            Token::Delim => Token::Delim,
            Token::FuncIdent(id) => Token::FuncIdent(id.clone()),
            Token::VarIdent(id) => Token::VarIdent(id.clone()),
            Token::LexError => Token::LexError,
        }
    }
}

impl Token {
    /// The text the token stands for, see `token_text`.
    pub fn into_text(self) -> (r: String)
        ensures
            r@ == token_text(self@),
    {
        match self {
            Token::FuncIdent(id) | Token::VarIdent(id) => id,
            Token::LParen => String::from_str("LParen"),
            Token::RParen => String::from_str("RParen"),
            Token::Delim => String::from_str("Delim"),
            Token::LexError => String::from_str("LexError"),
        }
    }

    /// The description of the token shown in error messages.
    pub fn to_string(&self) -> (r: String)
        ensures
            r@ == describe(self@),
    {
        match self {
            Token::LParen => String::from_str("'('"),
            Token::RParen => String::from_str("')'"),
            Token::Delim => String::from_str("','"),
            Token::FuncIdent(id) => {
                let mut s = String::from_str("function '");
                s.append(id.as_str());
                s.append("'");
                s
            },
            Token::VarIdent(id) => {
                let mut s = String::from_str("variable '");
                s.append(id.as_str());
                s.append("'");
                s
            },
            Token::LexError => String::from_str("lexical error"),
        }
    }
}

pub open spec fn is_space(c: char) -> bool {
    c == ' ' || c == '\t' || c == '\n' || c == '\r' || c == '\x0C'
}

pub open spec fn is_upper(c: char) -> bool {
    'A' <= c <= 'Z'
}

pub open spec fn is_lower(c: char) -> bool {
    'a' <= c <= 'z'
}

pub open spec fn is_letter(c: char) -> bool {
    is_upper(c) || is_lower(c)
}

/// Characters that may follow the first letter of a variable name.
pub open spec fn is_var_char(c: char) -> bool {
    is_lower(c) || c == '_'
}

/// Length of the longest prefix of `s` made of letters.
pub open spec fn letter_run(s: Seq<char>) -> nat
    decreases s.len(),
{
    if s.len() > 0 && is_letter(s[0]) {
        1 + letter_run(s.drop_first())
    } else {
        0
    }
}

/// Length of the longest prefix of `s` made of lowercase letters and underscores.
pub open spec fn var_run(s: Seq<char>) -> nat
    decreases s.len(),
{
    if s.len() > 0 && is_var_char(s[0]) {
        1 + var_run(s.drop_first())
    } else {
        0
    }
}

pub proof fn lemma_letter_run_bound(s: Seq<char>)
    ensures
        letter_run(s) <= s.len(),
    decreases s.len(),
{
    if s.len() > 0 && is_letter(s[0]) {
        lemma_letter_run_bound(s.drop_first());
    }
}

pub proof fn lemma_var_run_bound(s: Seq<char>)
    ensures
        var_run(s) <= s.len(),
    decreases s.len(),
{
    if s.len() > 0 && is_var_char(s[0]) {
        lemma_var_run_bound(s.drop_first());
    }
}

/// Length of the function name at the start of `s`, or 0 if `s` does not start
/// with one.
pub open spec fn func_ident_len(s: Seq<char>) -> nat {
    if s.len() > 0 && is_upper(s[0]) && letter_run(s.drop_first()) > 0 {
        1 + letter_run(s.drop_first())
    } else {
        0
    }
}

/// Length of the variable name at the start of `s`, or 0 if `s` does not
/// start with one.
pub open spec fn var_ident_len(s: Seq<char>) -> nat {
    if s.len() > 0 && is_lower(s[0]) {
        1 + var_run(s.drop_first())
    } else {
        0
    }
}

/// The tokens of `s`, longest match first, whitespace skipped. Scanning ends
/// with `LexError` at the first character that starts no token.
pub open spec fn lex(s: Seq<char>) -> Seq<SpecToken>
    decreases s.len(),
{
    if s.len() == 0 {
        Seq::empty()
    } else {
        let c = s[0];
        if is_space(c) {
            lex(s.drop_first())
        } else if c == '(' {
            seq![SpecToken::LParen] + lex(s.drop_first())
        } else if c == ')' {
            seq![SpecToken::RParen] + lex(s.drop_first())
        } else if c == ',' {
            seq![SpecToken::Delim] + lex(s.drop_first())
        } else if func_ident_len(s) > 0 {
            let n = func_ident_len(s) as int;
            proof {
                lemma_letter_run_bound(s.drop_first());
            }
            seq![SpecToken::FuncIdent(s.take(n))] + lex(s.skip(n))
        } else if var_ident_len(s) > 0 {
            let n = var_ident_len(s) as int;
            proof {
                lemma_var_run_bound(s.drop_first());
            }
            seq![SpecToken::VarIdent(s.take(n))] + lex(s.skip(n))
        } else {
            seq![SpecToken::LexError]
        }
    }
}


fn chars_of(input: &str) -> (r: Vec<char>)
    ensures
        r@ == input@,
{
    let mut v: Vec<char> = Vec::new();
    for c in it: input.chars()
        invariant
            v@ == it.seq().take(it.index() as int),
    {
        v.push(c);
    }
    assert(v@ =~= input@);
    v
}


/// Relies on `String::push`: appends one character.
#[verifier::external_body]
fn push_char(s: &mut String, c: char)
    ensures
        final(s)@ == old(s)@.push(c),
{
    s.push(c);
}

/// The values of a sequence of tokens.
pub open spec fn token_views(s: Seq<Token>) -> Seq<SpecToken> {
    s.map_values(|t: Token| t@)
}

fn is_space_char(c: char) -> (r: bool)
    ensures
        r == is_space(c),
{
    c == ' ' || c == '\t' || c == '\n' || c == '\r' || c == '\x0C'
}

fn is_upper_char(c: char) -> (r: bool)
    ensures
        r == is_upper(c),
{
    'A' <= c && c <= 'Z'
}

fn is_lower_char(c: char) -> (r: bool)
    ensures
        r == is_lower(c),
{
    'a' <= c && c <= 'z'
}

fn is_letter_char(c: char) -> (r: bool)
    ensures
        r == is_letter(c),
{
    is_upper_char(c) || is_lower_char(c)
}

fn is_var_char_exec(c: char) -> (r: bool)
    ensures
        r == is_var_char(c),
{
    is_lower_char(c) || c == '_'
}

/// End of the run of letters in `chars` that starts at `from`.
fn letter_run_end(chars: &Vec<char>, from: usize) -> (j: usize)
    requires
        from <= chars.len(),
    ensures
        from <= j <= chars.len(),
        j - from == letter_run(chars@.skip(from as int)),
{
    let mut j = from;
    while j < chars.len() && is_letter_char(chars[j])
        invariant
            from <= j <= chars.len(),
            letter_run(chars@.skip(from as int)) == (j - from) + letter_run(chars@.skip(j as int)),
        decreases chars.len() - j,
    {
        assert(chars@.skip(j as int).drop_first() =~= chars@.skip(j + 1));
        j += 1;
    }
    j
}

/// End of the run of lowercase letters and underscores in `chars` that
/// starts at `from`.
fn var_run_end(chars: &Vec<char>, from: usize) -> (j: usize)
    requires
        from <= chars.len(),
    ensures
        from <= j <= chars.len(),
        j - from == var_run(chars@.skip(from as int)),
{
    let mut j = from;
    while j < chars.len() && is_var_char_exec(chars[j])
        invariant
            from <= j <= chars.len(),
            var_run(chars@.skip(from as int)) == (j - from) + var_run(chars@.skip(j as int)),
        decreases chars.len() - j,
    {
        assert(chars@.skip(j as int).drop_first() =~= chars@.skip(j + 1));
        j += 1;
    }
    j
}

/// The characters `chars[from..to]` as a string.
fn text_range(chars: &Vec<char>, from: usize, to: usize) -> (r: String)
    requires
        from <= to <= chars.len(),
    ensures
        r@ == chars@.subrange(from as int, to as int),
{
    let mut s = String::new();
    let mut k = from;
    while k < to
        invariant
            from <= k <= to <= chars.len(),
            s@ == chars@.subrange(from as int, k as int),
        decreases to - k,
    {
        push_char(&mut s, chars[k]);
        assert(s@ =~= chars@.subrange(from as int, k + 1));
        k += 1;
    }
    s
}

/// Splits `input` into tokens, see `lex`.
pub fn tokenize(input: &str) -> (r: Vec<Token>)
    ensures
        token_views(r@) == lex(input@),
{
    let chars = chars_of(input);
    let ghost s = chars@;
    let n = chars.len();
    let mut toks: Vec<Token> = Vec::new();
    let mut i: usize = 0;
    assert(s.skip(0) =~= s);
    assert(token_views(toks@) + lex(s) =~= lex(s));
    while i < n
        invariant
            s == chars@,
            s == input@,
            n == s.len(),
            i <= n,
            lex(s) == token_views(toks@) + lex(s.skip(i as int)),
        decreases n - i,
    {
        let ghost rest = s.skip(i as int);
        let ghost prev = toks@;
        assert(rest.drop_first() =~= s.skip(i + 1));
        assert(rest[0] == chars[i as int]);
        let c = chars[i];
        if is_space_char(c) {
            i += 1;
        } else if c == '(' || c == ')' || c == ',' {
            let t = if c == '(' {
                Token::LParen
            } else if c == ')' {
                Token::RParen
            } else {
                Token::Delim
            };
            toks.push(t);
            assert(token_views(toks@) =~= token_views(prev).push(t@));
            assert(lex(rest) == seq![t@] + lex(s.skip(i + 1)));
            i += 1;
        } else if is_upper_char(c) && i + 1 < n && is_letter_char(chars[i + 1]) {
            let j = letter_run_end(&chars, i + 1);
            assert(rest.take(j - i) =~= s.subrange(i as int, j as int));
            assert(rest.skip(j - i) =~= s.skip(j as int));
            let t = Token::FuncIdent(text_range(&chars, i, j));
            toks.push(t);
            assert(token_views(toks@) =~= token_views(prev).push(t@));
            i = j;
        } else if is_lower_char(c) {
            let j = var_run_end(&chars, i + 1);
            assert(rest.take(j - i) =~= s.subrange(i as int, j as int));
            assert(rest.skip(j - i) =~= s.skip(j as int));
            let t = Token::VarIdent(text_range(&chars, i, j));
            toks.push(t);
            assert(token_views(toks@) =~= token_views(prev).push(t@));
            i = j;
        } else {
            if is_upper_char(c) && i + 1 < n {
                assert(rest.drop_first()[0] == chars[i + 1]);
            }
            toks.push(Token::LexError);
            assert(token_views(toks@) =~= token_views(prev).push(SpecToken::LexError));
            assert(lex(s) =~= token_views(toks@));
            return toks;
        }
    }
    assert(s.skip(n as int) =~= Seq::<char>::empty());
    assert(lex(s) =~= token_views(toks@));
    toks
}


/// A variable name: a lowercase letter followed by lowercase letters and
/// underscores.
pub open spec fn is_var_name(x: Seq<char>) -> bool {
    &&& x.len() > 0
    &&& is_lower(x[0])
    &&& forall|i: int| 1 <= i < x.len() ==> is_var_char(#[trigger] x[i])
}

/// Whether `c` starts no token: scanning fails on it.
pub open spec fn starts_no_token(c: char) -> bool {
    !is_space(c) && c != '(' && c != ')' && c != ',' && !is_letter(c)
}

proof fn lemma_var_run_append(a: Seq<char>, b: Seq<char>)
    requires
        forall|i: int| 0 <= i < a.len() ==> is_var_char(#[trigger] a[i]),
        b.len() == 0 || !is_var_char(b[0]),
    ensures
        var_run(a + b) == a.len(),
    decreases a.len(),
{
    if a.len() == 0 {
        assert(a + b =~= b);
    } else {
        assert((a + b).drop_first() =~= a.drop_first() + b);
        assert forall|i: int| 0 <= i < a.drop_first().len() implies is_var_char(
            #[trigger] a.drop_first()[i],
        ) by {
            assert(a.drop_first()[i] == a[i + 1]);
        }
        lemma_var_run_append(a.drop_first(), b);
    }
}

proof fn lemma_letter_run_append(a: Seq<char>, b: Seq<char>)
    requires
        forall|i: int| 0 <= i < a.len() ==> is_letter(#[trigger] a[i]),
        b.len() == 0 || !is_letter(b[0]),
    ensures
        letter_run(a + b) == a.len(),
    decreases a.len(),
{
    if a.len() == 0 {
        assert(a + b =~= b);
    } else {
        assert((a + b).drop_first() =~= a.drop_first() + b);
        assert forall|i: int| 0 <= i < a.drop_first().len() implies is_letter(
            #[trigger] a.drop_first()[i],
        ) by {
            assert(a.drop_first()[i] == a[i + 1]);
        }
        lemma_letter_run_append(a.drop_first(), b);
    }
}

/// A variable name followed by a character that cannot extend it is one
/// token.
pub proof fn lemma_lex_var_name(x: Seq<char>, r: Seq<char>)
    requires
        is_var_name(x),
        r.len() == 0 || !is_var_char(r[0]),
    ensures
        lex(x + r) == seq![SpecToken::VarIdent(x)] + lex(r),
{
    let s = x + r;
    assert(s[0] == x[0]);
    assert forall|i: int| 0 <= i < x.drop_first().len() implies is_var_char(
        #[trigger] x.drop_first()[i],
    ) by {
        assert(x.drop_first()[i] == x[i + 1]);
    }
    lemma_var_run_append(x.drop_first(), r);
    assert(s.drop_first() =~= x.drop_first() + r);
    assert(s.take(x.len() as int) =~= x);
    assert(s.skip(x.len() as int) =~= r);
}

/// A name of two or more letters, starting with a capital, followed by a
/// character that is not a letter is one token.
pub proof fn lemma_lex_func_name(x: Seq<char>, r: Seq<char>)
    requires
        x.len() >= 2,
        is_upper(x[0]),
        forall|i: int| 0 <= i < x.len() ==> is_letter(#[trigger] x[i]),
        r.len() == 0 || !is_letter(r[0]),
    ensures
        lex(x + r) == seq![SpecToken::FuncIdent(x)] + lex(r),
{
    let s = x + r;
    assert(s[0] == x[0]);
    assert forall|i: int| 0 <= i < x.drop_first().len() implies is_letter(
        #[trigger] x.drop_first()[i],
    ) by {
        assert(x.drop_first()[i] == x[i + 1]);
    }
    lemma_letter_run_append(x.drop_first(), r);
    assert(s.drop_first() =~= x.drop_first() + r);
    assert(s.take(x.len() as int) =~= x);
    assert(s.skip(x.len() as int) =~= r);
}

/// One punctuation or whitespace character in front of `r`.
pub proof fn lemma_lex_char(c: char, r: Seq<char>)
    ensures
        c == '(' ==> lex(seq![c] + r) == seq![SpecToken::LParen] + lex(r),
        c == ')' ==> lex(seq![c] + r) == seq![SpecToken::RParen] + lex(r),
        c == ',' ==> lex(seq![c] + r) == seq![SpecToken::Delim] + lex(r),
        is_space(c) ==> lex(seq![c] + r) == lex(r),
        starts_no_token(c) ==> lex(seq![c] + r) == seq![SpecToken::LexError],
{
    assert((seq![c] + r).drop_first() =~= r);
    assert((seq![c] + r)[0] == c);
}

/// Every variable token has a name of the variable form.
pub open spec fn var_names_valid(ts: Seq<SpecToken>) -> bool {
    forall|i: int|
        0 <= i < ts.len() && #[trigger] ts[i] is VarIdent ==> is_var_name(ts[i]->VarIdent_0)
}

proof fn lemma_var_run_chars(s: Seq<char>)
    ensures
        forall|j: int| 0 <= j < var_run(s) ==> is_var_char(#[trigger] s[j]),
    decreases s.len(),
{
    if s.len() > 0 && is_var_char(s[0]) {
        lemma_var_run_chars(s.drop_first());
        lemma_var_run_bound(s);
        assert forall|j: int| 0 <= j < var_run(s) implies is_var_char(#[trigger] s[j]) by {
            if j > 0 {
                assert(s[j] == s.drop_first()[j - 1]);
            }
        }
    }
}

/// Scanning gives variable tokens only for names of the variable form.
pub proof fn lemma_lex_var_names(s: Seq<char>)
    ensures
        var_names_valid(lex(s)),
    decreases s.len(),
{
    if s.len() > 0 {
        let c = s[0];
        if is_space(c) || c == '(' || c == ')' || c == ',' {
            lemma_lex_var_names(s.drop_first());
        } else if func_ident_len(s) > 0 {
            lemma_letter_run_bound(s.drop_first());
            lemma_lex_var_names(s.skip(func_ident_len(s) as int));
        } else if var_ident_len(s) > 0 {
            let n = var_ident_len(s) as int;
            lemma_var_run_bound(s.drop_first());
            lemma_var_run_chars(s.drop_first());
            lemma_lex_var_names(s.skip(n));
            let x = s.take(n);
            assert forall|i: int| 1 <= i < x.len() implies is_var_char(#[trigger] x[i]) by {
                assert(x[i] == s.drop_first()[i - 1]);
            }
            assert(is_var_name(x));
        }
        let ts = lex(s);
        assert forall|i: int|
            0 <= i < ts.len() && #[trigger] ts[i] is VarIdent implies is_var_name(
            ts[i]->VarIdent_0,
        ) by {
            if i > 0 && !(is_space(c)) {
                assert(ts[i] == lex(s).subrange(1, ts.len() as int)[i - 1]);
            }
        }
    }
}

} // verus!
