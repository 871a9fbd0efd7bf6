//! From the text of an expression to its tokens.

use vstd::prelude::*;
use crate::error::Error;
use crate::scan::{find_all, piece_texts, regex_matches};
use crate::text::{is_digit, is_digit_char, is_space, is_space_char, same_text, trim, trimmed};

verus! {

/// The operators between two operands, from the loosest to the tightest.
#[derive(Clone, Copy, Debug, PartialEq, Eq, Structural)]
pub enum BinaryOp {
    And,
    Or,
    Eq,
    NotEq,
    Gt,
    Gtoe,
    Lt,
    Ltoe,
    Add,
    Sub,
    Rem,
    Div,
    Mul,
}

/// A token of an expression.
#[derive(Debug, PartialEq)]
pub enum ExprToken {
    /// A bare name.
    VarName(String),
    /// A decimal literal, as it was written.
    Number(String),
    /// The contents of a string literal, `\n` already turned into a line break.
    String(String),
    Bool(bool),
    Null,
    /// A name with `[` right behind it: the start of a vector access.
    VecAccessStart(String),
    OpenParentheses,
    CloseParentheses,
    OpenSBrackets,
    CloseSBrackets,
    Comma,
    Not,
    Operator(BinaryOp),
}

/// The mathematical model of an [`ExprToken`].
pub enum Tok {
    VarName(Seq<char>),
    Number(Seq<char>),
    String(Seq<char>),
    Bool(bool),
    Null,
    VecAccessStart(Seq<char>),
    OpenParentheses,
    CloseParentheses,
    OpenSBrackets,
    CloseSBrackets,
    Comma,
    Not,
    Operator(BinaryOp),
}

impl View for ExprToken {
    type V = Tok;

    open spec fn view(&self) -> Tok {
        match self {
            ExprToken::VarName(s) => Tok::VarName(s@),
            ExprToken::Number(s) => Tok::Number(s@),
            ExprToken::String(s) => Tok::String(s@),
            ExprToken::Bool(b) => Tok::Bool(*b),
            ExprToken::Null => Tok::Null,
            ExprToken::VecAccessStart(s) => Tok::VecAccessStart(s@),
            ExprToken::OpenParentheses => Tok::OpenParentheses,
            ExprToken::CloseParentheses => Tok::CloseParentheses,
            ExprToken::OpenSBrackets => Tok::OpenSBrackets,
            ExprToken::CloseSBrackets => Tok::CloseSBrackets,
            ExprToken::Comma => Tok::Comma,
            ExprToken::Not => Tok::Not,
            ExprToken::Operator(op) => Tok::Operator(*op),
        }
    }
}

impl Clone for ExprToken {
    fn clone(&self) -> (r: ExprToken)
        ensures
            r@ == self@,
    {
        match self {
            ExprToken::VarName(s) => ExprToken::VarName(s.clone()),
            ExprToken::Number(s) => ExprToken::Number(s.clone()),
            ExprToken::String(s) => ExprToken::String(s.clone()),
            ExprToken::Bool(b) => ExprToken::Bool(*b),
            ExprToken::Null => ExprToken::Null,
            ExprToken::VecAccessStart(s) => ExprToken::VecAccessStart(s.clone()),
            ExprToken::OpenParentheses => ExprToken::OpenParentheses,
            ExprToken::CloseParentheses => ExprToken::CloseParentheses,
            ExprToken::OpenSBrackets => ExprToken::OpenSBrackets,
            ExprToken::CloseSBrackets => ExprToken::CloseSBrackets,
            ExprToken::Comma => ExprToken::Comma,
            ExprToken::Not => ExprToken::Not,
            ExprToken::Operator(op) => ExprToken::Operator(*op),
        }
    }
}

/// The models of a sequence of tokens.
pub open spec fn toks(tokens: Seq<ExprToken>) -> Seq<Tok> {
    Seq::new(tokens.len(), |i: int| tokens[i]@)
}

/// The model of a list of tokens or an error.
pub open spec fn toks_result(r: Result<Vec<ExprToken>, Error>) -> Result<Seq<Tok>, Error> {
    match r {
        Ok(tokens) => Ok(toks(tokens@)),
        Err(e) => Err(e),
    }
}

/// The lexical patterns of an expression, tried in this order at each
/// place: a decimal literal, a string literal, a name with or without `[`
/// behind it, the operators of two characters, those of one and the brackets,
/// white space, and last any single character, which is no token.
pub const EXPRESSION_PATTERN: &'static str =
    r#"[0-9]+\.?[0-9]*|"[^"\n]*"|[^\s()\[\]{},*/%+\-<>=!&|"]+\[?|==|!=|<=|>=|&&|\|\||[()\[\],*/%+\-<>!]|\s+|[\s\S]"#;

/// The characters that stand for themselves and so end a name.
pub open spec fn is_reserved(c: char) -> bool {
    c == '(' || c == ')' || c == '[' || c == ']' || c == '{' || c == '}' || c == ',' || c == '*'
        || c == '/' || c == '%' || c == '+' || c == '-' || c == '<' || c == '>' || c == '='
        || c == '!' || c == '&' || c == '|' || c == '"'
}

/// The characters of which names are made.
pub open spec fn is_name_char(c: char) -> bool {
    !is_space(c) && !is_reserved(c)
}

/// Every character of the text may stand in a name.
pub open spec fn all_name(s: Seq<char>) -> bool {
    forall|i: int| 0 <= i < s.len() ==> is_name_char(#[trigger] s[i])
}

/// Where the run of digits that starts at `i` ends.
pub open spec fn digits_end(s: Seq<char>, i: nat) -> nat
    decreases s.len() - i,
{
    if i >= s.len() {
        s.len()
    } else if !is_digit(s[i as int]) {
        i
    } else {
        digits_end(s, i + 1)
    }
}

/// The text is a decimal literal: digits, then perhaps a point and more
/// digits.
pub open spec fn number_shape(s: Seq<char>) -> bool {
    let a = digits_end(s, 0);
    a > 0 && (a == s.len() || (s[a as int] == '.' && digits_end(s, a + 1) == s.len()))
}

/// The text from `i` on with each backslash followed by `n` turned into a
/// line break, behind what is done already.
pub open spec fn unescaped(s: Seq<char>, i: nat, done: Seq<char>) -> Seq<char>
    decreases s.len() - i,
{
    if i >= s.len() {
        done
    } else if s[i as int] == '\\' && i + 1 < s.len() && s[i as int + 1] == 'n' {
        unescaped(s, i + 2, done.push('\n'))
    } else {
        unescaped(s, i + 1, done.push(s[i as int]))
    }
}

/// The token that one character is.
pub open spec fn single(c: char) -> Option<Tok> {
    if c == '(' {
        Some(Tok::OpenParentheses)
    } else if c == ')' {
        Some(Tok::CloseParentheses)
    } else if c == '[' {
        Some(Tok::OpenSBrackets)
    } else if c == ']' {
        Some(Tok::CloseSBrackets)
    } else if c == ',' {
        Some(Tok::Comma)
    } else if c == '!' {
        Some(Tok::Not)
    } else if c == '*' {
        Some(Tok::Operator(BinaryOp::Mul))
    } else if c == '/' {
        Some(Tok::Operator(BinaryOp::Div))
    } else if c == '%' {
        Some(Tok::Operator(BinaryOp::Rem))
    } else if c == '+' {
        Some(Tok::Operator(BinaryOp::Add))
    } else if c == '-' {
        Some(Tok::Operator(BinaryOp::Sub))
    } else if c == '<' {
        Some(Tok::Operator(BinaryOp::Lt))
    } else if c == '>' {
        Some(Tok::Operator(BinaryOp::Gt))
    } else {
        None
    }
}

/// The operator that two characters are.
pub open spec fn double(c: char, d: char) -> Option<Tok> {
    if c == '=' && d == '=' {
        Some(Tok::Operator(BinaryOp::Eq))
    } else if c == '!' && d == '=' {
        Some(Tok::Operator(BinaryOp::NotEq))
    } else if c == '<' && d == '=' {
        Some(Tok::Operator(BinaryOp::Ltoe))
    } else if c == '>' && d == '=' {
        Some(Tok::Operator(BinaryOp::Gtoe))
    } else if c == '&' && d == '&' {
        Some(Tok::Operator(BinaryOp::And))
    } else if c == '|' && d == '|' {
        Some(Tok::Operator(BinaryOp::Or))
    } else {
        None
    }
}

/// The bracket or operator that a text is.
pub open spec fn symbol(s: Seq<char>) -> Option<Tok> {
    if s.len() == 1 {
        single(s[0])
    } else if s.len() == 2 {
        double(s[0], s[1])
    } else {
        None
    }
}

/// The token that a text without white space around it is, if it is one.
pub open spec fn token_of(t: Seq<char>) -> Option<Tok> {
    if symbol(t) is Some {
        symbol(t)
    } else if t == "true"@ {
        Some(Tok::Bool(true))
    } else if t == "false"@ {
        Some(Tok::Bool(false))
    } else if t == "null"@ {
        Some(Tok::Null)
    } else if number_shape(t) {
        Some(Tok::Number(t))
    } else if t.len() >= 2 && t[0] == '"' && t.last() == '"' {
        Some(Tok::String(unescaped(t.subrange(1, t.len() - 1), 0, Seq::empty())))
    } else if t.len() >= 2 && t.last() == '[' && all_name(t.drop_last()) {
        Some(Tok::VecAccessStart(t.drop_last()))
    } else if t.len() >= 1 && all_name(t) {
        Some(Tok::VarName(t))
    } else {
        None
    }
}

/// The tokens of the pieces from `i` on, behind those found already. A
/// piece of white space is no token; a piece that is none fails.
pub open spec fn tokens_from(pieces: Seq<Seq<char>>, i: nat, done: Seq<Tok>) -> Result<
    Seq<Tok>,
    Error,
>
    decreases pieces.len() - i,
{
    if i >= pieces.len() {
        Ok(done)
    } else {
        let t = trimmed(pieces[i as int]);
        if t.len() == 0 {
            tokens_from(pieces, i + 1, done)
        } else {
            match token_of(t) {
                Some(tok) => tokens_from(pieces, i + 1, done.push(tok)),
                None => Err(Error::UnrecognizedToken),
            }
        }
    }
}

/// The tokens of an expression: those of the pieces into which the
/// lexical patterns cut it.
pub open spec fn tokenized(expr: Seq<char>) -> Result<Seq<Tok>, Error> {
    match regex_matches(EXPRESSION_PATTERN@, expr) {
        Some(pieces) => tokens_from(pieces, 0, Seq::empty()),
        None => Err(Error::UnrecognizedToken),
    }
}

fn is_reserved_char(c: char) -> (r: bool)
    ensures
        r == is_reserved(c),
{
    c == '(' || c == ')' || c == '[' || c == ']' || c == '{' || c == '}' || c == ',' || c == '*'
        || c == '/' || c == '%' || c == '+' || c == '-' || c == '<' || c == '>' || c == '='
        || c == '!' || c == '&' || c == '|' || c == '"'
}

fn single_token(c: char) -> (r: Option<ExprToken>)
    ensures
        match r {
            Some(token) => single(c) == Some(token@),
            None => single(c) is None,
        },
{
    if c == '(' {
        Some(ExprToken::OpenParentheses)
    } else if c == ')' {
        Some(ExprToken::CloseParentheses)
    } else if c == '[' {
        Some(ExprToken::OpenSBrackets)
    } else if c == ']' {
        Some(ExprToken::CloseSBrackets)
    } else if c == ',' {
        Some(ExprToken::Comma)
    } else if c == '!' {
        Some(ExprToken::Not)
    } else if c == '*' {
        Some(ExprToken::Operator(BinaryOp::Mul))
    } else if c == '/' {
        Some(ExprToken::Operator(BinaryOp::Div))
    } else if c == '%' {
        Some(ExprToken::Operator(BinaryOp::Rem))
    } else if c == '+' {
        Some(ExprToken::Operator(BinaryOp::Add))
    } else if c == '-' {
        Some(ExprToken::Operator(BinaryOp::Sub))
    } else if c == '<' {
        Some(ExprToken::Operator(BinaryOp::Lt))
    } else if c == '>' {
        Some(ExprToken::Operator(BinaryOp::Gt))
    } else {
        None
    }
}

fn double_token(c: char, d: char) -> (r: Option<ExprToken>)
    ensures
        match r {
            Some(token) => double(c, d) == Some(token@),
            None => double(c, d) is None,
        },
{
    if c == '=' && d == '=' {
        Some(ExprToken::Operator(BinaryOp::Eq))
    } else if c == '!' && d == '=' {
        Some(ExprToken::Operator(BinaryOp::NotEq))
    } else if c == '<' && d == '=' {
        Some(ExprToken::Operator(BinaryOp::Ltoe))
    } else if c == '>' && d == '=' {
        Some(ExprToken::Operator(BinaryOp::Gtoe))
    } else if c == '&' && d == '&' {
        Some(ExprToken::Operator(BinaryOp::And))
    } else if c == '|' && d == '|' {
        Some(ExprToken::Operator(BinaryOp::Or))
    } else {
        None
    }
}

fn symbol_token(t: &str) -> (r: Option<ExprToken>)
    ensures
        match r {
            Some(token) => symbol(t@) == Some(token@),
            None => symbol(t@) is None,
        },
{
    let n: usize = t.unicode_len();
    if n == 1 {
        single_token(t.get_char(0))
    } else if n == 2 {
        double_token(t.get_char(0), t.get_char(1))
    } else {
        None
    }
}

fn run_of_digits(t: &str, from: usize) -> (r: usize)
    requires
        from <= t@.len(),
    ensures
        r == digits_end(t@, from as nat),
        from <= r <= t@.len(),
{
    let n: usize = t.unicode_len();
    let mut i: usize = from;
    while i < n && is_digit_char(t.get_char(i))
        invariant
            from <= i <= n,
            n == t@.len(),
            digits_end(t@, from as nat) == digits_end(t@, i as nat),
        decreases n - i,
    {
        i += 1;
    }
    i
}

fn has_number_shape(t: &str) -> (r: bool)
    ensures
        r == number_shape(t@),
{
    let n: usize = t.unicode_len();
    let a: usize = run_of_digits(t, 0);
    if a == 0 {
        false
    } else if a == n {
        true
    } else if t.get_char(a) == '.' {
        run_of_digits(t, a + 1) == n
    } else {
        false
    }
}

/// Whether the first `upto` characters may all stand in a name.
fn name_chars(t: &str, upto: usize) -> (r: bool)
    requires
        upto <= t@.len(),
    ensures
        r == all_name(t@.subrange(0, upto as int)),
{
    let mut i: usize = 0;
    while i < upto
        invariant
            i <= upto <= t@.len(),
            forall|j: int| 0 <= j < i ==> is_name_char(#[trigger] t@[j]),
        decreases upto - i,
    {
        let c = t.get_char(i);
        if is_space_char(c) || is_reserved_char(c) {
            assert(!is_name_char(t@.subrange(0, upto as int)[i as int]));
            return false;
        }
        i += 1;
    }
    assert forall|j: int| 0 <= j < t@.subrange(0, upto as int).len() implies is_name_char(
        #[trigger] t@.subrange(0, upto as int)[j],
    ) by {
        assert(t@.subrange(0, upto as int)[j] == t@[j]);
    }
    true
}

/// The text with each backslash followed by `n` turned into a line break.
pub fn unescape(s: &str) -> (r: String)
    ensures
        r@ == unescaped(s@, 0, Seq::empty()),
{
    let n: usize = s.unicode_len();
    let mut out = String::new();
    let mut i: usize = 0;
    while i < n
        invariant
            i <= n,
            n == s@.len(),
            unescaped(s@, 0, Seq::empty()) == unescaped(s@, i as nat, out@),
        decreases n - i,
    {
        if s.get_char(i) == '\\' && i + 1 < n && s.get_char(i + 1) == 'n' {
            let ghost before = out@;
            out.append("\n");
            proof {
                reveal_strlit("\n");
                assert(out@ =~= before.push('\n'));
            }
            i += 2;
        } else {
            let ghost before = out@;
            out.append(s.substring_char(i, i + 1));
            proof {
                assert(out@ =~= before.push(s@[i as int]));
            }
            i += 1;
        }
    }
    out
}

/// The token that a text without white space around it is, if it is one.
pub fn check_remaining_cases(capture: &str) -> (r: Option<ExprToken>)
    ensures
        match r {
            Some(token) => token_of(capture@) == Some(token@),
            None => token_of(capture@) is None,
        },
{
    let n: usize = capture.unicode_len();
    match symbol_token(capture) {
        Some(token) => {
            return Some(token);
        },
        None => {},
    }
    if same_text(capture, "true") {
        Some(ExprToken::Bool(true))
    } else if same_text(capture, "false") {
        Some(ExprToken::Bool(false))
    } else if same_text(capture, "null") {
        Some(ExprToken::Null)
    } else if has_number_shape(capture) {
        Some(ExprToken::Number(String::from_str(capture)))
    } else if n >= 2 && capture.get_char(0) == '"' && capture.get_char(n - 1) == '"' {
        Some(ExprToken::String(unescape(capture.substring_char(1, n - 1))))
    } else if n >= 2 && capture.get_char(n - 1) == '[' && name_chars(capture, n - 1) {
        Some(ExprToken::VecAccessStart(String::from_str(capture.substring_char(0, n - 1))))
    } else if n >= 1 && name_chars(capture, n) {
        assert(capture@.subrange(0, n as int) =~= capture@);
        Some(ExprToken::VarName(String::from_str(capture)))
    } else {
        assert(capture@.subrange(0, n as int) =~= capture@);
        None
    }
}

/// The tokens of the pieces into which an expression was cut.
pub fn classify_captures(pieces: &Vec<String>) -> (r: Result<Vec<ExprToken>, Error>)
    ensures
        toks_result(r) == tokens_from(piece_texts(pieces@), 0, Seq::empty()),
{
    let mut out: Vec<ExprToken> = Vec::new();
    let mut i: usize = 0;
    assert(toks(out@) =~= Seq::empty());
    while i < pieces.len()
        invariant
            i <= pieces.len(),
            tokens_from(piece_texts(pieces@), 0, Seq::empty()) == tokens_from(
                piece_texts(pieces@),
                i as nat,
                toks(out@),
            ),
        decreases pieces.len() - i,
    {
        let t = trim(pieces[i].as_str());
        if t.as_str().unicode_len() > 0 {
            match check_remaining_cases(t.as_str()) {
                Some(token) => {
                    let ghost before = out@;
                    let ghost model = token@;
                    out.push(token);
                    assert(toks(out@) =~= toks(before).push(model));
                },
                None => {
                    return Err(Error::UnrecognizedToken);
                },
            }
        }
        i += 1;
    }
    Ok(out)
}

/// The tokens of an expression. Fails with `UnrecognizedToken` where a
/// piece of the text is no token.
pub fn tokenize_expr(expr: &str) -> (r: Result<Vec<ExprToken>, Error>)
    ensures
        toks_result(r) == tokenized(expr@),
{
    match find_all(EXPRESSION_PATTERN, expr) {
        Some(pieces) => classify_captures(&pieces),
        None => Err(Error::UnrecognizedToken),
    }
}

} // verus!
