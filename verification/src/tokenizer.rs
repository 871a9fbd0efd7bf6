//! From the text of a program to the tokens of its statements.

use vstd::prelude::*;
use crate::error::Error;
use crate::scan::{find_all, is_match, piece_texts, regex_holds, regex_matches};
use crate::text::{same_text, trim, trimmed};

verus! {

/// A token of a statement.
#[derive(Debug, PartialEq)]
pub enum Token {
    If,
    Else,
    While,
    /// A line of the form `left = right`, as it was written.
    Assignation(String),
    OpenCBrackets,
    CloseCBrackets,
    /// Any other line: an expression, as it was written.
    Expression(String),
    Print,
}

/// The mathematical model of a [`Token`].
pub enum Word {
    If,
    Else,
    While,
    Assignation(Seq<char>),
    OpenCBrackets,
    CloseCBrackets,
    Expression(Seq<char>),
    Print,
}

impl View for Token {
    type V = Word;

    open spec fn view(&self) -> Word {
        match self {
            Token::If => Word::If,
            Token::Else => Word::Else,
            Token::While => Word::While,
            Token::Assignation(s) => Word::Assignation(s@),
            Token::OpenCBrackets => Word::OpenCBrackets,
            Token::CloseCBrackets => Word::CloseCBrackets,
            Token::Expression(s) => Word::Expression(s@),
            Token::Print => Word::Print,
        }
    }
}

/// The models of a sequence of tokens.
pub open spec fn words(tokens: Seq<Token>) -> Seq<Word> {
    Seq::new(tokens.len(), |i: int| tokens[i]@)
}

/// The model of a list of tokens or an error.
pub open spec fn words_result(r: Result<Vec<Token>, Error>) -> Result<Seq<Word>, Error> {
    match r {
        Ok(tokens) => Ok(words(tokens@)),
        Err(e) => Err(e),
    }
}

/// The lexical patterns of a program, tried in this order at each place:
/// the keywords `if`, `else`, `while` and `print` with white space behind
/// them, a brace, an assignment line, and any other line.
pub const STATEMENT_PATTERN: &'static str =
    r"\s*if\s+|\s*else\s+|\s*while\s+|\s*print\s+|\{|\}|[^\{\}\n=]+\s*=\s*[^\{\}\n=]+|[^\{\}\n]+";

/// The pattern of an assignment: something, `=`, something, with no brace,
/// line break or further `=` in either.
pub const ASSIGNMENT_PATTERN: &'static str = r"[^\{\}\n=]+\s*=\s*[^\{\}\n=]+";

/// The token that a text without white space around it is, given whether
/// it holds an assignment.
pub open spec fn word_with(t: Seq<char>, assignment: bool) -> Word {
    if t == "if"@ {
        Word::If
    } else if t == "else"@ {
        Word::Else
    } else if t == "while"@ {
        Word::While
    } else if t == "{"@ {
        Word::OpenCBrackets
    } else if t == "}"@ {
        Word::CloseCBrackets
    } else if t == "print"@ {
        Word::Print
    } else if assignment {
        Word::Assignation(t)
    } else {
        Word::Expression(t)
    }
}

/// Whether the assignment pattern matches somewhere in a text.
pub open spec fn holds_assignment(t: Seq<char>) -> bool {
    regex_holds(ASSIGNMENT_PATTERN@, t) == Some(true)
}

/// The tokens of the pieces from `i` on, behind those found already. A
/// piece of white space is no token.
pub open spec fn words_from(pieces: Seq<Seq<char>>, i: nat, done: Seq<Word>) -> Seq<Word>
    decreases pieces.len() - i,
{
    if i >= pieces.len() {
        done
    } else {
        let t = trimmed(pieces[i as int]);
        if t.len() == 0 {
            words_from(pieces, i + 1, done)
        } else {
            words_from(pieces, i + 1, done.push(word_with(t, holds_assignment(t))))
        }
    }
}

/// The tokens of a program: those of the pieces into which the lexical
/// patterns cut it.
pub open spec fn tokenized_source(source: Seq<char>) -> Result<Seq<Word>, Error> {
    match regex_matches(STATEMENT_PATTERN@, source) {
        Some(pieces) => Ok(words_from(pieces, 0, Seq::empty())),
        None => Err(Error::UnrecognizedToken),
    }
}

/// Whether a text holds an assignment.
pub fn is_assignation(text: &str) -> (r: bool)
    ensures
        r == holds_assignment(text@),
{
    match is_match(ASSIGNMENT_PATTERN, text) {
        Some(found) => found,
        None => false,
    }
}

/// The token that a text without white space around it is, given whether
/// it holds an assignment.
pub fn classify(text: &str, assignment: bool) -> (r: Token)
    ensures
        r@ == word_with(text@, assignment),
{
    if same_text(text, "if") {
        Token::If
    } else if same_text(text, "else") {
        Token::Else
    } else if same_text(text, "while") {
        Token::While
    } else if same_text(text, "{") {
        Token::OpenCBrackets
    } else if same_text(text, "}") {
        Token::CloseCBrackets
    } else if same_text(text, "print") {
        Token::Print
    } else if assignment {
        Token::Assignation(String::from_str(text))
    } else {
        Token::Expression(String::from_str(text))
    }
}

/// The tokens of the pieces into which a program was cut.
pub fn classify_pieces(pieces: &Vec<String>) -> (r: Vec<Token>)
    ensures
        words(r@) == words_from(piece_texts(pieces@), 0, Seq::empty()),
{
    let mut out: Vec<Token> = Vec::new();
    let mut i: usize = 0;
    assert(words(out@) =~= Seq::empty());
    while i < pieces.len()
        invariant
            i <= pieces.len(),
            words_from(piece_texts(pieces@), 0, Seq::empty()) == words_from(
                piece_texts(pieces@),
                i as nat,
                words(out@),
            ),
        decreases pieces.len() - i,
    {
        let t = trim(pieces[i].as_str());
        if t.as_str().unicode_len() > 0 {
            let ghost before = out@;
            let token = classify(t.as_str(), is_assignation(t.as_str()));
            let ghost model = token@;
            out.push(token);
            assert(words(out@) =~= words(before).push(model));
        }
        i += 1;
    }
    out
}

/// The tokens of a program. Fails only where the lexical patterns are
/// unusable.
pub fn tokenize(source_code: &str) -> (r: Result<Vec<Token>, Error>)
    ensures
        words_result(r) == tokenized_source(source_code@),
{
    match find_all(STATEMENT_PATTERN, source_code) {
        Some(pieces) => Ok(classify_pieces(&pieces)),
        None => Err(Error::UnrecognizedToken),
    }
}

} // verus!
