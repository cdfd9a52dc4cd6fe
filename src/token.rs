use vstd::prelude::*;
use crate::string_builder::{concat_map, int_text, push_int};

verus! {

/// Which of the two square brackets a bracket token is.
#[derive(Debug, Clone, Copy, PartialEq, Eq, Structural)]
pub enum ParenthesisSide {
    Left,
    Right,
}

/// One lexeme of a source line.
#[derive(Debug, Clone, PartialEq, Eq)]
pub enum Token {
    Name(String),
    ArrayBracket(ParenthesisSide),
    Literal(i32),
    Comment(String),
}

/// The mathematical value of a token: its text as a sequence of characters.
pub enum TokenV {
    Name(Seq<char>),
    ArrayBracket(ParenthesisSide),
    Literal(i32),
    Comment(Seq<char>),
}

impl View for Token {
    type V = TokenV;

    open spec fn view(&self) -> TokenV {
        match self {
            Token::Name(s) => TokenV::Name(s@),
            Token::ArrayBracket(side) => TokenV::ArrayBracket(*side),
            Token::Literal(v) => TokenV::Literal(*v),
            Token::Comment(s) => TokenV::Comment(s@),
        }
    }
}

/// The tokens of one source line and the line's raw text.
#[derive(Debug, Default)]
pub struct TokenLine {
    pub tokens: Vec<Token>,
    pub line: String,
}

/// The mathematical value of a token line.
pub struct TokenLineV {
    pub tokens: Seq<TokenV>,
    pub line: Seq<char>,
}

impl View for TokenLine {
    type V = TokenLineV;

    open spec fn view(&self) -> TokenLineV {
        TokenLineV { tokens: self.tokens@.map_values(|t: Token| t@), line: self.line@ }
    }
}

impl TokenLine {
    pub fn new(tokens: Vec<Token>, line: String) -> (r: TokenLine)
        ensures
            r.tokens == tokens,
            r.line == line,
    {
        TokenLine { tokens, line }
    }
}

/// The quoted and escaped form in which `Debug` writes a string.
pub uninterp spec fn debug_text_of(s: Seq<char>) -> Seq<char>;

/// Relies on `<str as Debug>::fmt`: a string in quotes with its special
/// characters escaped, which depends on the string's characters alone.
#[verifier::external_body]
fn debug_text(s: &str) -> (r: String)
    ensures
        r@ == debug_text_of(s@),
{
    format!("{:?}", s)
}

/// How a token is written in a dump of the token stream.
pub open spec fn token_debug(t: TokenV) -> Seq<char> {
    match t {
        TokenV::Name(s) => "Name("@ + debug_text_of(s) + ")"@,
        TokenV::ArrayBracket(ParenthesisSide::Left) => "ArrayBracket(Left)"@,
        TokenV::ArrayBracket(ParenthesisSide::Right) => "ArrayBracket(Right)"@,
        TokenV::Literal(v) => "Literal("@ + int_text(v as int) + ")"@,
        TokenV::Comment(s) => "Comment("@ + debug_text_of(s) + ")"@,
    }
}

/// The tokens written one after the other, separated by `, `.
pub open spec fn tokens_joined(ts: Seq<TokenV>) -> Seq<char>
    decreases ts.len(),
{
    if ts.len() == 0 {
        Seq::empty()
    } else if ts.len() == 1 {
        token_debug(ts[0])
    } else {
        tokens_joined(ts.drop_last()) + ", "@ + token_debug(ts.last())
    }
}

/// One line of a dump of the token stream: the raw line in quotes, then its
/// tokens in brackets.
pub open spec fn token_line_debug(l: TokenLineV) -> Seq<char> {
    "\""@ + l.line + "\" "@ + "["@ + tokens_joined(l.tokens) + "]"@ + "\n"@
}

fn token_to_debug(t: &Token) -> (r: String)
    ensures
        r@ == token_debug(t@),
{
    match t {
        Token::Name(s) => {
            let mut r = String::from_str("Name(");
            let d = debug_text(s.as_str());
            r.append(d.as_str());
            r.append(")");
            r
        },
        Token::ArrayBracket(ParenthesisSide::Left) => String::from_str("ArrayBracket(Left)"),
        Token::ArrayBracket(ParenthesisSide::Right) => String::from_str("ArrayBracket(Right)"),
        Token::Literal(v) => {
            let mut r = String::from_str("Literal(");
            push_int(&mut r, *v);
            r.append(")");
            r
        },
        Token::Comment(s) => {
            let mut r = String::from_str("Comment(");
            let d = debug_text(s.as_str());
            r.append(d.as_str());
            r.append(")");
            r
        },
    }
}

/// A dump of token lines, one per line (see `token_line_debug`).
pub fn format_token_collection(col: &[TokenLine]) -> (r: String)
    ensures
        r@ == concat_map(col@.map_values(|t: TokenLine| t@), |l: TokenLineV| token_line_debug(l)),
{
    let ghost lines = col@.map_values(|t: TokenLine| t@);
    let ghost f = |l: TokenLineV| token_line_debug(l);
    let mut r = String::new();
    let mut k: usize = 0;
    while k < col.len()
        invariant
            k <= col.len(),
            lines == col@.map_values(|t: TokenLine| t@),
            f == (|l: TokenLineV| token_line_debug(l)),
            r@ == concat_map(lines.subrange(0, k as int), f),
        decreases col.len() - k,
    {
        let line = &col[k];
        let ghost before = r@;
        r.append("\"");
        r.append(line.line.as_str());
        r.append("\" ");
        r.append("[");
        let ghost tv = line@.tokens;
        let mut j: usize = 0;
        let ghost mid = r@;
        assert(mid == before + "\""@ + line@.line + "\" "@ + "["@);
        while j < line.tokens.len()
            invariant
                j <= line.tokens.len(),
                tv == line@.tokens,
                r@ == mid + tokens_joined(tv.subrange(0, j as int)),
                mid == before + "\""@ + line@.line + "\" "@ + "["@,
            decreases line.tokens.len() - j,
        {
            if j > 0 {
                r.append(", ");
            }
            let d = token_to_debug(&line.tokens[j]);
            r.append(d.as_str());
            proof {
                assert(tv.subrange(0, j + 1).drop_last() =~= tv.subrange(0, j as int));
                assert(tv[j as int] == line.tokens@[j as int]@);
            }
            assert(r@ =~= mid + tokens_joined(tv.subrange(0, j + 1)));
            j += 1;
        }
        assert(tv.subrange(0, j as int) =~= tv);
        r.append("]");
        r.append("\n");
        proof {
            assert(lines.subrange(0, k + 1).drop_last() =~= lines.subrange(0, k as int));
            assert(lines[k as int] == line@);
        }
        assert(r@ =~= concat_map(lines.subrange(0, k + 1), f));
        k += 1;
    }
    assert(lines.subrange(0, k as int) =~= lines);
    r
}

} // verus!
