use vstd::prelude::*;
use crate::string_builder::{chars_of, collapse};
use crate::token::{ParenthesisSide, Token, TokenLine, TokenLineV, TokenV};
use crate::utility::{lemma_prepend_ok_assoc, prepend_ok, LinedError};

verus! {

/// Why a line could not be split into tokens: an integer literal that does
/// not fit a signed 32-bit integer.
#[derive(Debug, Clone, Copy, PartialEq, Eq, Structural)]
pub enum LexError {
    LiteralTooLarge,
}

impl LexError {
    /// A description of the error for the user.
    pub fn describe(&self) -> (r: &'static str)
        ensures
            r@ == "number too large to fit in target type"@,
    {
        "number too large to fit in target type"
    }
}

pub open spec fn is_digit(c: char) -> bool {
    '0' <= c && c <= '9'
}

/// Unicode white space, as `char::is_whitespace` reports it.
pub open spec fn is_ws(c: char) -> bool {
    let n = c as u32;
    (9 <= n && n <= 13) || n == 32 || n == 0x85 || n == 0xa0 || n == 0x1680 || (0x2000 <= n
        && n <= 0x200a) || n == 0x2028 || n == 0x2029 || n == 0x202f || n == 0x205f || n == 0x3000
}

/// A character that ends a name.
pub open spec fn ends_name(c: char) -> bool {
    is_ws(c) || c == '[' || c == ']'
}

/// The kinds of character runs that the lexer consumes.
pub enum Run {
    Space,
    Digits,
    NameChars,
}

pub open spec fn in_run(c: char, r: Run) -> bool {
    match r {
        Run::Space => is_ws(c),
        Run::Digits => is_digit(c),
        Run::NameChars => !ends_name(c),
    }
}

/// The end of the run of `r` characters that starts at `i`.
pub open spec fn run_end(s: Seq<char>, i: int, r: Run) -> int
    decreases s.len() - i,
{
    if 0 <= i < s.len() && in_run(s[i], r) {
        run_end(s, i + 1, r)
    } else {
        i
    }
}

pub proof fn lemma_run_end(s: Seq<char>, i: int, r: Run)
    requires
        0 <= i <= s.len(),
    ensures
        i <= run_end(s, i, r) <= s.len(),
        forall|m: int| i <= m < run_end(s, i, r) ==> in_run(#[trigger] s[m], r),
        run_end(s, i, r) == s.len() || !in_run(s[run_end(s, i, r)], r),
    decreases s.len() - i,
{
    if i < s.len() && in_run(s[i], r) {
        lemma_run_end(s, i + 1, r);
    }
}

pub proof fn lemma_run_end_step(s: Seq<char>, i: int, k: int, r: Run)
    requires
        0 <= i <= k <= s.len(),
        forall|m: int| i <= m < k ==> in_run(#[trigger] s[m], r),
    ensures
        run_end(s, i, r) == run_end(s, k, r),
    decreases k - i,
{
    if i < k {
        lemma_run_end_step(s, i + 1, k, r);
    }
}

/// The value of a run of decimal digits.
pub open spec fn digits_value(t: Seq<char>) -> int
    decreases t.len(),
{
    if t.len() == 0 {
        0
    } else {
        digits_value(t.drop_last()) * 10 + (t.last() as int - '0' as int)
    }
}

/// The token that starts at or after position `i` of a line without comments,
/// with the position after it; `None` when only white space is left; the text
/// of the literal when an integer literal does not fit an `i32`.
pub open spec fn next_token(s: Seq<char>, i: int) -> Result<Option<(int, TokenV)>, Seq<char>> {
    let j = run_end(s, i, Run::Space);
    if j >= s.len() {
        Ok(None)
    } else if s[j] == '[' {
        Ok(Some((j + 1, TokenV::ArrayBracket(ParenthesisSide::Left))))
    } else if s[j] == ']' {
        Ok(Some((j + 1, TokenV::ArrayBracket(ParenthesisSide::Right))))
    } else if is_digit(s[j]) {
        let k = run_end(s, j + 1, Run::Digits);
        let text = s.subrange(j, k);
        if digits_value(text) <= i32::MAX {
            Ok(Some((k, TokenV::Literal(digits_value(text) as i32))))
        } else {
            Err(text)
        }
    } else {
        let k = run_end(s, j + 1, Run::NameChars);
        Ok(Some((k, TokenV::Name(s.subrange(j, k)))))
    }
}

pub proof fn lemma_next_token_advances(s: Seq<char>, i: int)
    requires
        0 <= i <= s.len(),
    ensures
        next_token(s, i) matches Ok(Some((k, _))) ==> i < k <= s.len(),
{
    lemma_run_end(s, i, Run::Space);
    let j = run_end(s, i, Run::Space);
    if j < s.len() {
        lemma_run_end(s, j + 1, Run::Digits);
        lemma_run_end(s, j + 1, Run::NameChars);
    }
}

/// The tokens of a line without comments, from position `i` on.
pub open spec fn code_tokens(s: Seq<char>, i: int) -> Result<Seq<TokenV>, Seq<char>>
    decreases s.len() - i,
    when 0 <= i <= s.len()
{
    match next_token(s, i) {
        Err(t) => Err(t),
        Ok(None) => Ok(Seq::empty()),
        Ok(Some((k, t))) => {
            proof {
                lemma_next_token_advances(s, i);
            }
            prepend_ok(seq![t], code_tokens(s, k))
        },
    }
}

/// The comments of a line, one for each `/`, and the code after the last `/`;
/// `seg` is where the current segment starts and `i` where the scan stands.
pub open spec fn comment_split(s: Seq<char>, seg: int, i: int) -> (Seq<TokenV>, Seq<char>)
    decreases s.len() - i,
{
    if i >= s.len() {
        (Seq::empty(), s.subrange(seg, s.len() as int))
    } else if s[i] == '/' {
        let r = comment_split(s, i + 1, i + 1);
        (seq![TokenV::Comment(s.subrange(seg, i))] + r.0, r.1)
    } else {
        comment_split(s, seg, i + 1)
    }
}

/// The tokens of one (trimmed) line: its comments, then the tokens of its code.
pub open spec fn line_tokens(s: Seq<char>) -> Result<Seq<TokenV>, Seq<char>> {
    let (comments, code) = comment_split(s, 0, 0);
    prepend_ok(comments, code_tokens(code, 0))
}

pub open spec fn tokens_view(v: Seq<Token>) -> Seq<TokenV> {
    v.map_values(|t: Token| t@)
}

/// The end of `s` once trailing white space at or after `lo` is dropped.
pub open spec fn trim_end(s: Seq<char>, lo: int, e: int) -> int
    decreases e,
{
    if e > lo && e > 0 && is_ws(s[e - 1]) {
        trim_end(s, lo, e - 1)
    } else {
        e
    }
}

/// `s` without leading and trailing white space.
pub open spec fn trim(s: Seq<char>) -> Seq<char> {
    let a = run_end(s, 0, Run::Space);
    s.subrange(a, trim_end(s, a, s.len() as int))
}

/// `t` without one trailing carriage return.
pub open spec fn strip_cr(t: Seq<char>) -> Seq<char> {
    if t.len() > 0 && t.last() == '\r' {
        t.drop_last()
    } else {
        t
    }
}

/// The physical lines of `s` from the line that starts at `start`, the scan
/// standing at `i`: lines end at `\n` (a `\r` before it is dropped), and the
/// text after the last `\n` is a line when it is not empty.
pub open spec fn lines_from(s: Seq<char>, start: int, i: int) -> Seq<Seq<char>>
    decreases s.len() - i,
{
    if i >= s.len() {
        if start < s.len() {
            seq![s.subrange(start, s.len() as int)]
        } else {
            Seq::empty()
        }
    } else if s[i] == '\n' {
        seq![strip_cr(s.subrange(start, i))] + lines_from(s, i + 1, i + 1)
    } else {
        lines_from(s, start, i + 1)
    }
}

/// The physical lines of a source text.
pub open spec fn lines_of(s: Seq<char>) -> Seq<Seq<char>> {
    lines_from(s, 0, 0)
}

/// The token lines of `ls` from the `k`-th line from the bottom on (counting
/// from 0); an error holds the 1-based line from the bottom and the text of
/// the literal that does not fit.
pub open spec fn lex_lines(ls: Seq<Seq<char>>, k: int) -> Result<Seq<TokenLineV>, (int, Seq<char>)>
    decreases ls.len() - k,
{
    if k >= ls.len() {
        Ok(Seq::empty())
    } else {
        let line = ls[ls.len() - 1 - k];
        match line_tokens(trim(line)) {
            Err(t) => Err((k + 1, t)),
            Ok(toks) => prepend_ok(seq![TokenLineV { tokens: toks, line }], lex_lines(ls, k + 1)),
        }
    }
}

/// What the lexer makes of a whole source text: its lines, last line first.
pub open spec fn lex_source(s: Seq<char>) -> Result<Seq<TokenLineV>, (int, Seq<char>)> {
    lex_lines(lines_of(s), 0)
}

pub open spec fn token_lines_view(v: Seq<TokenLine>) -> Seq<TokenLineV> {
    v.map_values(|t: TokenLine| t@)
}

fn is_number(chr: char) -> (r: bool)
    ensures
        r == is_digit(chr),
{
    chr >= '0' && chr <= '9'
}

/// Whether `c` is white space.
pub fn is_whitespace(c: char) -> (r: bool)
    ensures
        r == is_ws(c),
{
    let n = c as u32;
    (9 <= n && n <= 13) || n == 32 || n == 0x85 || n == 0xa0 || n == 0x1680 || (0x2000 <= n
        && n <= 0x200a) || n == 0x2028 || n == 0x2029 || n == 0x202f || n == 0x205f || n == 0x3000
}

fn in_run_exec(c: char, r: &Run) -> (b: bool)
    ensures
        b == in_run(c, *r),
{
    match r {
        Run::Space => is_whitespace(c),
        Run::Digits => is_number(c),
        Run::NameChars => !(is_whitespace(c) || c == '[' || c == ']'),
    }
}

fn find_run_end(s: &Vec<char>, i: usize, r: Run) -> (k: usize)
    requires
        i <= s.len(),
    ensures
        k == run_end(s@, i as int, r),
{
    let mut k = i;
    while k < s.len() && in_run_exec(s[k], &r)
        invariant
            i <= k <= s.len(),
            forall|m: int| i <= m < k ==> in_run(#[trigger] s@[m], r),
        decreases s.len() - k,
    {
        k += 1;
    }
    proof {
        lemma_run_end_step(s@, i as int, k as int, r);
    }
    k
}

/// The characters of `s` from `lo` to `hi`.
fn sub_chars(s: &Vec<char>, lo: usize, hi: usize) -> (r: Vec<char>)
    requires
        lo <= hi <= s.len(),
    ensures
        r@ == s@.subrange(lo as int, hi as int),
{
    let mut r: Vec<char> = Vec::new();
    let mut k = lo;
    while k < hi
        invariant
            lo <= k <= hi <= s.len(),
            r@ == s@.subrange(lo as int, k as int),
        decreases hi - k,
    {
        r.push(s[k]);
        k += 1;
        assert(r@ =~= s@.subrange(lo as int, k as int));
    }
    r
}


proof fn lemma_digits_push(t: Seq<char>, c: char)
    ensures
        digits_value(t.push(c)) == digits_value(t) * 10 + (c as int - '0' as int),
{
    assert(t.push(c).drop_last() =~= t);
}

proof fn lemma_digits_nonneg(t: Seq<char>)
    requires
        forall|m: int| 0 <= m < t.len() ==> is_digit(#[trigger] t[m]),
    ensures
        digits_value(t) >= 0,
    decreases t.len(),
{
    if t.len() > 0 {
        lemma_digits_nonneg(t.drop_last());
    }
}

/// The value of the digits of `s` from `j` to `k`, or `None` when it exceeds
/// `i32::MAX`.
fn parse_digits(s: &Vec<char>, j: usize, k: usize) -> (r: Option<i32>)
    requires
        j <= k <= s.len(),
        forall|m: int| j <= m < k ==> is_digit(#[trigger] s@[m]),
    ensures
        r matches Some(v) ==> digits_value(s@.subrange(j as int, k as int)) == v as int,
        r is None <==> digits_value(s@.subrange(j as int, k as int)) > i32::MAX,
{
    let mut v: u64 = 0;
    let mut m = j;
    while m < k
        invariant
            j <= m <= k <= s.len(),
            forall|q: int| j <= q < k ==> is_digit(#[trigger] s@[q]),
            v <= i32::MAX + 1,
            v <= i32::MAX ==> v == digits_value(s@.subrange(j as int, m as int)),
            v > i32::MAX ==> digits_value(s@.subrange(j as int, m as int)) > i32::MAX,
        decreases k - m,
    {
        let c = s[m];
        let d = (c as u32 - '0' as u32) as u64;
        proof {
            assert(s@.subrange(j as int, m + 1) =~= s@.subrange(j as int, m as int).push(c));
            lemma_digits_push(s@.subrange(j as int, m as int), c);
            assert(0 <= d <= 9);
        }
        if v <= i32::MAX as u64 {
            let w = v * 10 + d;
            if w > i32::MAX as u64 {
                v = i32::MAX as u64 + 1;
            } else {
                v = w;
            }
        }
        m += 1;
    }
    if v <= i32::MAX as u64 {
        Some(v as i32)
    } else {
        None
    }
}

/// The next token of a line without comments, at or after position `i`.
fn tokenize_simple_next(s: &Vec<char>, i: usize) -> (r: Result<Option<(usize, Token)>, (LexError, String)>)
    requires
        i <= s.len(),
    ensures
        match r {
            Ok(None) => next_token(s@, i as int) == Ok::<Option<(int, TokenV)>, Seq<char>>(None),
            Ok(Some((k, t))) => next_token(s@, i as int) == Ok::<Option<(int, TokenV)>, Seq<char>>(
                Some((k as int, t@)),
            ),
            Err((e, text)) => next_token(s@, i as int) == Err::<Option<(int, TokenV)>, Seq<char>>(
                text@,
            ) && e == LexError::LiteralTooLarge,
        },
{
    let j = find_run_end(s, i, Run::Space);
    proof {
        lemma_run_end(s@, i as int, Run::Space);
    }
    if j >= s.len() {
        return Ok(None);
    }
    if s[j] == '[' {
        return Ok(Some((j + 1, Token::ArrayBracket(ParenthesisSide::Left))));
    }
    if s[j] == ']' {
        return Ok(Some((j + 1, Token::ArrayBracket(ParenthesisSide::Right))));
    }
    if is_number(s[j]) {
        let k = find_run_end(s, j + 1, Run::Digits);
        proof {
            lemma_run_end(s@, j + 1, Run::Digits);
        }
        let text = collapse(sub_chars(s, j, k));
        match parse_digits(s, j, k) {
            Some(v) => {
                return Ok(Some((k, Token::Literal(v))));
            },
            None => {
                return Err((LexError::LiteralTooLarge, text));
            },
        }
    }
    let k = find_run_end(s, j + 1, Run::NameChars);
    proof {
        lemma_run_end(s@, j + 1, Run::NameChars);
    }
    Ok(Some((k, Token::Name(collapse(sub_chars(s, j, k))))))
}

/// The tokens of one line held as characters.
fn tokenize_chars(s: &Vec<char>) -> (r: Result<Vec<Token>, (LexError, String)>)
    ensures
        match r {
            Ok(v) => line_tokens(s@) == Ok::<Seq<TokenV>, Seq<char>>(tokens_view(v@)),
            Err((e, text)) => line_tokens(s@) == Err::<Seq<TokenV>, Seq<char>>(text@) && e
                == LexError::LiteralTooLarge,
        },
{
    let mut tokens: Vec<Token> = Vec::new();
    let mut seg: usize = 0;
    let mut i: usize = 0;
    while i < s.len()
        invariant
            seg <= i <= s.len(),
            comment_split(s@, 0, 0).0 == tokens_view(tokens@) + comment_split(s@, seg as int, i as int).0,
            comment_split(s@, 0, 0).1 == comment_split(s@, seg as int, i as int).1,
        decreases s.len() - i,
    {
        if s[i] == '/' {
            let ghost old_tokens = tokens@;
            tokens.push(Token::Comment(collapse(sub_chars(s, seg, i))));
            proof {
                assert(tokens_view(tokens@) =~= tokens_view(old_tokens) + seq![
                    TokenV::Comment(s@.subrange(seg as int, i as int)),
                ]);
                let r = comment_split(s@, i + 1, i + 1);
                assert(tokens_view(old_tokens) + (seq![
                    TokenV::Comment(s@.subrange(seg as int, i as int)),
                ] + r.0) =~= tokens_view(tokens@) + r.0);
            }
            seg = i + 1;
        }
        i += 1;
    }
    let code = sub_chars(s, seg, s.len());
    assert(comment_split(s@, seg as int, i as int).0 =~= Seq::<TokenV>::empty());
    assert(code@ == comment_split(s@, 0, 0).1);
    assert(line_tokens(s@) == prepend_ok(tokens_view(tokens@), code_tokens(code@, 0)));
    let mut code_toks: Vec<Token> = Vec::new();
    let mut p: usize = 0;
    loop
        invariant
            p <= code.len(),
            line_tokens(s@) == prepend_ok(tokens_view(tokens@), code_tokens(code@, 0)),
            code_tokens(code@, 0) == prepend_ok(tokens_view(code_toks@), code_tokens(code@, p as int)),
        ensures
            line_tokens(s@) == prepend_ok(tokens_view(tokens@), code_tokens(code@, 0)),
            code_tokens(code@, 0) == Ok::<Seq<TokenV>, Seq<char>>(tokens_view(code_toks@)),
        decreases code.len() - p,
    {
        proof {
            lemma_next_token_advances(code@, p as int);
        }
        match tokenize_simple_next(&code, p) {
            Err(e) => {
                assert(code_tokens(code@, p as int) == Err::<Seq<TokenV>, Seq<char>>(e.1@));
                return Err(e);
            },
            Ok(None) => {
                assert(code_tokens(code@, p as int) == Ok::<Seq<TokenV>, Seq<char>>(Seq::empty()));
                assert(tokens_view(code_toks@) + Seq::<TokenV>::empty() =~= tokens_view(code_toks@));
                break;
            },
            Ok(Some((k, t))) => {
                let ghost old_toks = code_toks@;
                let ghost tv = t@;
                code_toks.push(t);
                proof {
                    assert(tokens_view(code_toks@) =~= tokens_view(old_toks) + seq![tv]);
                    lemma_prepend_ok_assoc(tokens_view(old_toks), seq![tv], code_tokens(code@, k as int));
                }
                p = k;
            },
        }
    }
    let ghost comments = tokens@;
    let ghost found = code_toks@;
    tokens.append(&mut code_toks);
    proof {
        assert(tokens_view(tokens@) =~= tokens_view(comments) + tokens_view(found));
        assert(line_tokens(s@) == Ok::<Seq<TokenV>, Seq<char>>(tokens_view(comments) + tokens_view(found)));
    }
    Ok(tokens)
}

/// Splits one line into tokens: a comment token for the text before each `/`,
/// then the tokens of what follows the last `/`. An integer literal that does
/// not fit an `i32` is an error, which holds the literal's text.
pub fn tokenize_line(txt: &str) -> (r: Result<Vec<Token>, (LexError, String)>)
    ensures
        match r {
            Ok(v) => line_tokens(txt@) == Ok::<Seq<TokenV>, Seq<char>>(tokens_view(v@)),
            Err((e, text)) => line_tokens(txt@) == Err::<Seq<TokenV>, Seq<char>>(text@) && e
                == LexError::LiteralTooLarge,
        },
{
    let chars = chars_of(txt);
    tokenize_chars(&chars)
}

/// The characters of `s` without leading and trailing white space.
pub(crate) fn trim_chars(s: &Vec<char>) -> (r: Vec<char>)
    ensures
        r@ == trim(s@),
{
    let a = find_run_end(s, 0, Run::Space);
    proof {
        lemma_run_end(s@, 0, Run::Space);
    }
    let mut e = s.len();
    while e > a && is_whitespace(s[e - 1])
        invariant
            a <= e <= s.len(),
            trim_end(s@, a as int, s.len() as int) == trim_end(s@, a as int, e as int),
        decreases e,
    {
        e -= 1;
    }
    sub_chars(s, a, e)
}

/// The spans of the physical lines of `s`, first line first.
fn line_spans(s: &Vec<char>) -> (r: Vec<(usize, usize)>)
    ensures
        forall|k: int| 0 <= k < r.len() ==> (#[trigger] r[k]).0 <= r[k].1 <= s.len(),
        r@.map_values(|p: (usize, usize)| s@.subrange(p.0 as int, p.1 as int)) == lines_of(s@),
{
    let mut spans: Vec<(usize, usize)> = Vec::new();
    let mut start: usize = 0;
    let mut i: usize = 0;
    while i < s.len()
        invariant
            start <= i <= s.len(),
            forall|k: int| 0 <= k < spans.len() ==> (#[trigger] spans[k]).0 <= spans[k].1 <= s.len(),
            lines_of(s@) == spans@.map_values(|p: (usize, usize)| s@.subrange(p.0 as int, p.1 as int))
                + lines_from(s@, start as int, i as int),
        decreases s.len() - i,
    {
        if s[i] == '\n' {
            let mut end = i;
            if end > start && s[end - 1] == '\r' {
                end -= 1;
            }
            let ghost old_spans = spans@;
            spans.push((start, end));
            proof {
                let line = s@.subrange(start as int, end as int);
                assert(line =~= strip_cr(s@.subrange(start as int, i as int)));
                let f = |p: (usize, usize)| s@.subrange(p.0 as int, p.1 as int);
                assert(spans@.map_values(f) =~= old_spans.map_values(f) + seq![line]);
                assert(old_spans.map_values(f) + (seq![line] + lines_from(s@, i + 1, i + 1))
                    =~= spans@.map_values(f) + lines_from(s@, i + 1, i + 1));
            }
            start = i + 1;
        }
        i += 1;
    }
    if start < s.len() {
        let ghost old_spans = spans@;
        spans.push((start, s.len()));
        proof {
            let f = |p: (usize, usize)| s@.subrange(p.0 as int, p.1 as int);
            assert(spans@.map_values(f) =~= old_spans.map_values(f) + lines_from(s@, start as int, i as int));
        }
    } else {
        proof {
            let f = |p: (usize, usize)| s@.subrange(p.0 as int, p.1 as int);
            assert(spans@.map_values(f) =~= spans@.map_values(f) + lines_from(s@, start as int, i as int));
        }
    }
    spans
}

/// Splits a source text into token lines, last physical line first. The error
/// of a line with an integer literal that does not fit an `i32` holds the
/// line's number counted from the bottom, starting at 1, and the literal's text.
pub fn tokenize(txt: &str) -> (r: Result<Vec<TokenLine>, LinedError<LexError>>)
    ensures
        match r {
            Ok(v) => lex_source(txt@) == Ok::<Seq<TokenLineV>, (int, Seq<char>)>(token_lines_view(v@)),
            Err(e) => lex_source(txt@) == Err::<Seq<TokenLineV>, (int, Seq<char>)>(
                (e.line as int, e.related_text@),
            ) && e.lines_amount == lines_of(txt@).len() && e.content == LexError::LiteralTooLarge,
        },
{
    let s = chars_of(txt);
    let spans = line_spans(&s);
    let ghost ls = lines_of(s@);
    let ghost f = |p: (usize, usize)| s@.subrange(p.0 as int, p.1 as int);
    assert(ls.len() == spans.len());
    let n = spans.len();
    let mut out: Vec<TokenLine> = Vec::new();
    let mut k: usize = 0;
    while k < n
        invariant
            n == spans.len() == ls.len(),
            ls == lines_of(s@),
            s@ == txt@,
            spans@.map_values(f) == ls,
            f == (|p: (usize, usize)| s@.subrange(p.0 as int, p.1 as int)),
            forall|q: int| 0 <= q < spans.len() ==> (#[trigger] spans[q]).0 <= spans[q].1 <= s.len(),
            k <= n,
            lex_lines(ls, 0) == prepend_ok(token_lines_view(out@), lex_lines(ls, k as int)),
        decreases n - k,
    {
        let (a, b) = spans[n - 1 - k];
        let line = sub_chars(&s, a, b);
        assert(line@ == ls[n - 1 - k]);
        let trimmed = trim_chars(&line);
        match tokenize_chars(&trimmed) {
            Err((kind, text)) => {
                return Err(LinedError::new(k + 1, n, text, kind));
            },
            Ok(toks) => {
                let ghost old_out = out@;
                let ghost lv = TokenLineV { tokens: tokens_view(toks@), line: line@ };
                let tl = TokenLine::new(toks, collapse(line));
                assert(tl@ == lv);
                out.push(tl);
                proof {
                    assert(token_lines_view(out@) =~= token_lines_view(old_out) + seq![lv]);
                    lemma_prepend_ok_assoc(token_lines_view(old_out), seq![lv], lex_lines(ls, k + 1));
                }
                k += 1;
            },
        }
    }
    assert(token_lines_view(out@) + Seq::<TokenLineV>::empty() =~= token_lines_view(out@));
    Ok(out)
}

} // verus!
