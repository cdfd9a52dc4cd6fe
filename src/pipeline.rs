//! The whole pipeline: source text to C text, and what holds of it.
use vstd::prelude::*;
use crate::compiler::{
    array_decl, array_leak, compile, compile_spec, flag_decl, flag_leak, lemma_program_declares_names,
    occurs_in, var_decl, var_leak, CompilerError, EMPTY_PROGRAM,
};
use crate::lexer::{
    code_tokens, comment_split, is_ws, lemma_run_end_step, lex_lines, lex_source, line_tokens, lines_from,
    lines_of, next_token, run_end, tokenize, trim, LexError, Run,
};
use crate::parser::{code_only, empty_tables, lemma_parse_lines_no_ops, parse_lines};
use crate::token::{TokenLineV, TokenV};
use crate::parser::{lemma_parse_wf, parse_spec, parse_to_repr};
use crate::representation::{has_kind, NameType, OpParsingError, OpParsingErrorV, RepresentationV};
use crate::utility::LinedError;

verus! {

/// The stage that failed, with its error.
#[derive(Debug)]
pub enum PipelineError {
    Lexer(LinedError<LexError>),
    Parser(LinedError<OpParsingError>),
    Compiler(LinedError<CompilerError>),
}

/// The C text of a source, when every stage succeeds.
pub open spec fn source_to_c(s: Seq<char>) -> Option<Seq<char>> {
    match lex_source(s) {
        Err(_) => None,
        Ok(lines) => match parse_spec(lines) {
            Err(_) => None,
            Ok((t, ops)) => match compile_spec(RepresentationV { tables: t, ops }) {
                Err(_) => None,
                Ok(c) => Some(c),
            },
        },
    }
}

/// Runs the lexer, the parser and the code generator on a source text; the
/// first stage that fails ends the run with its error.
pub fn compile_gnalose_to_c(code: &str) -> (r: Result<String, PipelineError>)
    ensures
        r matches Ok(c) ==> source_to_c(code@) == Some(c@),
        r is Ok <==> source_to_c(code@) is Some,
        r matches Err(PipelineError::Lexer(e)) ==> lex_source(code@) == Err::<
            Seq<crate::token::TokenLineV>,
            (int, Seq<char>),
        >((e.line as int, e.related_text@)),
        r matches Err(PipelineError::Parser(e)) ==> lex_source(code@) matches Ok(lines) && parse_spec(
            lines,
        ) == Err::<(crate::representation::Tables, Seq<crate::representation::OpLineV>), (int, Seq<char>, OpParsingErrorV)>(
            (e.line as int, e.related_text@, e.content@),
        ),
        r matches Err(PipelineError::Compiler(e)) ==> lex_source(code@) matches Ok(lines) && parse_spec(
            lines,
        ) matches Ok((t, ops)) && compile_spec(RepresentationV { tables: t, ops }) matches Err((_, k))
            && k == e.content,
{
    let tokens = match tokenize(code) {
        Ok(t) => t,
        Err(e) => {
            return Err(PipelineError::Lexer(e));
        },
    };
    let repr = match parse_to_repr(&tokens) {
        Ok(r) => r,
        Err(e) => {
            return Err(PipelineError::Parser(e));
        },
    };
    proof {
        assert(crate::lexer::token_lines_view(tokens@).len() == tokens.len());
        lemma_parse_wf(crate::lexer::token_lines_view(tokens@));
    }
    match compile(&repr) {
        Ok(c) => Ok(c),
        Err(e) => Err(PipelineError::Compiler(e)),
    }
}

proof fn lemma_lines_count(s: Seq<char>, start: int, i: int)
    requires
        0 <= start <= i,
    ensures
        lines_from(s, start, i).len() <= if start <= s.len() { s.len() - start } else { 0 },
    decreases s.len() - i,
{
    if i < s.len() {
        if s[i] == '\n' {
            lemma_lines_count(s, i + 1, i + 1);
        } else {
            lemma_lines_count(s, start, i + 1);
        }
    }
}

proof fn lemma_lex_lines_len(ls: Seq<Seq<char>>, k: int)
    requires
        0 <= k <= ls.len(),
    ensures
        lex_lines(ls, k) matches Ok(v) ==> v.len() == ls.len() - k,
    decreases ls.len() - k,
{
    if k < ls.len() {
        lemma_lex_lines_len(ls, k + 1);
    }
}

/// After the lexer and the parser succeed on a source, every operation's line
/// number lies between 1 and the number of lines of the source.
pub proof fn lemma_line_numbers_in_source(s: Seq<char>)
    requires
        s.len() <= usize::MAX,
    ensures
        lex_source(s) matches Ok(lines) ==> (parse_spec(lines) matches Ok((t, ops)) ==> forall|k: int|
            0 <= k < ops.len() ==> 1 <= (#[trigger] ops[k]).line_num <= lines_of(s).len()),
{
    lemma_lines_count(s, 0, 0);
    lemma_lex_lines_len(lines_of(s), 0);
    if let Ok(lines) = lex_source(s) {
        lemma_parse_wf(lines);
    }
}

/// A parse gives each name at most one kind: variable, array or label.
pub proof fn lemma_one_kind_per_name(lines: Seq<crate::token::TokenLineV>, n: Seq<char>, k1: NameType, k2: NameType)
    requires
        lines.len() <= usize::MAX,
    ensures
        parse_spec(lines) matches Ok((t, _)) ==> (has_kind(t, n, k1) && has_kind(t, n, k2) ==> k1 == k2),
{
    lemma_parse_wf(lines);
}

/// A line that, once trimmed, holds nothing but white space after its last `/`.
pub open spec fn only_comments(line: Seq<char>) -> bool {
    let code = comment_split(trim(line), 0, 0).1;
    forall|m: int| 0 <= m < code.len() ==> is_ws(#[trigger] code[m])
}

pub open spec fn all_comments(ts: Seq<TokenV>) -> bool {
    forall|m: int| 0 <= m < ts.len() ==> (#[trigger] ts[m]) is Comment
}

proof fn lemma_blank_code(code: Seq<char>)
    requires
        forall|m: int| 0 <= m < code.len() ==> is_ws(#[trigger] code[m]),
    ensures
        code_tokens(code, 0) == Ok::<Seq<TokenV>, Seq<char>>(Seq::empty()),
{
    assert forall|m: int| 0 <= m < code.len() implies crate::lexer::in_run(#[trigger] code[m], Run::Space) by {
        assert(is_ws(code[m]));
    }
    lemma_run_end_step(code, 0, code.len() as int, Run::Space);
    assert(run_end(code, code.len() as int, Run::Space) == code.len());
    assert(next_token(code, 0) == Ok::<Option<(int, TokenV)>, Seq<char>>(None));
}

proof fn lemma_split_comments(s: Seq<char>, seg: int, i: int)
    ensures
        all_comments(comment_split(s, seg, i).0),
    decreases s.len() - i,
{
    if i < s.len() {
        if s[i] == '/' {
            lemma_split_comments(s, i + 1, i + 1);
            let r = comment_split(s, i + 1, i + 1);
            let c = seq![TokenV::Comment(s.subrange(seg, i))] + r.0;
            assert forall|m: int| 0 <= m < c.len() implies (#[trigger] c[m]) is Comment by {
                if m > 0 {
                    assert(c[m] == r.0[m - 1]);
                }
            }
        } else {
            lemma_split_comments(s, seg, i + 1);
        }
    }
}

proof fn lemma_code_only_comments(ts: Seq<TokenV>)
    requires
        all_comments(ts),
    ensures
        code_only(ts).len() == 0,
    decreases ts.len(),
{
    if ts.len() > 0 {
        assert(ts.last() == ts[ts.len() - 1]);
        lemma_code_only_comments(ts.drop_last());
    }
}

proof fn lemma_lex_comment_lines(ls: Seq<Seq<char>>, k: int)
    requires
        0 <= k <= ls.len(),
        forall|j: int| 0 <= j < ls.len() ==> only_comments(#[trigger] ls[j]),
    ensures
        lex_lines(ls, k) matches Ok(v) && forall|j: int| 0 <= j < v.len() ==> code_only(
            (#[trigger] v[j]).tokens,
        ).len() == 0,
    decreases ls.len() - k,
{
    if k < ls.len() {
        let line = ls[ls.len() - 1 - k];
        assert(only_comments(line));
        let (comments, code) = comment_split(trim(line), 0, 0);
        lemma_blank_code(code);
        lemma_split_comments(trim(line), 0, 0);
        assert(comments + Seq::<TokenV>::empty() =~= comments);
        assert(line_tokens(trim(line)) == Ok::<Seq<TokenV>, Seq<char>>(comments));
        lemma_code_only_comments(comments);
        lemma_lex_comment_lines(ls, k + 1);
        let rest = lex_lines(ls, k + 1)->Ok_0;
        let v = seq![TokenLineV { tokens: comments, line }] + rest;
        assert forall|j: int| 0 <= j < v.len() implies code_only((#[trigger] v[j]).tokens).len() == 0 by {
            if j > 0 {
                assert(v[j] == rest[j - 1]);
            }
        }
    }
}

proof fn lemma_parse_comment_lines(lines: Seq<TokenLineV>, i: int, t: crate::representation::Tables, ops: Seq<crate::representation::OpLineV>)
    requires
        0 <= i,
        forall|j: int| 0 <= j < lines.len() ==> code_only((#[trigger] lines[j]).tokens).len() == 0,
    ensures
        parse_lines(lines, i, t, ops) == Ok::<
            (crate::representation::Tables, Seq<crate::representation::OpLineV>),
            (int, Seq<char>, OpParsingErrorV),
        >((t, ops)),
    decreases lines.len() - i,
{
    if i < lines.len() {
        assert(code_only(lines[i].tokens).len() == 0);
        lemma_parse_comment_lines(lines, i + 1, t, ops);
    }
}

/// A source whose lines hold only comments and white space (the empty source
/// among them) compiles to exactly `int main(){}`.
pub proof fn lemma_comment_only_source(s: Seq<char>)
    requires
        forall|k: int| 0 <= k < lines_of(s).len() ==> only_comments(#[trigger] lines_of(s)[k]),
    ensures
        source_to_c(s) == Some(EMPTY_PROGRAM@),
{
    lemma_lex_comment_lines(lines_of(s), 0);
    let lines = lex_source(s)->Ok_0;
    lemma_parse_comment_lines(lines, 0, empty_tables(), Seq::empty());
}

/// Every name that the parser interned stands in the emitted C: a variable
/// `n` as `__n`, an array as `_a_n`, a label's flag as `_isOn_f_n`, each in
/// its declaration and in its leak check.
pub proof fn lemma_names_in_output(s: Seq<char>)
    ensures
        source_to_c(s) matches Some(c) ==> (lex_source(s) matches Ok(lines) && parse_spec(lines) matches Ok(
            (t, _),
        ) && (forall|k: int| 0 <= k < t.vars.len() ==> occurs_in(var_decl(#[trigger] t.vars[k]), c) && occurs_in(
            var_leak(t.vars[k]),
            c,
        )) && (forall|k: int| 0 <= k < t.arrays.len() ==> occurs_in(array_decl(#[trigger] t.arrays[k]), c)
            && occurs_in(array_leak(t.arrays[k]), c)) && (forall|k: int| 0 <= k < t.flags.len() ==> occurs_in(
            flag_decl(#[trigger] t.flags[k]),
            c,
        ) && occurs_in(flag_leak(t.flags[k]), c))),
{
    if let Ok(lines) = lex_source(s) {
        lemma_parse_lines_no_ops(lines, 0, empty_tables(), Seq::empty());
        if let Ok((t, ops)) = parse_spec(lines) {
            if let Ok(b) = crate::compiler::block(RepresentationV { tables: t, ops }, 0, Seq::empty()) {
                lemma_program_declares_names(t, b.code);
            }
        }
    }
}

} // verus!
