//! From token lines to the intermediate representation.
use vstd::prelude::*;
use crate::representation::{
    array_names_of, arrays_view, avalue_ok, distinct_names, find_array, find_name, fits, grows,
    lemma_position, names_view, op_lines_view, op_ok, position, repr_wf, tables_wf, vvalue_ok, AValue,
    AllowedKind, ArrayElement, ArrayRef, ConditionType, FlagRef, HigherToken, HigherTokenV, IValue,
    NameOrNumber, NameOrNumberV, NameType, Op, OpLine, OpLineV, OpParsingError, OpParsingErrorV, RValue,
    Representation, Tables, VValue,
};
use crate::lexer::{token_lines_view, tokens_view};
use crate::token::{ParenthesisSide, Token, TokenLine, TokenLineV, TokenV};
use crate::utility::LinedError;

verus! {

// ---------------------------------------------------------------------------
// Operands: from tokens to higher tokens.
// ---------------------------------------------------------------------------

/// The operand that starts at token `i`, with the position after it; `None`
/// at the end of the line or where brackets do not form an array operand.
pub open spec fn higher_next(ts: Seq<TokenV>, i: int) -> Option<(int, HigherTokenV)> {
    if i < 0 || i >= ts.len() {
        None
    } else {
        match ts[i] {
            TokenV::Name(name) => {
                if i + 1 < ts.len() && ts[i + 1] is ArrayBracket {
                    if ts[i + 1] == TokenV::ArrayBracket(ParenthesisSide::Right) || i + 3 >= ts.len() {
                        None
                    } else {
                        let index = match ts[i + 2] {
                            TokenV::Name(n) => Some(NameOrNumberV::String(n)),
                            TokenV::Literal(v) => Some(NameOrNumberV::Number(v)),
                            _ => None,
                        };
                        if index is Some && ts[i + 3] == TokenV::ArrayBracket(ParenthesisSide::Right) {
                            Some((i + 4, HigherTokenV::Array(name, index->0)))
                        } else {
                            None
                        }
                    }
                } else {
                    Some((i + 1, HigherTokenV::Name(name)))
                }
            },
            TokenV::Literal(l) => Some((i + 1, HigherTokenV::Literal(l))),
            _ => None,
        }
    }
}

/// The operands of a line, from token `i` up to the first token that does not
/// start one.
pub open spec fn higher_tokens(ts: Seq<TokenV>, i: int) -> Seq<HigherTokenV>
    decreases ts.len() - i,
{
    match higher_next(ts, i) {
        None => Seq::empty(),
        Some((k, h)) => if k > i {
            seq![h] + higher_tokens(ts, k)
        } else {
            Seq::empty()
        },
    }
}

/// The tokens of a line that are not comments.
pub open spec fn code_only(ts: Seq<TokenV>) -> Seq<TokenV>
    decreases ts.len(),
{
    if ts.len() == 0 {
        Seq::empty()
    } else if ts.last() is Comment {
        code_only(ts.drop_last())
    } else {
        code_only(ts.drop_last()).push(ts.last())
    }
}

// ---------------------------------------------------------------------------
// Names: looking up and interning against the three tables.
// ---------------------------------------------------------------------------

/// The kind other than `k` that `n` already has, if any.
pub open spec fn kind_conflict(t: Tables, n: Seq<char>, k: NameType) -> Option<NameType> {
    if k != NameType::Variable && t.vars.contains(n) {
        Some(NameType::Variable)
    } else if k != NameType::Array && array_names_of(t.arrays).contains(n) {
        Some(NameType::Array)
    } else if k != NameType::Flag && t.flags.contains(n) {
        Some(NameType::Flag)
    } else {
        None
    }
}

pub open spec fn read_var(t: Tables, n: Seq<char>) -> Result<RValue, OpParsingErrorV> {
    match kind_conflict(t, n, NameType::Variable) {
        Some(o) => Err(OpParsingErrorV::NameUsedTwice(n, o, NameType::Variable)),
        None => match position(t.vars, n) {
            Some(i) => Ok(RValue(i as usize)),
            None => Err(OpParsingErrorV::NotDefinedVariable(n, NameType::Variable)),
        },
    }
}

pub open spec fn intern_var(t: Tables, n: Seq<char>) -> (Tables, Result<RValue, OpParsingErrorV>) {
    match kind_conflict(t, n, NameType::Variable) {
        Some(o) => (t, Err(OpParsingErrorV::NameUsedTwice(n, o, NameType::Variable))),
        None => match position(t.vars, n) {
            Some(i) => (t, Ok(RValue(i as usize))),
            None => (Tables { vars: t.vars.push(n), ..t }, Ok(RValue(t.vars.len() as usize))),
        },
    }
}

pub open spec fn read_array(t: Tables, n: Seq<char>) -> Result<ArrayRef, OpParsingErrorV> {
    match kind_conflict(t, n, NameType::Array) {
        Some(o) => Err(OpParsingErrorV::NameUsedTwice(n, o, NameType::Array)),
        None => match position(array_names_of(t.arrays), n) {
            Some(i) => Ok(ArrayRef(i as usize)),
            None => Err(OpParsingErrorV::NotDefinedVariable(n, NameType::Array)),
        },
    }
}

/// An array definition: a new array gets `size`; a known one keeps its size.
pub open spec fn define_array(t: Tables, n: Seq<char>, size: usize) -> (
    Tables,
    Result<ArrayRef, OpParsingErrorV>,
) {
    match kind_conflict(t, n, NameType::Array) {
        Some(o) => (t, Err(OpParsingErrorV::NameUsedTwice(n, o, NameType::Array))),
        None => match position(array_names_of(t.arrays), n) {
            Some(i) => (t, Ok(ArrayRef(i as usize))),
            None => (
                Tables { arrays: t.arrays.push((n, size)), ..t },
                Ok(ArrayRef(t.arrays.len() as usize)),
            ),
        },
    }
}

pub open spec fn read_flag(t: Tables, n: Seq<char>) -> Result<FlagRef, OpParsingErrorV> {
    match kind_conflict(t, n, NameType::Flag) {
        Some(o) => Err(OpParsingErrorV::NameUsedTwice(n, o, NameType::Flag)),
        None => match position(t.flags, n) {
            Some(i) => Ok(FlagRef(i as usize)),
            None => Err(OpParsingErrorV::NotDefinedVariable(n, NameType::Flag)),
        },
    }
}

/// A label definition; a label may be defined once only.
pub open spec fn mark_flag(t: Tables, n: Seq<char>) -> (Tables, Result<FlagRef, OpParsingErrorV>) {
    match kind_conflict(t, n, NameType::Flag) {
        Some(o) => (t, Err(OpParsingErrorV::NameUsedTwice(n, o, NameType::Flag))),
        None => if t.flags.contains(n) {
            (t, Err(OpParsingErrorV::DoubleLabel(n)))
        } else {
            (Tables { flags: t.flags.push(n), ..t }, Ok(FlagRef(t.flags.len() as usize)))
        },
    }
}

/// An array index: a literal, or a variable, interned when first seen.
pub open spec fn index_value(t: Tables, i: NameOrNumberV) -> (Tables, Result<IValue, OpParsingErrorV>) {
    match i {
        NameOrNumberV::Number(v) => (t, Ok(IValue::LValue(v))),
        NameOrNumberV::String(n) => {
            let (t2, r) = intern_var(t, n);
            match r {
                Ok(rv) => (t2, Ok(IValue::RValue(rv))),
                Err(e) => (t2, Err(e)),
            }
        },
    }
}

pub open spec fn array_element(t: Tables, n: Seq<char>, i: NameOrNumberV) -> (
    Tables,
    Result<ArrayElement, OpParsingErrorV>,
) {
    match read_array(t, n) {
        Err(e) => (t, Err(e)),
        Ok(a) => {
            let (t2, r) = index_value(t, i);
            match r {
                Ok(iv) => (t2, Ok(ArrayElement { array_ref: a, index: iv })),
                Err(e) => (t2, Err(e)),
            }
        },
    }
}

/// An operand in read position.
pub open spec fn aval(t: Tables, h: HigherTokenV) -> (Tables, Result<AValue, OpParsingErrorV>) {
    match h {
        HigherTokenV::Literal(l) => (t, Ok(AValue::LValue(l))),
        HigherTokenV::Name(n) => match read_var(t, n) {
            Ok(r) => (t, Ok(AValue::RValue(r))),
            Err(e) => (t, Err(e)),
        },
        HigherTokenV::Array(n, i) => {
            let (t2, r) = array_element(t, n, i);
            match r {
                Ok(e) => (t2, Ok(AValue::ArrayElement(e))),
                Err(e) => (t2, Err(e)),
            }
        },
    }
}

/// An operand in storage position.
pub open spec fn vval(t: Tables, h: HigherTokenV) -> (Tables, Result<VValue, OpParsingErrorV>) {
    match h {
        HigherTokenV::Literal(_) => (t, Err(OpParsingErrorV::InvalidStructure)),
        HigherTokenV::Name(n) => match read_var(t, n) {
            Ok(r) => (t, Ok(VValue::RValue(r))),
            Err(e) => (t, Err(e)),
        },
        HigherTokenV::Array(n, i) => {
            let (t2, r) = array_element(t, n, i);
            match r {
                Ok(e) => (t2, Ok(VValue::ArrayElement(e))),
                Err(e) => (t2, Err(e)),
            }
        },
    }
}

// ---------------------------------------------------------------------------
// Commands.
// ---------------------------------------------------------------------------

/// Whether operand `i` of the line is the keyword `w`.
pub open spec fn word(h: Seq<HigherTokenV>, i: int, w: Seq<char>) -> bool {
    0 <= i < h.len() && h[i] == HigherTokenV::Name(w)
}

pub open spec fn slot(h: Seq<HigherTokenV>, i: int, k: AllowedKind) -> bool {
    0 <= i < h.len() && fits(k, h[i])
}

/// An operation on a value and a storage cell.
pub open spec fn math_op(t: Tables, a: HigherTokenV, v: HigherTokenV, add: bool) -> (
    Tables,
    Result<Op, OpParsingErrorV>,
) {
    let (t1, ra) = aval(t, a);
    match ra {
        Err(e) => (t1, Err(e)),
        Ok(x) => {
            let (t2, rv) = vval(t1, v);
            match rv {
                Err(e) => (t2, Err(e)),
                Ok(y) => (t2, Ok(if add { Op::Add(x, y) } else { Op::Subtract(x, y) })),
            }
        },
    }
}

/// A conditional on two values.
pub open spec fn if_op(t: Tables, a: HigherTokenV, b: HigherTokenV, c: ConditionType) -> (
    Tables,
    Result<Op, OpParsingErrorV>,
) {
    let (t1, ra) = aval(t, a);
    match ra {
        Err(e) => (t1, Err(e)),
        Ok(x) => {
            let (t2, rb) = aval(t1, b);
            match rb {
                Err(e) => (t2, Err(e)),
                Ok(y) => (t2, Ok(Op::If(x, y, c))),
            }
        },
    }
}

/// The tables with an operation that takes one value.
pub open spec fn with_op<X>(p: (Tables, Result<X, OpParsingErrorV>), f: spec_fn(X) -> Op) -> (
    Tables,
    Result<Op, OpParsingErrorV>,
) {
    match p.1 {
        Ok(x) => (p.0, Ok(f(x))),
        Err(e) => (p.0, Err(e)),
    }
}

/// The operation of one line of operands, by the first command template that
/// matches, with the tables after it. The surface words are inverted: `undefine`
/// defines, `define` undefines, `print` reads, `read to` prints, `add` subtracts,
/// `sub` adds, `unmark` marks, `mark` unmarks, `forget` pins, `halt` jumps; an
/// `if` holds the negation of the comparison written.
pub open spec fn parse_op(t: Tables, h: Seq<HigherTokenV>) -> (Tables, Result<Op, OpParsingErrorV>) {
    let n = h.len();
    if n == 3 && word(h, 0, "undefine"@) && word(h, 1, "single"@) && slot(h, 2, AllowedKind::ArrayRef) {
        match h[2] {
            HigherTokenV::Array(name, NameOrNumberV::Number(v)) => if v >= 0 {
                with_op(define_array(t, name, v as usize), |a: ArrayRef| Op::DefineArray(a))
            } else {
                (t, Err(OpParsingErrorV::InvalidStructure))
            },
            _ => (t, Err(OpParsingErrorV::InvalidStructure)),
        }
    } else if n == 3 && word(h, 0, "define"@) && word(h, 1, "single"@) && slot(h, 2, AllowedKind::Name) {
        with_op((t, read_array(t, h[2]->Name_0)), |a: ArrayRef| Op::UndefineArray(a))
    } else if n == 2 && word(h, 0, "undefine"@) && slot(h, 1, AllowedKind::Name) {
        with_op(intern_var(t, h[1]->Name_0), |r: RValue| Op::Define(r))
    } else if n == 2 && word(h, 0, "define"@) && slot(h, 1, AllowedKind::Name) {
        with_op((t, read_var(t, h[1]->Name_0)), |r: RValue| Op::Undefine(r))
    } else if n == 2 && word(h, 0, "print"@) && slot(h, 1, AllowedKind::VValue) {
        with_op(vval(t, h[1]), |v: VValue| Op::Read(v))
    } else if n == 3 && word(h, 0, "read"@) && word(h, 1, "to"@) && slot(h, 2, AllowedKind::VValue) {
        with_op(aval(t, h[2]), |a: AValue| Op::Print(a))
    } else if n == 5 && word(h, 0, "read"@) && word(h, 1, "as"@) && word(h, 2, "number"@) && word(
        h,
        3,
        "to"@,
    ) && slot(h, 4, AllowedKind::AValue) {
        with_op(aval(t, h[4]), |a: AValue| Op::PrintASCII(a))
    } else if n == 4 && word(h, 0, "add"@) && word(h, 2, "to"@) && slot(h, 1, AllowedKind::AValue)
        && slot(h, 3, AllowedKind::VValue) {
        math_op(t, h[1], h[3], false)
    } else if n == 4 && word(h, 0, "sub"@) && word(h, 2, "from"@) && slot(h, 1, AllowedKind::AValue)
        && slot(h, 3, AllowedKind::VValue) {
        math_op(t, h[1], h[3], true)
    } else if n == 2 && word(h, 0, "unmark"@) && slot(h, 1, AllowedKind::Name) {
        with_op(mark_flag(t, h[1]->Name_0), |f: FlagRef| Op::Mark(f))
    } else if n == 2 && word(h, 0, "mark"@) && slot(h, 1, AllowedKind::Name) {
        with_op((t, read_flag(t, h[1]->Name_0)), |f: FlagRef| Op::Unmark(f))
    } else if n == 2 && word(h, 0, "forget"@) && slot(h, 1, AllowedKind::Name) {
        with_op((t, read_flag(t, h[1]->Name_0)), |f: FlagRef| Op::Pin(f))
    } else if n == 1 && word(h, 0, "halt"@) {
        (t, Ok(Op::Goto))
    } else if n == 5 && word(h, 0, "if"@) && word(h, 2, "greater"@) && word(h, 3, "than"@) {
        if_op(t, h[1], h[4], ConditionType::LessOrEqual)
    } else if n == 6 && word(h, 0, "if"@) && word(h, 2, "not"@) && word(h, 3, "equal"@) && word(
        h,
        4,
        "to"@,
    ) {
        if_op(t, h[1], h[5], ConditionType::Equal)
    } else if n == 5 && word(h, 0, "if"@) && word(h, 2, "lower"@) && word(h, 3, "than"@) {
        if_op(t, h[1], h[4], ConditionType::GreaterOrEqual)
    } else if n == 5 && word(h, 0, "if"@) && word(h, 2, "equal"@) && word(h, 3, "to"@) {
        if_op(t, h[1], h[4], ConditionType::NotEqual)
    } else if n == 7 && word(h, 0, "if"@) && word(h, 2, "lower"@) && word(h, 3, "or"@) && word(
        h,
        4,
        "equal"@,
    ) && word(h, 5, "than"@) {
        if_op(t, h[1], h[6], ConditionType::Greater)
    } else if n == 7 && word(h, 0, "if"@) && word(h, 2, "greater"@) && word(h, 3, "or"@) && word(
        h,
        4,
        "equal"@,
    ) && word(h, 5, "than"@) {
        if_op(t, h[1], h[6], ConditionType::Less)
    } else if n == 1 && word(h, 0, "fi"@) {
        (t, Ok(Op::Fi))
    } else {
        (t, Err(OpParsingErrorV::InvalidStructure))
    }
}

/// The operation of one line of tokens, `None` for a line of comments only.
pub open spec fn parse_line_spec(t: Tables, ts: Seq<TokenV>) -> (Tables, Result<Option<Op>, OpParsingErrorV>) {
    let code = code_only(ts);
    if code.len() == 0 {
        (t, Ok(None))
    } else {
        let (t2, r) = parse_op(t, higher_tokens(code, 0));
        match r {
            Ok(op) => (t2, Ok(Some(op))),
            Err(e) => (t2, Err(e)),
        }
    }
}

/// The parse of token lines `i` on, with the tables and operations so far;
/// an error holds the 1-based line, the line's text and the cause.
pub open spec fn parse_lines(lines: Seq<TokenLineV>, i: int, t: Tables, ops: Seq<OpLineV>) -> Result<
    (Tables, Seq<OpLineV>),
    (int, Seq<char>, OpParsingErrorV),
>
    decreases lines.len() - i,
{
    if i < 0 || i >= lines.len() {
        Ok((t, ops))
    } else {
        let (t2, r) = parse_line_spec(t, lines[i].tokens);
        match r {
            Err(e) => Err((i + 1, lines[i].line, e)),
            Ok(None) => parse_lines(lines, i + 1, t2, ops),
            Ok(Some(op)) => parse_lines(
                lines,
                i + 1,
                t2,
                ops.push(OpLineV { op, line_num: (i + 1) as usize, line_text: lines[i].line }),
            ),
        }
    }
}

pub open spec fn empty_tables() -> Tables {
    Tables { vars: Seq::empty(), arrays: Seq::empty(), flags: Seq::empty() }
}

/// What the parser makes of a sequence of token lines.
pub open spec fn parse_spec(lines: Seq<TokenLineV>) -> Result<(Tables, Seq<OpLineV>), (int, Seq<char>, OpParsingErrorV)> {
    parse_lines(lines, 0, empty_tables(), Seq::empty())
}

// ---------------------------------------------------------------------------
// The parser.
// ---------------------------------------------------------------------------

/// The name tables while the lines are parsed.
#[derive(Default)]
pub struct ParsingTempState {
    pub variables: Vec<String>,
    pub array_names: Vec<(String, usize)>,
    pub flags: Vec<String>,
}

impl View for ParsingTempState {
    type V = Tables;

    open spec fn view(&self) -> Tables {
        Tables {
            vars: names_view(self.variables@),
            arrays: arrays_view(self.array_names@),
            flags: names_view(self.flags@),
        }
    }
}

pub open spec fn res_view<X>(r: Result<X, OpParsingError>) -> Result<X, OpParsingErrorV> {
    match r {
        Ok(x) => Ok(x),
        Err(e) => Err(e@),
    }
}

proof fn lemma_contains_position(names: Seq<Seq<char>>, n: Seq<char>)
    ensures
        names.contains(n) <==> position(names, n) is Some,
{
    lemma_position(names, n);
}

impl ParsingTempState {
    pub fn new() -> (r: ParsingTempState)
        ensures
            r@ == empty_tables(),
    {
        let r = ParsingTempState { variables: Vec::new(), array_names: Vec::new(), flags: Vec::new() };
        assert(r@.vars =~= Seq::<Seq<char>>::empty());
        assert(r@.arrays =~= Seq::<(Seq<char>, usize)>::empty());
        assert(r@.flags =~= Seq::<Seq<char>>::empty());
        r
    }

    pub fn get_var(&self, t: &str) -> (r: Option<RValue>)
        ensures
            r matches Some(v) ==> position(self@.vars, t@) == Some(v.0 as int),
            r is None ==> position(self@.vars, t@) is None,
    {
        match find_name(&self.variables, &String::from_str(t)) {
            Some(i) => Some(RValue(i)),
            None => None,
        }
    }

    pub fn get_flag(&self, t: &str) -> (r: Option<FlagRef>)
        ensures
            r matches Some(f) ==> position(self@.flags, t@) == Some(f.0 as int),
            r is None ==> position(self@.flags, t@) is None,
    {
        match find_name(&self.flags, &String::from_str(t)) {
            Some(i) => Some(FlagRef(i)),
            None => None,
        }
    }

    pub fn get_array(&self, t: &str) -> (r: Option<ArrayRef>)
        ensures
            r matches Some(a) ==> position(array_names_of(self@.arrays), t@) == Some(a.0 as int),
            r is None ==> position(array_names_of(self@.arrays), t@) is None,
    {
        match find_array(&self.array_names, &String::from_str(t)) {
            Some(i) => Some(ArrayRef(i)),
            None => None,
        }
    }

    /// The variable named `t`, appended to the table when it is new.
    pub fn get_or_insert_var(&mut self, t: &str) -> (r: RValue)
        ensures
            position(old(self)@.vars, t@) matches Some(i) ==> r.0 == i && final(self)@ == old(self)@,
            position(old(self)@.vars, t@) is None ==> r.0 == old(self)@.vars.len() && final(self)@
                == (Tables { vars: old(self)@.vars.push(t@), ..old(self)@ }),
    {
        RValue(get_index_or_push(&mut self.variables, t))
    }

    /// The label named `t`, appended to the table when it is new.
    pub fn get_or_insert_flag(&mut self, t: &str) -> (r: FlagRef)
        ensures
            position(old(self)@.flags, t@) matches Some(i) ==> r.0 == i && final(self)@ == old(self)@,
            position(old(self)@.flags, t@) is None ==> r.0 == old(self)@.flags.len() && final(self)@
                == (Tables { flags: old(self)@.flags.push(t@), ..old(self)@ }),
    {
        FlagRef(get_index_or_push(&mut self.flags, t))
    }

    /// The array named `t`, appended with `size` to the table when it is new.
    pub fn get_or_insert_array(&mut self, t: &str, size: usize) -> (r: ArrayRef)
        ensures
            position(array_names_of(old(self)@.arrays), t@) matches Some(i) ==> r.0 == i
                && final(self)@ == old(self)@,
            position(array_names_of(old(self)@.arrays), t@) is None ==> r.0 == old(self)@.arrays.len()
                && final(self)@ == (Tables { arrays: old(self)@.arrays.push((t@, size)), ..old(self)@ }),
    {
        let name = String::from_str(t);
        match find_array(&self.array_names, &name) {
            Some(i) => ArrayRef(i),
            None => {
                let ghost before = self.array_names@;
                self.array_names.push((name, size));
                assert(arrays_view(self.array_names@) =~= arrays_view(before).push((t@, size)));
                ArrayRef(self.array_names.len() - 1)
            },
        }
    }

    /// The kind other than `k` that the name `t` already has.
    pub fn kind_conflict(&self, t: &str, k: NameType) -> (r: Option<NameType>)
        ensures
            r == kind_conflict(self@, t@, k),
    {
        proof {
            lemma_contains_position(self@.vars, t@);
            lemma_contains_position(array_names_of(self@.arrays), t@);
            lemma_contains_position(self@.flags, t@);
        }
        if k != NameType::Variable && self.get_var(t).is_some() {
            Some(NameType::Variable)
        } else if k != NameType::Array && self.get_array(t).is_some() {
            Some(NameType::Array)
        } else if k != NameType::Flag && self.get_flag(t).is_some() {
            Some(NameType::Flag)
        } else {
            None
        }
    }
}

fn get_index_or_push(vec: &mut Vec<String>, key: &str) -> (r: usize)
    ensures
        position(names_view(old(vec)@), key@) matches Some(i) ==> r == i && final(vec)@ == old(vec)@,
        position(names_view(old(vec)@), key@) is None ==> r == old(vec).len() && names_view(final(vec)@)
            == names_view(old(vec)@).push(key@),
{
    let k = String::from_str(key);
    match find_name(vec, &k) {
        Some(i) => i,
        None => {
            let ghost before = vec@;
            vec.push(k);
            assert(names_view(vec@) =~= names_view(before).push(key@));
            vec.len() - 1
        },
    }
}

fn read_var_exec(data: &ParsingTempState, n: &String) -> (r: Result<RValue, OpParsingError>)
    ensures
        res_view(r) == read_var(data@, n@),
{
    match data.kind_conflict(n.as_str(), NameType::Variable) {
        Some(o) => Err(OpParsingError::NameUsedTwice(n.clone(), o, NameType::Variable)),
        None => match data.get_var(n.as_str()) {
            Some(v) => Ok(v),
            None => Err(OpParsingError::NotDefinedVariable(n.clone(), NameType::Variable)),
        },
    }
}

fn intern_var_exec(data: &mut ParsingTempState, n: &String) -> (r: Result<RValue, OpParsingError>)
    ensures
        res_view(r) == intern_var(old(data)@, n@).1,
        r is Ok ==> final(data)@ == intern_var(old(data)@, n@).0,
{
    match data.kind_conflict(n.as_str(), NameType::Variable) {
        Some(o) => Err(OpParsingError::NameUsedTwice(n.clone(), o, NameType::Variable)),
        None => Ok(data.get_or_insert_var(n.as_str())),
    }
}

fn read_array_exec(data: &ParsingTempState, n: &String) -> (r: Result<ArrayRef, OpParsingError>)
    ensures
        res_view(r) == read_array(data@, n@),
{
    match data.kind_conflict(n.as_str(), NameType::Array) {
        Some(o) => Err(OpParsingError::NameUsedTwice(n.clone(), o, NameType::Array)),
        None => match data.get_array(n.as_str()) {
            Some(a) => Ok(a),
            None => Err(OpParsingError::NotDefinedVariable(n.clone(), NameType::Array)),
        },
    }
}

fn define_array_exec(data: &mut ParsingTempState, n: &String, size: usize) -> (r: Result<ArrayRef, OpParsingError>)
    ensures
        res_view(r) == define_array(old(data)@, n@, size).1,
        r is Ok ==> final(data)@ == define_array(old(data)@, n@, size).0,
{
    match data.kind_conflict(n.as_str(), NameType::Array) {
        Some(o) => Err(OpParsingError::NameUsedTwice(n.clone(), o, NameType::Array)),
        None => Ok(data.get_or_insert_array(n.as_str(), size)),
    }
}

fn read_flag_exec(data: &ParsingTempState, n: &String) -> (r: Result<FlagRef, OpParsingError>)
    ensures
        res_view(r) == read_flag(data@, n@),
{
    match data.kind_conflict(n.as_str(), NameType::Flag) {
        Some(o) => Err(OpParsingError::NameUsedTwice(n.clone(), o, NameType::Flag)),
        None => match data.get_flag(n.as_str()) {
            Some(f) => Ok(f),
            None => Err(OpParsingError::NotDefinedVariable(n.clone(), NameType::Flag)),
        },
    }
}

fn mark_flag_exec(data: &mut ParsingTempState, n: &String) -> (r: Result<FlagRef, OpParsingError>)
    ensures
        res_view(r) == mark_flag(old(data)@, n@).1,
        r is Ok ==> final(data)@ == mark_flag(old(data)@, n@).0,
{
    proof {
        lemma_contains_position(data@.flags, n@);
    }
    match data.kind_conflict(n.as_str(), NameType::Flag) {
        Some(o) => Err(OpParsingError::NameUsedTwice(n.clone(), o, NameType::Flag)),
        None => if data.get_flag(n.as_str()).is_some() {
            Err(OpParsingError::DoubleLabel(n.clone()))
        } else {
            Ok(data.get_or_insert_flag(n.as_str()))
        },
    }
}

fn upgrade_name_or_number_to_ivalue(data: &mut ParsingTempState, l: &NameOrNumber) -> (r: Result<IValue, OpParsingError>)
    ensures
        res_view(r) == index_value(old(data)@, l@).1,
        r is Ok ==> final(data)@ == index_value(old(data)@, l@).0,
{
    match l {
        NameOrNumber::Number(v) => Ok(IValue::LValue(*v)),
        NameOrNumber::String(t) => match intern_var_exec(data, t) {
            Ok(rv) => Ok(IValue::RValue(rv)),
            Err(e) => Err(e),
        },
    }
}

fn array_element_exec(data: &mut ParsingTempState, n: &String, i: &NameOrNumber) -> (r: Result<ArrayElement, OpParsingError>)
    ensures
        res_view(r) == array_element(old(data)@, n@, i@).1,
        r is Ok ==> final(data)@ == array_element(old(data)@, n@, i@).0,
{
    match read_array_exec(data, n) {
        Err(e) => Err(e),
        Ok(a) => match upgrade_name_or_number_to_ivalue(data, i) {
            Ok(iv) => Ok(ArrayElement { array_ref: a, index: iv }),
            Err(e) => Err(e),
        },
    }
}

fn token_to_avalue(data: &mut ParsingTempState, l: &HigherToken) -> (r: Result<AValue, OpParsingError>)
    ensures
        res_view(r) == aval(old(data)@, l@).1,
        r is Ok ==> final(data)@ == aval(old(data)@, l@).0,
{
    match l {
        HigherToken::Literal(literal) => Ok(AValue::LValue(*literal)),
        HigherToken::Name(name) => match read_var_exec(data, name) {
            Ok(r) => Ok(AValue::RValue(r)),
            Err(e) => Err(e),
        },
        HigherToken::Array(name, index) => match array_element_exec(data, name, index) {
            Ok(e) => Ok(AValue::ArrayElement(e)),
            Err(e) => Err(e),
        },
    }
}

fn token_force_to_vvalue(data: &mut ParsingTempState, l: &HigherToken) -> (r: Result<VValue, OpParsingError>)
    ensures
        res_view(r) == vval(old(data)@, l@).1,
        r is Ok ==> final(data)@ == vval(old(data)@, l@).0,
{
    match l {
        HigherToken::Literal(_) => Err(OpParsingError::InvalidStructure),
        HigherToken::Name(name) => match read_var_exec(data, name) {
            Ok(r) => Ok(VValue::RValue(r)),
            Err(e) => Err(e),
        },
        HigherToken::Array(name, index) => match array_element_exec(data, name, index) {
            Ok(e) => Ok(VValue::ArrayElement(e)),
            Err(e) => Err(e),
        },
    }
}

pub open spec fn higher_view(h: Seq<HigherToken>) -> Seq<HigherTokenV> {
    h.map_values(|t: HigherToken| t@)
}

/// Whether operand `i` of `h` is the keyword `w`.
fn is_word(h: &Vec<HigherToken>, i: usize, w: &str) -> (r: bool)
    ensures
        r == word(higher_view(h@), i as int, w@),
{
    if i >= h.len() {
        return false;
    }
    match &h[i] {
        HigherToken::Name(n) => *n == String::from_str(w),
        _ => false,
    }
}

fn has_slot(h: &Vec<HigherToken>, i: usize, k: AllowedKind) -> (r: bool)
    ensures
        r == slot(higher_view(h@), i as int, k),
{
    i < h.len() && k.check(&h[i])
}

fn math_op_exec(data: &mut ParsingTempState, a: &HigherToken, v: &HigherToken, add: bool) -> (r: Result<Op, OpParsingError>)
    ensures
        res_view(r) == math_op(old(data)@, a@, v@, add).1,
        r is Ok ==> final(data)@ == math_op(old(data)@, a@, v@, add).0,
{
    let x = match token_to_avalue(data, a) {
        Ok(x) => x,
        Err(e) => {
            return Err(e);
        },
    };
    let y = match token_force_to_vvalue(data, v) {
        Ok(y) => y,
        Err(e) => {
            return Err(e);
        },
    };
    if add {
        Ok(Op::Add(x, y))
    } else {
        Ok(Op::Subtract(x, y))
    }
}

fn if_op_exec(data: &mut ParsingTempState, a: &HigherToken, b: &HigherToken, c: ConditionType) -> (r: Result<Op, OpParsingError>)
    ensures
        res_view(r) == if_op(old(data)@, a@, b@, c).1,
        r is Ok ==> final(data)@ == if_op(old(data)@, a@, b@, c).0,
{
    let x = match token_to_avalue(data, a) {
        Ok(x) => x,
        Err(e) => {
            return Err(e);
        },
    };
    let y = match token_to_avalue(data, b) {
        Ok(y) => y,
        Err(e) => {
            return Err(e);
        },
    };
    Ok(Op::If(x, y, c))
}

/// The operation of one line of operands (see `parse_op`).
fn parse_operands(data: &mut ParsingTempState, h: &Vec<HigherToken>) -> (r: Result<Op, OpParsingError>)
    ensures
        res_view(r) == parse_op(old(data)@, higher_view(h@)).1,
        r is Ok ==> final(data)@ == parse_op(old(data)@, higher_view(h@)).0,
{
    let ghost hv = higher_view(h@);
    let n = h.len();
    // array definitions and undefinitions come before the scalar ones
    if n == 3 && is_word(h, 0, "undefine") && is_word(h, 1, "single") && has_slot(h, 2, AllowedKind::ArrayRef) {
        return match &h[2] {
            HigherToken::Array(name, NameOrNumber::Number(v)) => if *v >= 0 {
                match define_array_exec(data, name, *v as usize) {
                    Ok(a) => Ok(Op::DefineArray(a)),
                    Err(e) => Err(e),
                }
            } else {
                Err(OpParsingError::InvalidStructure)
            },
            _ => Err(OpParsingError::InvalidStructure),
        };
    }
    if n == 3 && is_word(h, 0, "define") && is_word(h, 1, "single") && has_slot(h, 2, AllowedKind::Name) {
        return match &h[2] {
            HigherToken::Name(name) => match read_array_exec(data, name) {
                Ok(a) => Ok(Op::UndefineArray(a)),
                Err(e) => Err(e),
            },
            _ => Err(OpParsingError::InvalidStructure),
        };
    }
    if n == 2 && is_word(h, 0, "undefine") && has_slot(h, 1, AllowedKind::Name) {
        return match &h[1] {
            HigherToken::Name(name) => match intern_var_exec(data, name) {
                Ok(v) => Ok(Op::Define(v)),
                Err(e) => Err(e),
            },
            _ => Err(OpParsingError::InvalidStructure),
        };
    }
    if n == 2 && is_word(h, 0, "define") && has_slot(h, 1, AllowedKind::Name) {
        return match &h[1] {
            HigherToken::Name(name) => match read_var_exec(data, name) {
                Ok(v) => Ok(Op::Undefine(v)),
                Err(e) => Err(e),
            },
            _ => Err(OpParsingError::InvalidStructure),
        };
    }
    if n == 2 && is_word(h, 0, "print") && has_slot(h, 1, AllowedKind::VValue) {
        return match token_force_to_vvalue(data, &h[1]) {
            Ok(v) => Ok(Op::Read(v)),
            Err(e) => Err(e),
        };
    }
    if n == 3 && is_word(h, 0, "read") && is_word(h, 1, "to") && has_slot(h, 2, AllowedKind::VValue) {
        return match token_to_avalue(data, &h[2]) {
            Ok(a) => Ok(Op::Print(a)),
            Err(e) => Err(e),
        };
    }
    if n == 5 && is_word(h, 0, "read") && is_word(h, 1, "as") && is_word(h, 2, "number") && is_word(h, 3, "to")
        && has_slot(h, 4, AllowedKind::AValue) {
        return match token_to_avalue(data, &h[4]) {
            Ok(a) => Ok(Op::PrintASCII(a)),
            Err(e) => Err(e),
        };
    }
    if n == 4 && is_word(h, 0, "add") && is_word(h, 2, "to") && has_slot(h, 1, AllowedKind::AValue)
        && has_slot(h, 3, AllowedKind::VValue) {
        return math_op_exec(data, &h[1], &h[3], false);
    }
    if n == 4 && is_word(h, 0, "sub") && is_word(h, 2, "from") && has_slot(h, 1, AllowedKind::AValue)
        && has_slot(h, 3, AllowedKind::VValue) {
        return math_op_exec(data, &h[1], &h[3], true);
    }
    if n == 2 && is_word(h, 0, "unmark") && has_slot(h, 1, AllowedKind::Name) {
        return match &h[1] {
            HigherToken::Name(name) => match mark_flag_exec(data, name) {
                Ok(f) => Ok(Op::Mark(f)),
                Err(e) => Err(e),
            },
            _ => Err(OpParsingError::InvalidStructure),
        };
    }
    if n == 2 && is_word(h, 0, "mark") && has_slot(h, 1, AllowedKind::Name) {
        return match &h[1] {
            HigherToken::Name(name) => match read_flag_exec(data, name) {
                Ok(f) => Ok(Op::Unmark(f)),
                Err(e) => Err(e),
            },
            _ => Err(OpParsingError::InvalidStructure),
        };
    }
    if n == 2 && is_word(h, 0, "forget") && has_slot(h, 1, AllowedKind::Name) {
        return match &h[1] {
            HigherToken::Name(name) => match read_flag_exec(data, name) {
                Ok(f) => Ok(Op::Pin(f)),
                Err(e) => Err(e),
            },
            _ => Err(OpParsingError::InvalidStructure),
        };
    }
    if n == 1 && is_word(h, 0, "halt") {
        return Ok(Op::Goto);
    }
    if n == 5 && is_word(h, 0, "if") && is_word(h, 2, "greater") && is_word(h, 3, "than") {
        return if_op_exec(data, &h[1], &h[4], ConditionType::LessOrEqual);
    }
    if n == 6 && is_word(h, 0, "if") && is_word(h, 2, "not") && is_word(h, 3, "equal") && is_word(h, 4, "to") {
        return if_op_exec(data, &h[1], &h[5], ConditionType::Equal);
    }
    if n == 5 && is_word(h, 0, "if") && is_word(h, 2, "lower") && is_word(h, 3, "than") {
        return if_op_exec(data, &h[1], &h[4], ConditionType::GreaterOrEqual);
    }
    if n == 5 && is_word(h, 0, "if") && is_word(h, 2, "equal") && is_word(h, 3, "to") {
        return if_op_exec(data, &h[1], &h[4], ConditionType::NotEqual);
    }
    if n == 7 && is_word(h, 0, "if") && is_word(h, 2, "lower") && is_word(h, 3, "or") && is_word(h, 4, "equal")
        && is_word(h, 5, "than") {
        return if_op_exec(data, &h[1], &h[6], ConditionType::Greater);
    }
    if n == 7 && is_word(h, 0, "if") && is_word(h, 2, "greater") && is_word(h, 3, "or") && is_word(h, 4, "equal")
        && is_word(h, 5, "than") {
        return if_op_exec(data, &h[1], &h[6], ConditionType::Less);
    }
    if n == 1 && is_word(h, 0, "fi") {
        return Ok(Op::Fi);
    }
    Err(OpParsingError::InvalidStructure)
}

/// The operand that starts at token `i` (see `higher_next`).
fn tokens_to_higher_tokens_next(tokens: &Vec<Token>, i: usize) -> (r: Option<(usize, HigherToken)>)
    ensures
        match r {
            Some((k, h)) => higher_next(tokens_view(tokens@), i as int) == Some((k as int, h@)),
            None => higher_next(tokens_view(tokens@), i as int) is None,
        },
{
    if i >= tokens.len() {
        return None;
    }
    match &tokens[i] {
        Token::Name(name) => {
            if i + 1 < tokens.len() {
                if let Token::ArrayBracket(side) = &tokens[i + 1] {
                    if *side == ParenthesisSide::Right || tokens.len() - i <= 3 {
                        return None;
                    }
                    let index = match &tokens[i + 2] {
                        Token::Name(index_name) => NameOrNumber::String(index_name.clone()),
                        Token::Literal(literal) => NameOrNumber::Number(*literal),
                        _ => {
                            return None;
                        },
                    };
                    if let Token::ArrayBracket(ParenthesisSide::Right) = &tokens[i + 3] {
                        return Some((i + 4, HigherToken::Array(name.clone(), index)));
                    }
                    return None;
                }
            }
            Some((i + 1, HigherToken::Name(name.clone())))
        },
        Token::Literal(l) => Some((i + 1, HigherToken::Literal(*l))),
        Token::Comment(_) => None,
        Token::ArrayBracket(_) => None,
    }
}

/// The operands of a line without comments (see `higher_tokens`).
fn tokens_to_higher_tokens(tokens: &Vec<Token>) -> (r: Vec<HigherToken>)
    ensures
        higher_view(r@) == higher_tokens(tokens_view(tokens@), 0),
{
    let ghost tv = tokens_view(tokens@);
    let mut out: Vec<HigherToken> = Vec::new();
    let mut i: usize = 0;
    loop
        invariant
            tv == tokens_view(tokens@),
            higher_tokens(tv, 0) == higher_view(out@) + higher_tokens(tv, i as int),
        ensures
            higher_tokens(tv, 0) == higher_view(out@),
        decreases tokens.len() - i,
    {
        match tokens_to_higher_tokens_next(tokens, i) {
            None => {
                assert(higher_view(out@) + Seq::<HigherTokenV>::empty() =~= higher_view(out@));
                break;
            },
            Some((k, h)) => {
                assert(k > i && k <= tokens.len());
                let ghost old_out = out@;
                let ghost hv = h@;
                out.push(h);
                assert(higher_view(out@) =~= higher_view(old_out) + seq![hv]);
                assert(higher_view(old_out) + (seq![hv] + higher_tokens(tv, k as int)) =~= higher_view(out@)
                    + higher_tokens(tv, k as int));
                i = k;
            },
        }
    }
    out
}

fn copy_token(t: &Token) -> (r: Token)
    ensures
        r@ == t@,
{
    match t {
        Token::Name(s) => Token::Name(s.clone()),
        Token::ArrayBracket(side) => Token::ArrayBracket(*side),
        Token::Literal(v) => Token::Literal(*v),
        Token::Comment(s) => Token::Comment(s.clone()),
    }
}

/// The tokens of a line that are not comments.
fn drop_comments(tokens: &Vec<Token>) -> (r: Vec<Token>)
    ensures
        tokens_view(r@) == code_only(tokens_view(tokens@)),
{
    let ghost tv = tokens_view(tokens@);
    let mut out: Vec<Token> = Vec::new();
    let mut i: usize = 0;
    while i < tokens.len()
        invariant
            i <= tokens.len(),
            tv == tokens_view(tokens@),
            tokens_view(out@) == code_only(tv.subrange(0, i as int)),
        decreases tokens.len() - i,
    {
        let ghost old_out = out@;
        assert(tv.subrange(0, i + 1).drop_last() =~= tv.subrange(0, i as int));
        if !matches!(&tokens[i], Token::Comment(_)) {
            out.push(copy_token(&tokens[i]));
            assert(tokens_view(out@) =~= tokens_view(old_out).push(tv[i as int]));
        }
        i += 1;
    }
    assert(tv.subrange(0, tokens.len() as int) =~= tv);
    out
}

/// The operation of one token line, `None` for a line of comments only.
fn parse_line(state: &mut ParsingTempState, token_line: &TokenLine, line: usize) -> (r: Result<Option<OpLine>, OpParsingError>)
    ensures
        ({
            let (t2, spec_r) = parse_line_spec(old(state)@, token_line@.tokens);
            match r {
                Ok(None) => spec_r == Ok::<Option<Op>, OpParsingErrorV>(None) && final(state)@ == t2,
                Ok(Some(o)) => spec_r == Ok::<Option<Op>, OpParsingErrorV>(Some(o.op)) && final(state)@ == t2
                    && o.line_num == line && o.line_text@ == token_line.line@,
                Err(e) => spec_r == Err::<Option<Op>, OpParsingErrorV>(e@),
            }
        }),
{
    let tokens = drop_comments(&token_line.tokens);
    if tokens.len() == 0 {
        return Ok(None);
    }
    let higher = tokens_to_higher_tokens(&tokens);
    match parse_operands(state, &higher) {
        Ok(op) => Ok(Some(OpLine::new(op, line, token_line.line.clone()))),
        Err(e) => Err(e),
    }
}

/// Parses token lines, as the lexer produced them, into the intermediate
/// representation. Lines of comments only are skipped; each operation keeps the
/// 1-based number of its line (from the bottom) and the line's text. The first
/// line that fails ends the parse with an error for that line.
pub fn parse_to_repr(tokens: &Vec<TokenLine>) -> (r: Result<Representation, LinedError<OpParsingError>>)
    ensures
        match r {
            Ok(rep) => parse_spec(token_lines_view(tokens@)) == Ok::<
                (Tables, Seq<OpLineV>),
                (int, Seq<char>, OpParsingErrorV),
            >((rep@.tables, rep@.ops)),
            Err(e) => parse_spec(token_lines_view(tokens@)) == Err::<
                (Tables, Seq<OpLineV>),
                (int, Seq<char>, OpParsingErrorV),
            >((e.line as int, e.related_text@, e.content@)) && e.lines_amount == tokens.len(),
        },
{
    let ghost lines = token_lines_view(tokens@);
    let mut ops: Vec<OpLine> = Vec::new();
    let mut temp = ParsingTempState::new();
    let mut i: usize = 0;
    assert(op_lines_view(ops@) =~= Seq::<OpLineV>::empty());
    while i < tokens.len()
        invariant
            i <= tokens.len(),
            lines == token_lines_view(tokens@),
            parse_spec(lines) == parse_lines(lines, i as int, temp@, op_lines_view(ops@)),
        decreases tokens.len() - i,
    {
        let token_line = &tokens[i];
        assert(token_line@ == lines[i as int]);
        match parse_line(&mut temp, token_line, i + 1) {
            Err(er) => {
                return Err(LinedError::new(i + 1, tokens.len(), token_line.line.clone(), er));
            },
            Ok(None) => {},
            Ok(Some(v)) => {
                let ghost old_ops = ops@;
                let ghost vv = v@;
                ops.push(v);
                assert(op_lines_view(ops@) =~= op_lines_view(old_ops).push(vv));
            },
        }
        i += 1;
    }
    Ok(
        Representation {
            variables_names: temp.variables,
            array_names: temp.array_names,
            flags_names: temp.flags,
            ops,
        },
    )
}

// ---------------------------------------------------------------------------
// Well-formedness of what the parser builds.
// ---------------------------------------------------------------------------

proof fn lemma_push_fresh(names: Seq<Seq<char>>, n: Seq<char>)
    requires
        distinct_names(names),
        !names.contains(n),
    ensures
        distinct_names(names.push(n)),
        forall|m: Seq<char>| names.push(n).contains(m) <==> (names.contains(m) || m == n),
{
    assert forall|m: Seq<char>| names.push(n).contains(m) <==> (names.contains(m) || m == n) by {
        if names.push(n).contains(m) {
            let q = choose|q: int| 0 <= q < names.push(n).len() && names.push(n)[q] == m;
            if q < names.len() {
                assert(names[q] == m);
            }
        }
        if names.contains(m) {
            let q = choose|q: int| 0 <= q < names.len() && names[q] == m;
            assert(names.push(n)[q] == m);
        }
        if m == n {
            assert(names.push(n)[names.len() as int] == m);
        }
    }
    assert forall|i: int, j: int| 0 <= i < j < names.push(n).len() implies names.push(n)[i] != names.push(
        n,
    )[j] by {
        if j == names.len() {
            assert(names[i] == names.push(n)[i]);
        }
    }
}

proof fn lemma_arrays_push(arrays: Seq<(Seq<char>, usize)>, n: Seq<char>, size: usize)
    ensures
        array_names_of(arrays.push((n, size))) == array_names_of(arrays).push(n),
{
    assert(array_names_of(arrays.push((n, size))) =~= array_names_of(arrays).push(n));
}

/// The facts about a name lookup that the proofs below use.
proof fn lemma_lookups(t: Tables, n: Seq<char>)
    ensures
        position(t.vars, n) matches Some(i) ==> 0 <= i < t.vars.len(),
        position(t.vars, n) is None <==> !t.vars.contains(n),
        position(array_names_of(t.arrays), n) matches Some(i) ==> 0 <= i < t.arrays.len(),
        position(array_names_of(t.arrays), n) is None <==> !array_names_of(t.arrays).contains(n),
        position(t.flags, n) matches Some(i) ==> 0 <= i < t.flags.len(),
        position(t.flags, n) is None <==> !t.flags.contains(n),
{
    lemma_position(t.vars, n);
    lemma_position(array_names_of(t.arrays), n);
    lemma_position(t.flags, n);
}

proof fn lemma_names_wf(t: Tables, n: Seq<char>, size: usize)
    requires
        tables_wf(t),
    ensures
        ({
            let (t2, r) = intern_var(t, n);
            tables_wf(t2) && grows(t, t2) && (r matches Ok(v) ==> v.0 < t2.vars.len())
        }),
        ({
            let (t2, r) = define_array(t, n, size);
            tables_wf(t2) && grows(t, t2) && (r matches Ok(a) ==> a.0 < t2.arrays.len())
        }),
        ({
            let (t2, r) = mark_flag(t, n);
            tables_wf(t2) && grows(t, t2) && (r matches Ok(f) ==> f.0 < t2.flags.len())
        }),
        read_var(t, n) matches Ok(v) ==> v.0 < t.vars.len(),
        read_array(t, n) matches Ok(a) ==> a.0 < t.arrays.len(),
        read_flag(t, n) matches Ok(f) ==> f.0 < t.flags.len(),
{
    lemma_lookups(t, n);
    if kind_conflict(t, n, NameType::Variable) is None && position(t.vars, n) is None {
        lemma_push_fresh(t.vars, n);
        let t2 = intern_var(t, n).0;
        assert forall|m: Seq<char>| !(t2.vars.contains(m) && array_names_of(t2.arrays).contains(m)) by {
            if m != n {
                assert(!(t.vars.contains(m) && array_names_of(t.arrays).contains(m)));
            }
        }
        assert forall|m: Seq<char>| !(t2.vars.contains(m) && t2.flags.contains(m)) by {
            if m != n {
                assert(!(t.vars.contains(m) && t.flags.contains(m)));
            }
        }
    }
    if kind_conflict(t, n, NameType::Array) is None && position(array_names_of(t.arrays), n) is None {
        lemma_push_fresh(array_names_of(t.arrays), n);
        lemma_arrays_push(t.arrays, n, size);
        let t2 = define_array(t, n, size).0;
        assert forall|m: Seq<char>| !(t2.vars.contains(m) && array_names_of(t2.arrays).contains(m)) by {
            if m != n {
                assert(!(t.vars.contains(m) && array_names_of(t.arrays).contains(m)));
            }
        }
        assert forall|m: Seq<char>| !(array_names_of(t2.arrays).contains(m) && t2.flags.contains(m)) by {
            if m != n {
                assert(!(array_names_of(t.arrays).contains(m) && t.flags.contains(m)));
            }
        }
    }
    if kind_conflict(t, n, NameType::Flag) is None && !t.flags.contains(n) {
        lemma_push_fresh(t.flags, n);
        let t2 = mark_flag(t, n).0;
        assert forall|m: Seq<char>| !(t2.vars.contains(m) && t2.flags.contains(m)) by {
            if m != n {
                assert(!(t.vars.contains(m) && t.flags.contains(m)));
            }
        }
        assert forall|m: Seq<char>| !(array_names_of(t2.arrays).contains(m) && t2.flags.contains(m)) by {
            if m != n {
                assert(!(array_names_of(t.arrays).contains(m) && t.flags.contains(m)));
            }
        }
    }
}

proof fn lemma_operands_wf(t: Tables, h: HigherTokenV)
    requires
        tables_wf(t),
    ensures
        ({
            let (t2, r) = aval(t, h);
            tables_wf(t2) && grows(t, t2) && (r matches Ok(a) ==> avalue_ok(a, t2))
        }),
        ({
            let (t2, r) = vval(t, h);
            tables_wf(t2) && grows(t, t2) && (r matches Ok(v) ==> vvalue_ok(v, t2))
        }),
{
    match h {
        HigherTokenV::Name(n) => {
            lemma_names_wf(t, n, 0);
        },
        HigherTokenV::Array(n, i) => {
            lemma_names_wf(t, n, 0);
            match i {
                NameOrNumberV::String(m) => {
                    lemma_names_wf(t, m, 0);
                },
                _ => {},
            }
        },
        _ => {},
    }
}

proof fn lemma_pair_ops_wf(t: Tables, a: HigherTokenV, b: HigherTokenV, c: ConditionType, add: bool)
    requires
        tables_wf(t),
    ensures
        ({
            let (t2, r) = math_op(t, a, b, add);
            tables_wf(t2) && grows(t, t2) && (r matches Ok(op) ==> op_ok(op, t2))
        }),
        ({
            let (t2, r) = if_op(t, a, b, c);
            tables_wf(t2) && grows(t, t2) && (r matches Ok(op) ==> op_ok(op, t2))
        }),
{
    lemma_operands_wf(t, a);
    let t1 = aval(t, a).0;
    lemma_operands_wf(t1, b);
}

proof fn lemma_parse_op_wf(t: Tables, h: Seq<HigherTokenV>)
    requires
        tables_wf(t),
    ensures
        ({
            let (t2, r) = parse_op(t, h);
            tables_wf(t2) && grows(t, t2) && (r matches Ok(op) ==> op_ok(op, t2))
        }),
{
    if h.len() >= 2 {
        lemma_names_wf(t, h[1]->Name_0, 0);
        lemma_operands_wf(t, h[1]);
    }
    if h.len() >= 3 {
        let size = match h[2] {
            HigherTokenV::Array(_, NameOrNumberV::Number(v)) => v as usize,
            _ => 0,
        };
        lemma_names_wf(t, h[2]->Name_0, 0);
        lemma_names_wf(t, h[2]->Array_0, size);
        lemma_operands_wf(t, h[2]);
    }
    if h.len() >= 5 {
        lemma_operands_wf(t, h[4]);
        lemma_pair_ops_wf(t, h[1], h[4], ConditionType::LessOrEqual, true);
        lemma_pair_ops_wf(t, h[1], h[4], ConditionType::GreaterOrEqual, true);
        lemma_pair_ops_wf(t, h[1], h[4], ConditionType::NotEqual, true);
    }
    if h.len() >= 4 {
        lemma_pair_ops_wf(t, h[1], h[3], ConditionType::Equal, true);
        lemma_pair_ops_wf(t, h[1], h[3], ConditionType::Equal, false);
    }
    if h.len() >= 6 {
        lemma_pair_ops_wf(t, h[1], h[5], ConditionType::Equal, true);
    }
    if h.len() >= 7 {
        lemma_pair_ops_wf(t, h[1], h[6], ConditionType::Greater, true);
        lemma_pair_ops_wf(t, h[1], h[6], ConditionType::Less, true);
    }
}

/// What holds of the outcome of parsing lines `i` on, given that it holds of
/// the tables and operations so far.
proof fn lemma_parse_lines_wf(lines: Seq<TokenLineV>, i: int, t: Tables, ops: Seq<OpLineV>)
    requires
        0 <= i,
        lines.len() <= usize::MAX,
        tables_wf(t),
        forall|k: int| 0 <= k < ops.len() ==> op_ok(#[trigger] ops[k].op, t),
        forall|k: int| 0 <= k < ops.len() ==> 1 <= (#[trigger] ops[k]).line_num <= lines.len(),
    ensures
        parse_lines(lines, i, t, ops) matches Ok((t2, ops2)) ==> repr_wf(
            crate::representation::RepresentationV { tables: t2, ops: ops2 },
        ) && forall|k: int| 0 <= k < ops2.len() ==> 1 <= (#[trigger] ops2[k]).line_num <= lines.len(),
    decreases lines.len() - i,
{
    if i < lines.len() {
        let code = code_only(lines[i].tokens);
        if code.len() > 0 {
            lemma_parse_op_wf(t, higher_tokens(code, 0));
        }
        let (t2, r) = parse_line_spec(t, lines[i].tokens);
        match r {
            Err(_) => {},
            Ok(None) => {
                lemma_parse_lines_wf(lines, i + 1, t2, ops);
            },
            Ok(Some(op)) => {
                let ops2 = ops.push(OpLineV { op, line_num: (i + 1) as usize, line_text: lines[i].line });
                assert forall|k: int| 0 <= k < ops2.len() implies op_ok(#[trigger] ops2[k].op, t2) by {
                    if k < ops.len() {
                        assert(ops2[k] == ops[k]);
                        assert(op_ok(ops[k].op, t));
                    }
                }
                lemma_parse_lines_wf(lines, i + 1, t2, ops2);
            },
        }
    }
}

/// A successful parse yields well-formed tables, in which no name has two
/// kinds, and operations whose handles are in range and whose line numbers lie
/// between 1 and the number of lines.
pub proof fn lemma_parse_wf(lines: Seq<TokenLineV>)
    requires
        lines.len() <= usize::MAX,
    ensures
        parse_spec(lines) matches Ok((t, ops)) ==> repr_wf(
            crate::representation::RepresentationV { tables: t, ops },
        ) && forall|k: int| 0 <= k < ops.len() ==> 1 <= (#[trigger] ops[k]).line_num <= lines.len(),
{
    let t = empty_tables();
    assert(distinct_names(t.vars));
    assert(array_names_of(t.arrays) =~= Seq::<Seq<char>>::empty());
    lemma_parse_lines_wf(lines, 0, t, Seq::empty());
}

/// Parsing adds names only on lines that yield an operation: a parse that
/// yields no operation leaves the tables as they were.
pub proof fn lemma_parse_lines_no_ops(lines: Seq<TokenLineV>, i: int, t: Tables, ops: Seq<OpLineV>)
    ensures
        parse_lines(lines, i, t, ops) matches Ok((t2, ops2)) ==> ops.len() <= ops2.len() && (ops2.len()
            == ops.len() ==> t2 == t),
    decreases lines.len() - i,
{
    if 0 <= i < lines.len() {
        let (t2, r) = parse_line_spec(t, lines[i].tokens);
        match r {
            Err(_) => {},
            Ok(None) => {
                lemma_parse_lines_no_ops(lines, i + 1, t2, ops);
            },
            Ok(Some(op)) => {
                let ops2 = ops.push(OpLineV { op, line_num: (i + 1) as usize, line_text: lines[i].line });
                lemma_parse_lines_no_ops(lines, i + 1, t2, ops2);
            },
        }
    }
}

} // verus!
