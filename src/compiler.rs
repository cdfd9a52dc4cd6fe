//! From the intermediate representation to a C translation unit.
use vstd::prelude::*;
use crate::representation::{
    avalue_ok, element_ok, ivalue_ok, op_ok, repr_wf, vvalue_as_avalue, vvalue_ok, AValue, ArrayElement,
    ConditionType, FlagRef, IValue, Op, OpLine, OpLineV, RValue, Representation, RepresentationV, Tables,
    VValue,
};
use crate::string_builder::{concat_map, int_text, nat_text, push_int, push_nat};
use crate::utility::LinedError;

verus! {

/// Why the operations could not be compiled: a `Fi` or an `If` without its
/// partner.
#[derive(Debug, Clone, Copy, PartialEq, Eq, Structural)]
pub enum CompilerError {
    UnmatchedFi,
    UnmatchedIf,
}

impl CompilerError {
    /// The name of the error.
    pub fn describe(&self) -> (r: &'static str)
        ensures
            r@ == (match self {
                CompilerError::UnmatchedFi => "UnmatchedFi"@,
                CompilerError::UnmatchedIf => "UnmatchedIf"@,
            }),
    {
        match self {
            CompilerError::UnmatchedFi => "UnmatchedFi",
            CompilerError::UnmatchedIf => "UnmatchedIf",
        }
    }
}

// ---------------------------------------------------------------------------
// Names in the emitted C.
// ---------------------------------------------------------------------------

/// The C cell of the variable `n`.
pub open spec fn var_pvar(n: Seq<char>) -> Seq<char> {
    "__"@ + n
}

/// The C array of the array `n`.
pub open spec fn arr_pvar(n: Seq<char>) -> Seq<char> {
    "_a_"@ + n
}

/// The C name behind the label `n`, whose liveness flag the label has.
pub open spec fn flag_pvar(n: Seq<char>) -> Seq<char> {
    "_f_"@ + n
}

/// The liveness flag of the C cell `p`.
pub open spec fn switch_of(p: Seq<char>) -> Seq<char> {
    "_isOn"@ + p
}

fn arr_name_to_pvar(t: &str) -> (r: String)
    ensures
        r@ == arr_pvar(t@),
{
    let mut r = String::from_str("_a_");
    r.append(t);
    r
}

fn flag_to_pvar(t: &str) -> (r: String)
    ensures
        r@ == flag_pvar(t@),
{
    let mut r = String::from_str("_f_");
    r.append(t);
    r
}

fn var_to_pvar(t: &str) -> (r: String)
    ensures
        r@ == var_pvar(t@),
{
    let mut r = String::from_str("__");
    r.append(t);
    r
}

fn pvar_to_switch(t: &str) -> (r: String)
    ensures
        r@ == switch_of(t@),
{
    let mut r = String::from_str("_isOn");
    r.append(t);
    r
}

// ---------------------------------------------------------------------------
// Operands.
// ---------------------------------------------------------------------------

/// The C expression for the current value of an operand: a literal as it is,
/// a cell through `get`, which adds the global offset.
pub open spec fn aval_get(a: AValue, t: Tables) -> Seq<char> {
    match a {
        AValue::LValue(l) => int_text(l as int),
        AValue::RValue(r) => "get("@ + var_pvar(t.vars[r.0 as int]) + ")"@,
        AValue::ArrayElement(e) => "get("@ + element_pvar(e, t) + ")"@,
    }
}

/// The C cell of an array element; its index is read through `get`.
pub open spec fn element_pvar(e: ArrayElement, t: Tables) -> Seq<char> {
    arr_pvar(t.arrays[e.array_ref.0 as int].0) + "["@ + index_get(e.index, t) + "]"@
}

pub open spec fn index_get(i: IValue, t: Tables) -> Seq<char> {
    match i {
        IValue::LValue(l) => int_text(l as int),
        IValue::RValue(r) => "get("@ + var_pvar(t.vars[r.0 as int]) + ")"@,
    }
}

/// The C cell of a storage operand.
pub open spec fn vval_pvar(v: VValue, t: Tables) -> Seq<char> {
    match v {
        VValue::RValue(r) => var_pvar(t.vars[r.0 as int]),
        VValue::ArrayElement(e) => element_pvar(e, t),
    }
}

/// The liveness flag of a storage operand: an array element lives with its array.
pub open spec fn vval_switch(v: VValue, t: Tables) -> Seq<char> {
    match v {
        VValue::RValue(r) => switch_of(var_pvar(t.vars[r.0 as int])),
        VValue::ArrayElement(e) => switch_of(arr_pvar(t.arrays[e.array_ref.0 as int].0)),
    }
}

/// The check that an operand is alive; none for a literal.
pub open spec fn alive_assert(a: AValue, t: Tables) -> Seq<char> {
    match a {
        AValue::LValue(_) => Seq::empty(),
        AValue::RValue(r) => "ASSERT_ALIVE("@ + vval_switch(VValue::RValue(r), t) + ");"@,
        AValue::ArrayElement(e) => "ASSERT_ALIVE("@ + vval_switch(VValue::ArrayElement(e), t) + ");"@,
    }
}

fn index_as_get(i: IValue, repr: &Representation) -> (r: String)
    requires
        ivalue_ok(i, repr@.tables),
    ensures
        r@ == index_get(i, repr@.tables),
{
    match i {
        IValue::LValue(l) => {
            let mut r = String::new();
            push_int(&mut r, l);
            r
        },
        IValue::RValue(v) => {
            let mut r = String::from_str("get(");
            let name = var_to_pvar(repr.variables_names[v.0].as_str());
            r.append(name.as_str());
            r.append(")");
            r
        },
    }
}

fn element_to_pvar(e: ArrayElement, repr: &Representation) -> (r: String)
    requires
        element_ok(e, repr@.tables),
    ensures
        r@ == element_pvar(e, repr@.tables),
{
    let mut r = arr_name_to_pvar(repr.array_names[e.array_ref.0].0.as_str());
    r.append("[");
    let index = index_as_get(e.index, repr);
    r.append(index.as_str());
    r.append("]");
    r
}

fn get_pvar_from_repr(id: VValue, repr: &Representation) -> (r: String)
    requires
        vvalue_ok(id, repr@.tables),
    ensures
        r@ == vval_pvar(id, repr@.tables),
{
    match id {
        VValue::ArrayElement(el) => element_to_pvar(el, repr),
        VValue::RValue(v) => var_to_pvar(repr.variables_names[v.0].as_str()),
    }
}

fn get_switch_from_repr(id: VValue, repr: &Representation) -> (r: String)
    requires
        vvalue_ok(id, repr@.tables),
    ensures
        r@ == vval_switch(id, repr@.tables),
{
    match id {
        VValue::ArrayElement(el) => {
            let p = arr_name_to_pvar(repr.array_names[el.array_ref.0].0.as_str());
            pvar_to_switch(p.as_str())
        },
        VValue::RValue(v) => {
            let p = var_to_pvar(repr.variables_names[v.0].as_str());
            pvar_to_switch(p.as_str())
        },
    }
}

fn get_flag_switch_from_repr(id: FlagRef, repr: &Representation) -> (r: String)
    requires
        id.0 < repr@.tables.flags.len(),
    ensures
        r@ == switch_of(flag_pvar(repr@.tables.flags[id.0 as int])),
{
    let p = flag_to_pvar(repr.flags_names[id.0].as_str());
    pvar_to_switch(p.as_str())
}

fn get_alive_assert(id: AValue, repr: &Representation) -> (r: String)
    requires
        avalue_ok(id, repr@.tables),
    ensures
        r@ == alive_assert(id, repr@.tables),
{
    match id {
        AValue::LValue(_) => String::new(),
        AValue::RValue(v) => {
            let mut r = String::from_str("ASSERT_ALIVE(");
            let on = get_switch_from_repr(VValue::RValue(v), repr);
            r.append(on.as_str());
            r.append(");");
            r
        },
        AValue::ArrayElement(e) => {
            let mut r = String::from_str("ASSERT_ALIVE(");
            let on = get_switch_from_repr(VValue::ArrayElement(e), repr);
            r.append(on.as_str());
            r.append(");");
            r
        },
    }
}

fn get_flag_alive_assert(id: FlagRef, repr: &Representation) -> (r: String)
    requires
        id.0 < repr@.tables.flags.len(),
    ensures
        r@ == "ASSERT_ALIVE("@ + switch_of(flag_pvar(repr@.tables.flags[id.0 as int])) + ");"@,
{
    let mut r = String::from_str("ASSERT_ALIVE(");
    let on = get_flag_switch_from_repr(id, repr);
    r.append(on.as_str());
    r.append(");");
    r
}

fn aval_as_get(a: AValue, repr: &Representation) -> (r: String)
    requires
        avalue_ok(a, repr@.tables),
    ensures
        r@ == aval_get(a, repr@.tables),
{
    match a {
        AValue::LValue(l) => {
            let mut r = String::new();
            push_int(&mut r, l);
            r
        },
        AValue::RValue(v) => {
            let mut r = String::from_str("get(");
            let name = var_to_pvar(repr.variables_names[v.0].as_str());
            r.append(name.as_str());
            r.append(")");
            r
        },
        AValue::ArrayElement(e) => {
            let mut r = String::from_str("get(");
            let cell = element_to_pvar(e, repr);
            r.append(cell.as_str());
            r.append(")");
            r
        },
    }
}

// ---------------------------------------------------------------------------
// Statements.
// ---------------------------------------------------------------------------

pub open spec fn sign(plus: bool) -> Seq<char> {
    if plus {
        "+"@
    } else {
        "-"@
    }
}

/// The compensation that keeps the displayed value of a non-literal source
/// operand unchanged.
pub open spec fn source_compensation(a: AValue, minus_op: Seq<char>, t: Tables) -> Seq<char> {
    match a {
        AValue::LValue(_) => Seq::empty(),
        AValue::RValue(r) => vval_pvar(VValue::RValue(r), t) + minus_op + "=temp;"@,
        AValue::ArrayElement(e) => vval_pvar(VValue::ArrayElement(e), t) + minus_op + "=temp;"@,
    }
}

/// An addition (`plus`) or subtraction of `a` to the cell `b`: the value of
/// `a` and the address of `b` are taken first, the global offset moves, and
/// the target (and a non-literal `a`) are compensated.
pub open spec fn math_text(a: AValue, b: VValue, plus: bool, t: Tables) -> Seq<char> {
    "{"@ + alive_assert(a, t) + alive_assert(vvalue_as_avalue(b), t) + "int temp="@ + aval_get(a, t)
        + ";int* addr=&"@ + vval_pvar(b, t) + ";global"@ + sign(plus) + "=temp;(*addr)"@ + sign(!plus)
        + "=temp;"@ + source_compensation(a, sign(!plus), t) + "}"@
}

pub open spec fn cond_text(c: ConditionType) -> Seq<char> {
    match c {
        ConditionType::Equal => "=="@,
        ConditionType::NotEqual => "!="@,
        ConditionType::Greater => ">"@,
        ConditionType::Less => "<"@,
        ConditionType::GreaterOrEqual => ">="@,
        ConditionType::LessOrEqual => "<="@,
    }
}

/// The opening of a conditional block; the comparison is emitted as stored.
pub open spec fn if_text(a: AValue, b: AValue, c: ConditionType, t: Tables) -> Seq<char> {
    "if("@ + aval_get(a, t) + cond_text(c) + aval_get(b, t) + "){"@
}

/// The C statement of an operation other than `If` and `Fi`.
pub open spec fn trivial_text(op: Op, t: Tables) -> Option<Seq<char>> {
    match op {
        Op::Define(id) => Some(
            var_pvar(t.vars[id.0 as int]) + "=-global;"@ + switch_of(var_pvar(t.vars[id.0 as int]))
                + "=true;"@,
        ),
        Op::DefineArray(id) => {
            let n = arr_pvar(t.arrays[id.0 as int].0);
            Some(
                "for(int i=0;i<"@ + nat_text(t.arrays[id.0 as int].1 as nat) + ";i++)\n{\n"@ + n
                    + "[i]=-global;\n}\n"@ + switch_of(n) + "=true;"@,
            )
        },
        Op::Undefine(id) => Some(switch_of(var_pvar(t.vars[id.0 as int])) + "=false;"@),
        Op::UndefineArray(id) => Some(switch_of(arr_pvar(t.arrays[id.0 as int].0)) + "=false;"@),
        Op::Read(v) => Some(
            alive_assert(vvalue_as_avalue(v), t) + "scanf(\"%d\",&"@ + vval_pvar(v, t) + ");"@
                + vval_pvar(v, t) + "-=global;"@,
        ),
        Op::Print(a) => Some(alive_assert(a, t) + "printf(\"%d\\n\","@ + aval_get(a, t) + ");"@),
        Op::PrintASCII(a) => Some(
            alive_assert(a, t) + "printf(\"%c\\n\",(char)"@ + aval_get(a, t) + ");"@,
        ),
        Op::Add(a, b) => Some(math_text(a, b, true, t)),
        Op::Subtract(a, b) => Some(math_text(a, b, false, t)),
        Op::Mark(f) => Some(t.flags[f.0 as int] + ":"@),
        Op::Unmark(f) => Some(switch_of(flag_pvar(t.flags[f.0 as int])) + "=false;"@),
        Op::Pin(f) => Some(
            "ASSERT_ALIVE("@ + switch_of(flag_pvar(t.flags[f.0 as int])) + ");"@ + "label=&&"@
                + t.flags[f.0 as int] + ";"@,
        ),
        Op::Goto => Some("GOTO;"@),
        Op::If(_, _, _) => None,
        Op::Fi => None,
    }
}

fn compile_math_line(a: AValue, b: VValue, plus: bool, repr: &Representation) -> (r: String)
    requires
        avalue_ok(a, repr@.tables),
        vvalue_ok(b, repr@.tables),
    ensures
        r@ == math_text(a, b, plus, repr@.tables),
{
    let plus_op = if plus { "+" } else { "-" };
    let minus_op = if plus { "-" } else { "+" };
    // the value of `a` and the address of `b` are taken before the global
    // offset changes; an index used to read `a` is not sheltered from it
    let mut t = String::from_str("{");
    let assert_a = get_alive_assert(a, repr);
    t.append(assert_a.as_str());
    let assert_b = get_alive_assert(b.as_avalue(), repr);
    t.append(assert_b.as_str());
    t.append("int temp=");
    let v = aval_as_get(a, repr);
    t.append(v.as_str());
    t.append(";int* addr=&");
    let nb = get_pvar_from_repr(b, repr);
    t.append(nb.as_str());
    t.append(";global");
    t.append(plus_op);
    t.append("=temp;(*addr)");
    t.append(minus_op);
    t.append("=temp;");
    match a {
        AValue::LValue(_) => {},
        AValue::RValue(a_id) => {
            let na = get_pvar_from_repr(VValue::RValue(a_id), repr);
            t.append(na.as_str());
            t.append(minus_op);
            t.append("=temp;");
        },
        AValue::ArrayElement(element) => {
            let na = get_pvar_from_repr(VValue::ArrayElement(element), repr);
            t.append(na.as_str());
            t.append(minus_op);
            t.append("=temp;");
        },
    }
    t.append("}");
    assert(t@ =~= math_text(a, b, plus, repr@.tables));
    t
}

fn if_to_text(a: AValue, b: AValue, cond: ConditionType, repr: &Representation) -> (r: String)
    requires
        avalue_ok(a, repr@.tables),
        avalue_ok(b, repr@.tables),
    ensures
        r@ == if_text(a, b, cond, repr@.tables),
{
    let a_name = aval_as_get(a, repr);
    let b_name = aval_as_get(b, repr);
    let operator = match cond {
        ConditionType::Equal => "==",
        ConditionType::NotEqual => "!=",
        ConditionType::Greater => ">",
        ConditionType::Less => "<",
        ConditionType::GreaterOrEqual => ">=",
        ConditionType::LessOrEqual => "<=",
    };
    let mut r = String::from_str("if(");
    r.append(a_name.as_str());
    r.append(operator);
    r.append(b_name.as_str());
    r.append("){");
    assert(r@ =~= if_text(a, b, cond, repr@.tables));
    r
}

fn try_compile_to_trivial_line(op: &OpLine, repr: &Representation) -> (r: Option<String>)
    requires
        op_ok(op.op, repr@.tables),
    ensures
        match r {
            Some(text) => trivial_text(op.op, repr@.tables) == Some(text@),
            None => trivial_text(op.op, repr@.tables) is None,
        },
{
    let ghost t = repr@.tables;
    match op.op {
        Op::Define(id) => {
            let mut r = get_pvar_from_repr(VValue::RValue(id), repr);
            r.append("=-global;");
            let on = get_switch_from_repr(VValue::RValue(id), repr);
            r.append(on.as_str());
            r.append("=true;");
            assert(r@ =~= trivial_text(op.op, t)->0);
            Some(r)
        },
        Op::DefineArray(id) => {
            let n = arr_name_to_pvar(repr.array_names[id.0].0.as_str());
            let mut r = String::from_str("for(int i=0;i<");
            push_nat(&mut r, repr.array_names[id.0].1 as u64);
            r.append(";i++)\n{\n");
            r.append(n.as_str());
            r.append("[i]=-global;\n}\n");
            let on = pvar_to_switch(n.as_str());
            r.append(on.as_str());
            r.append("=true;");
            assert(r@ =~= trivial_text(op.op, t)->0);
            Some(r)
        },
        Op::Undefine(id) => {
            let mut r = get_switch_from_repr(VValue::RValue(id), repr);
            r.append("=false;");
            Some(r)
        },
        Op::UndefineArray(id) => {
            let n = arr_name_to_pvar(repr.array_names[id.0].0.as_str());
            let mut r = pvar_to_switch(n.as_str());
            r.append("=false;");
            Some(r)
        },
        Op::Read(id) => {
            let mut r = get_alive_assert(id.as_avalue(), repr);
            r.append("scanf(\"%d\",&");
            let n = get_pvar_from_repr(id, repr);
            r.append(n.as_str());
            r.append(");");
            r.append(n.as_str());
            r.append("-=global;");
            assert(r@ =~= trivial_text(op.op, t)->0);
            Some(r)
        },
        Op::Print(val) => {
            let mut r = get_alive_assert(val, repr);
            r.append("printf(\"%d\\n\",");
            let n = aval_as_get(val, repr);
            r.append(n.as_str());
            r.append(");");
            assert(r@ =~= trivial_text(op.op, t)->0);
            Some(r)
        },
        Op::PrintASCII(val) => {
            let mut r = get_alive_assert(val, repr);
            r.append("printf(\"%c\\n\",(char)");
            let n = aval_as_get(val, repr);
            r.append(n.as_str());
            r.append(");");
            assert(r@ =~= trivial_text(op.op, t)->0);
            Some(r)
        },
        Op::Add(a, b) => Some(compile_math_line(a, b, true, repr)),
        Op::Subtract(a, b) => Some(compile_math_line(a, b, false, repr)),
        Op::Mark(flag) => {
            let mut r = repr.get_flag_name(flag);
            r.append(":");
            Some(r)
        },
        Op::Unmark(flag) => {
            let mut r = get_flag_switch_from_repr(flag, repr);
            r.append("=false;");
            Some(r)
        },
        Op::Pin(flag) => {
            let mut r = get_flag_alive_assert(flag, repr);
            r.append("label=&&");
            let name = repr.get_flag_name(flag);
            r.append(name.as_str());
            r.append(";");
            assert(r@ =~= trivial_text(op.op, t)->0);
            Some(r)
        },
        Op::Goto => Some(String::from_str("GOTO;")),
        Op::If(_, _, _) => None,
        Op::Fi => None,
    }
}

// ---------------------------------------------------------------------------
// Blocks.
// ---------------------------------------------------------------------------

/// A compiled run of operations: its code, where it stopped, and the `If`
/// that ended it, if one did.
pub struct BlockV {
    pub code: Seq<char>,
    pub end: int,
    pub if_ending: Option<(AValue, AValue, ConditionType)>,
}

/// The code of one operation line: its statement and the raw line as a comment.
pub open spec fn line_text(text: Seq<char>, l: OpLineV) -> Seq<char> {
    text + "//"@ + l.line_text + "\n"@
}

/// The conditional block that a `Fi` opens, once its `If` was found.
pub open spec fn if_block_text(a: AValue, b: AValue, c: ConditionType, inner: Seq<char>, t: Tables) -> Seq<char> {
    if_text(a, b, c, t) + "\n"@ + inner + "\n"@ + "}"@ + "\n"@
}

/// Compiles operations from `i` on, after the code `acc`, up to the end or
/// to the first `If` that no `Fi` of this run opened. Operations come in
/// source-reverse order, so a `Fi` opens a block that its `If` closes. An
/// error holds the index of a `Fi` without an `If`.
pub open spec fn block(r: RepresentationV, i: int, acc: Seq<char>) -> Result<BlockV, int>
    decreases r.ops.len() - i,
{
    if i < 0 || i >= r.ops.len() {
        Ok(BlockV { code: acc, end: r.ops.len() as int, if_ending: None })
    } else {
        match r.ops[i].op {
            Op::If(a, b, c) => Ok(BlockV { code: acc, end: i, if_ending: Some((a, b, c)) }),
            Op::Fi => match block(r, i + 1, Seq::empty()) {
                Err(e) => Err(e),
                Ok(inner) => match inner.if_ending {
                    None => Err(i),
                    Some((a, b, c)) => if i < inner.end < r.ops.len() {
                        block(r, inner.end + 1, acc + if_block_text(a, b, c, inner.code, r.tables))
                    } else {
                        Err(i)
                    },
                },
            },
            _ => block(r, i + 1, acc + line_text(trivial_text(r.ops[i].op, r.tables)->0, r.ops[i])),
        }
    }
}

pub proof fn lemma_block_end(r: RepresentationV, i: int, acc: Seq<char>)
    requires
        0 <= i <= r.ops.len(),
    ensures
        block(r, i, acc) matches Ok(b) ==> i <= b.end <= r.ops.len() && (b.if_ending matches Some(x)
            ==> b.end < r.ops.len() && r.ops[b.end].op == Op::If(x.0, x.1, x.2)),
        block(r, i, acc) matches Err(e) ==> i <= e < r.ops.len(),
    decreases r.ops.len() - i,
{
    if i < r.ops.len() {
        match r.ops[i].op {
            Op::If(_, _, _) => {},
            Op::Fi => {
                lemma_block_end(r, i + 1, Seq::empty());
                match block(r, i + 1, Seq::empty()) {
                    Err(_) => {},
                    Ok(inner) => match inner.if_ending {
                        None => {},
                        Some((a, b, c)) => {
                            if i < inner.end < r.ops.len() {
                                lemma_block_end(
                                    r,
                                    inner.end + 1,
                                    acc + if_block_text(a, b, c, inner.code, r.tables),
                                );
                            }
                        },
                    },
                }
            },
            _ => {
                lemma_block_end(r, i + 1, acc + line_text(trivial_text(r.ops[i].op, r.tables)->0, r.ops[i]));
            },
        }
    }
}

/// The `If` that ended a block, with the number of operations up to and
/// including it.
struct IfConstruct {
    a: AValue,
    b: AValue,
    cond_type: ConditionType,
    lines: usize,
}

struct CodeBlock {
    code: String,
    last_line: usize,
    if_ending: Option<IfConstruct>,
}

#[verifier::rlimit(40)]
fn compile_internal(ops: &Vec<OpLine>, repr: &Representation, start: usize, line_am: usize) -> (r: Result<
    CodeBlock,
    LinedError<CompilerError>,
>)
    requires
        repr_wf(repr@),
        ops@ == repr.ops@,
        start <= ops.len(),
    ensures
        match r {
            Ok(cb) => block(repr@, start as int, Seq::empty()) matches Ok(b) && b.code == cb.code@
                && b.end == cb.last_line && (match cb.if_ending {
                None => b.if_ending is None,
                Some(ic) => b.if_ending == Some((ic.a, ic.b, ic.cond_type)) && ic.lines == cb.last_line
                    + 1,
            }),
            Err(e) => block(repr@, start as int, Seq::empty()) matches Err(i) && 0 <= i < ops.len()
                && e.line == ops[i].line_num && e.lines_amount == line_am && e.related_text@
                == ops[i].line_text@ && e.content == CompilerError::UnmatchedFi,
        },
    decreases ops.len() - start,
{
    let ghost rv = repr@;
    let mut builder = String::new();
    let mut i = start;
    while i < ops.len()
        invariant
            start <= i <= ops.len(),
            ops@ == repr.ops@,
            rv == repr@,
            repr_wf(rv),
            block(rv, start as int, Seq::empty()) == block(rv, i as int, builder@),
        decreases ops.len() - i,
    {
        let op_line = &ops[i];
        assert(op_ok(op_line.op, rv.tables));
        assert(rv.ops[i as int] == op_line@);
        if let Op::If(a, b, cond) = op_line.op {
            return Ok(
                CodeBlock {
                    code: builder,
                    last_line: i,
                    if_ending: Some(IfConstruct { a, b, cond_type: cond, lines: i + 1 }),
                },
            );
        }
        let ghost old_builder = builder@;
        match try_compile_to_trivial_line(op_line, repr) {
            Some(trivial) => {
                builder.append(trivial.as_str());
                builder.append("//");
                builder.append(op_line.line_text.as_str());
                builder.append("\n");
                assert(builder@ =~= old_builder + line_text(trivial@, op_line@));
                i += 1;
            },
            None => {
                let block = compile_internal(ops, repr, i + 1, line_am);
                proof {
                    lemma_block_end(rv, i + 1, Seq::empty());
                }
                match block {
                    Err(e) => {
                        return Err(e);
                    },
                    Ok(cb) => match cb.if_ending {
                        Some(if_content) => {
                            let if_text = if_to_text(if_content.a, if_content.b, if_content.cond_type, repr);
                            builder.append(if_text.as_str());
                            builder.append("\n");
                            builder.append(cb.code.as_str());
                            builder.append("\n");
                            builder.append("}");
                            builder.append("\n");
                            assert(builder@ =~= old_builder + if_block_text(
                                if_content.a,
                                if_content.b,
                                if_content.cond_type,
                                cb.code@,
                                rv.tables,
                            ));
                            i = cb.last_line + 1;
                        },
                        None => {
                            return Err(
                                LinedError::new(
                                    op_line.line_num,
                                    line_am,
                                    op_line.line_text.clone(),
                                    CompilerError::UnmatchedFi,
                                ),
                            );
                        },
                    },
                }
            },
        }
    }
    Ok(CodeBlock { code: builder, last_line: i, if_ending: None })
}

// ---------------------------------------------------------------------------
// The translation unit.
// ---------------------------------------------------------------------------

/// The headers the emitted program includes.
pub const INCLUDES: &'static str = "#include <stdio.h>\n #include <stdbool.h>\n #include <stdlib.h>";

/// The runtime helpers of the emitted program: the global offset, the jump
/// target, `err`, `GOTO`, `LEAK_CHECK`, `ASSERT_ALIVE` and `get`.
pub const PRE_DECL: &'static str = r#"int global=0;
void* label=NULL;
int err(char* text)
{
    printf("ABORTED\n:%s",text);
    return 1;
}
#define GOTO if (label!=NULL) goto *label; else return err("nothing to pin")
#define LEAK_CHECK(on_name,normal) if(on_name) {printf("ABORTED\nMemory leaked: %s. Everything should be undefined at the end using \"define\"",normal);return 1;} 
#define ASSERT_ALIVE(bool_name) if(!bool_name) {printf("ABORTED\nTried to use already undefined variable/flag/array");return 1;}
int get(int val)
{
    return val + global;
}

"#;

/// The whole program when there are no operations.
pub const EMPTY_PROGRAM: &'static str = "int main(){}";

pub open spec fn var_decl(n: Seq<char>) -> Seq<char> {
    "int "@ + var_pvar(n) + "=0; bool "@ + switch_of(var_pvar(n)) + "=false;\n"@
}

pub open spec fn array_decl(a: (Seq<char>, usize)) -> Seq<char> {
    "int "@ + arr_pvar(a.0) + "["@ + nat_text(a.1 as nat) + "]={}; bool "@ + switch_of(arr_pvar(a.0))
        + "=false;\n"@
}

pub open spec fn flag_decl(n: Seq<char>) -> Seq<char> {
    "bool "@ + switch_of(flag_pvar(n)) + "=true;\n"@
}

/// The check, at the end of the program, that the cell `p` of the name `n`
/// is no longer alive.
pub open spec fn leak_check(p: Seq<char>, n: Seq<char>) -> Seq<char> {
    "LEAK_CHECK("@ + switch_of(p) + ",\""@ + n + "\");"@
}

pub open spec fn var_leak(n: Seq<char>) -> Seq<char> {
    leak_check(var_pvar(n), n)
}

pub open spec fn array_leak(a: (Seq<char>, usize)) -> Seq<char> {
    leak_check(arr_pvar(a.0), a.0)
}

pub open spec fn flag_leak(n: Seq<char>) -> Seq<char> {
    leak_check(flag_pvar(n), n)
}

/// The liveness epilogue: one check per variable, array and label.
pub open spec fn leak_checks(t: Tables) -> Seq<char> {
    concat_map(t.vars, |n: Seq<char>| var_leak(n)) + concat_map(t.arrays, |a: (Seq<char>, usize)| array_leak(a))
        + concat_map(t.flags, |n: Seq<char>| flag_leak(n))
}

/// The start of the translation unit, up to the opening of `main`.
pub open spec fn head_text() -> Seq<char> {
    INCLUDES@ + "\n"@ + PRE_DECL@ + "\n"@ + "int main(){\n"@
}

/// The declarations of every variable, array and label.
pub open spec fn decl_text(t: Tables) -> Seq<char> {
    concat_map(t.vars, |n: Seq<char>| var_decl(n)) + "\n"@ + concat_map(
        t.arrays,
        |a: (Seq<char>, usize)| array_decl(a),
    ) + "\n"@ + concat_map(t.flags, |n: Seq<char>| flag_decl(n)) + "\n"@
}

/// The translation unit around the code of the operations.
pub open spec fn program_text(t: Tables, code: Seq<char>) -> Seq<char> {
    head_text() + decl_text(t) + code + "\n"@ + leak_checks(t) + "\n"@ + "}"@
}

/// What the code generator makes of a representation; an error holds the
/// index of the operation at fault.
pub open spec fn compile_spec(r: RepresentationV) -> Result<Seq<char>, (int, CompilerError)> {
    if r.ops.len() == 0 {
        Ok(EMPTY_PROGRAM@)
    } else {
        match block(r, 0, Seq::empty()) {
            Err(i) => Err((i, CompilerError::UnmatchedFi)),
            Ok(b) => match b.if_ending {
                Some(_) => Err((b.end, CompilerError::UnmatchedIf)),
                None => Ok(program_text(r.tables, b.code)),
            },
        }
    }
}

fn get_includes() -> (r: &'static str)
    ensures
        r@ == INCLUDES@,
{
    INCLUDES
}

fn get_pre_decl() -> (r: &'static str)
    ensures
        r@ == PRE_DECL@,
{
    PRE_DECL
}

fn get_empty_progam() -> (r: &'static str)
    ensures
        r@ == EMPTY_PROGRAM@,
{
    EMPTY_PROGRAM
}

fn gen_variable_declaration(decl: &Vec<String>) -> (r: String)
    ensures
        r@ == concat_map(crate::representation::names_view(decl@), |n: Seq<char>| var_decl(n)),
{
    let ghost names = crate::representation::names_view(decl@);
    let ghost f = |n: Seq<char>| var_decl(n);
    let mut r = String::new();
    let mut k: usize = 0;
    while k < decl.len()
        invariant
            k <= decl.len(),
            names == crate::representation::names_view(decl@),
            f == (|n: Seq<char>| var_decl(n)),
            r@ == concat_map(names.subrange(0, k as int), f),
        decreases decl.len() - k,
    {
        let p = var_to_pvar(decl[k].as_str());
        let on = pvar_to_switch(p.as_str());
        r.append("int ");
        r.append(p.as_str());
        r.append("=0; bool ");
        r.append(on.as_str());
        r.append("=false;\n");
        assert(names.subrange(0, k + 1).drop_last() =~= names.subrange(0, k as int));
        assert(r@ =~= concat_map(names.subrange(0, k + 1), f));
        k += 1;
    }
    assert(names.subrange(0, k as int) =~= names);
    r
}

fn get_array_declaration(decl: &Vec<(String, usize)>) -> (r: String)
    ensures
        r@ == concat_map(crate::representation::arrays_view(decl@), |a: (Seq<char>, usize)| array_decl(a)),
{
    let ghost arrays = crate::representation::arrays_view(decl@);
    let ghost f = |a: (Seq<char>, usize)| array_decl(a);
    let mut r = String::new();
    let mut k: usize = 0;
    while k < decl.len()
        invariant
            k <= decl.len(),
            arrays == crate::representation::arrays_view(decl@),
            f == (|a: (Seq<char>, usize)| array_decl(a)),
            r@ == concat_map(arrays.subrange(0, k as int), f),
        decreases decl.len() - k,
    {
        let p = arr_name_to_pvar(decl[k].0.as_str());
        let on = pvar_to_switch(p.as_str());
        r.append("int ");
        r.append(p.as_str());
        r.append("[");
        push_nat(&mut r, decl[k].1 as u64);
        r.append("]={}; bool ");
        r.append(on.as_str());
        r.append("=false;\n");
        assert(arrays.subrange(0, k + 1).drop_last() =~= arrays.subrange(0, k as int));
        assert(r@ =~= concat_map(arrays.subrange(0, k + 1), f));
        k += 1;
    }
    assert(arrays.subrange(0, k as int) =~= arrays);
    r
}

fn get_flag_on_bools(flags_names: &Vec<String>) -> (r: String)
    ensures
        r@ == concat_map(crate::representation::names_view(flags_names@), |n: Seq<char>| flag_decl(n)),
{
    let ghost names = crate::representation::names_view(flags_names@);
    let ghost f = |n: Seq<char>| flag_decl(n);
    let mut r = String::new();
    let mut k: usize = 0;
    while k < flags_names.len()
        invariant
            k <= flags_names.len(),
            names == crate::representation::names_view(flags_names@),
            f == (|n: Seq<char>| flag_decl(n)),
            r@ == concat_map(names.subrange(0, k as int), f),
        decreases flags_names.len() - k,
    {
        let p = flag_to_pvar(flags_names[k].as_str());
        let on = pvar_to_switch(p.as_str());
        r.append("bool ");
        r.append(on.as_str());
        r.append("=true;\n");
        assert(names.subrange(0, k + 1).drop_last() =~= names.subrange(0, k as int));
        assert(r@ =~= concat_map(names.subrange(0, k + 1), f));
        k += 1;
    }
    assert(names.subrange(0, k as int) =~= names);
    r
}

/// Appends the leak check of the cell `p` of the name `n`.
fn push_leak_check(r: &mut String, p: &str, n: &str)
    ensures
        final(r)@ == old(r)@ + leak_check(p@, n@),
{
    let on = pvar_to_switch(p);
    r.append("LEAK_CHECK(");
    r.append(on.as_str());
    r.append(",\"");
    r.append(n);
    r.append("\");");
    assert(final(r)@ =~= old(r)@ + leak_check(p@, n@));
}

fn get_fake_leak_check(repr: &Representation) -> (r: String)
    ensures
        r@ == leak_checks(repr@.tables),
{
    let ghost t = repr@.tables;
    let ghost fv = |n: Seq<char>| var_leak(n);
    let ghost fa = |a: (Seq<char>, usize)| array_leak(a);
    let ghost ff = |n: Seq<char>| flag_leak(n);
    let mut r = String::new();
    let mut k: usize = 0;
    while k < repr.variables_names.len()
        invariant
            k <= repr.variables_names.len(),
            t == repr@.tables,
            fv == (|n: Seq<char>| var_leak(n)),
            r@ == concat_map(t.vars.subrange(0, k as int), fv),
        decreases repr.variables_names.len() - k,
    {
        let var = &repr.variables_names[k];
        let p = var_to_pvar(var.as_str());
        push_leak_check(&mut r, p.as_str(), var.as_str());
        assert(t.vars.subrange(0, k + 1).drop_last() =~= t.vars.subrange(0, k as int));
        k += 1;
    }
    assert(t.vars.subrange(0, k as int) =~= t.vars);
    let ghost first = r@;
    let mut r2 = String::new();
    k = 0;
    while k < repr.array_names.len()
        invariant
            k <= repr.array_names.len(),
            t == repr@.tables,
            fa == (|a: (Seq<char>, usize)| array_leak(a)),
            r2@ == concat_map(t.arrays.subrange(0, k as int), fa),
        decreases repr.array_names.len() - k,
    {
        let var = &repr.array_names[k].0;
        let p = arr_name_to_pvar(var.as_str());
        push_leak_check(&mut r2, p.as_str(), var.as_str());
        assert(t.arrays.subrange(0, k + 1).drop_last() =~= t.arrays.subrange(0, k as int));
        k += 1;
    }
    assert(t.arrays.subrange(0, k as int) =~= t.arrays);
    let mut r3 = String::new();
    k = 0;
    while k < repr.flags_names.len()
        invariant
            k <= repr.flags_names.len(),
            t == repr@.tables,
            ff == (|n: Seq<char>| flag_leak(n)),
            r3@ == concat_map(t.flags.subrange(0, k as int), ff),
        decreases repr.flags_names.len() - k,
    {
        let var = &repr.flags_names[k];
        let p = flag_to_pvar(var.as_str());
        push_leak_check(&mut r3, p.as_str(), var.as_str());
        assert(t.flags.subrange(0, k + 1).drop_last() =~= t.flags.subrange(0, k as int));
        k += 1;
    }
    assert(t.flags.subrange(0, k as int) =~= t.flags);
    r.append(r2.as_str());
    r.append(r3.as_str());
    r
}

/// Appends `txt` and a line break to `builder`.
fn push_builder(txt: &str, builder: &mut String)
    ensures
        final(builder)@ == old(builder)@ + txt@ + "\n"@,
{
    builder.append(txt);
    builder.append("\n");
}

/// Compiles a representation into a C translation unit: the includes, the
/// runtime helpers, then `main` with a declaration for every name, a statement
/// for every operation in order, with each `Fi` .. `If` span as a conditional
/// block, and a leak check for every name. With no operations the program is
/// `int main(){}`. A `Fi` without its `If`, or an `If` without its `Fi`, is an
/// error on that operation's line; the error counts the lines up to the last
/// operation's.
#[verifier::rlimit(40)]
pub fn compile(repr: &Representation) -> (r: Result<String, LinedError<CompilerError>>)
    requires
        repr_wf(repr@),
    ensures
        match r {
            Ok(text) => compile_spec(repr@) == Ok::<Seq<char>, (int, CompilerError)>(text@),
            Err(e) => compile_spec(repr@) matches Err((i, kind)) && 0 <= i < repr.ops.len() && e.content
                == kind && e.line == repr.ops[i].line_num && e.related_text@ == repr.ops[i].line_text@
                && e.lines_amount == repr.ops[repr.ops.len() - 1].line_num,
        },
{
    if repr.ops.len() == 0 {
        return Ok(String::from_str(get_empty_progam()));
    }
    let lines_count = repr.ops[repr.ops.len() - 1].line_num;
    let mut builder = String::new();
    push_builder(get_includes(), &mut builder);
    push_builder(get_pre_decl(), &mut builder);
    builder.append("int main(){\n");
    assert(builder@ =~= head_text());
    let vars = gen_variable_declaration(&repr.variables_names);
    push_builder(vars.as_str(), &mut builder);
    let arrays = get_array_declaration(&repr.array_names);
    push_builder(arrays.as_str(), &mut builder);
    let flags = get_flag_on_bools(&repr.flags_names);
    push_builder(flags.as_str(), &mut builder);
    assert(builder@ =~= head_text() + decl_text(repr@.tables));
    let ghost before_code = builder@;
    let result = compile_internal(&repr.ops, repr, 0, lines_count);
    proof {
        lemma_block_end(repr@, 0, Seq::empty());
    }
    match result {
        Err(e) => Err(e),
        Ok(block) => {
            if block.if_ending.is_some() {
                let rel_op = &repr.ops[block.last_line];
                return Err(
                    LinedError::new(
                        rel_op.line_num,
                        lines_count,
                        rel_op.line_text.clone(),
                        CompilerError::UnmatchedIf,
                    ),
                );
            }
            push_builder(block.code.as_str(), &mut builder);
            let leaks = get_fake_leak_check(repr);
            push_builder(leaks.as_str(), &mut builder);
            builder.append("}");
            assert(builder@ =~= before_code + block.code@ + "\n"@ + leak_checks(repr@.tables) + "\n"@ + "}"@);
            Ok(builder)
        },
    }
}

// ---------------------------------------------------------------------------
// Names in the output.
// ---------------------------------------------------------------------------

/// `piece` stands somewhere in `text`.
pub open spec fn occurs_in(piece: Seq<char>, text: Seq<char>) -> bool {
    exists|i: int| 0 <= i && i + piece.len() <= text.len() && #[trigger] text.subrange(i, i + piece.len()) == piece
}

proof fn lemma_occurs_extend(p: Seq<char>, x: Seq<char>, pre: Seq<char>, post: Seq<char>)
    requires
        occurs_in(p, x),
    ensures
        occurs_in(p, pre + x + post),
{
    let i = choose|i: int| 0 <= i && i + p.len() <= x.len() && #[trigger] x.subrange(i, i + p.len()) == p;
    let j = pre.len() + i;
    assert((pre + x + post).subrange(j, j + p.len()) =~= x.subrange(i, i + p.len()));
}

proof fn lemma_occurs_in_concat<A>(s: Seq<A>, f: spec_fn(A) -> Seq<char>, k: int)
    requires
        0 <= k < s.len(),
    ensures
        occurs_in(f(s[k]), concat_map(s, f)),
    decreases s.len(),
{
    let prev = concat_map(s.drop_last(), f);
    if k == s.len() - 1 {
        let p = f(s[k]);
        assert((prev + p).subrange(prev.len() as int, (prev.len() + p.len()) as int) =~= p);
    } else {
        lemma_occurs_in_concat(s.drop_last(), f, k);
        assert(s.drop_last()[k] == s[k]);
        lemma_occurs_extend(f(s[k]), prev, Seq::empty(), f(s.last()));
        assert(Seq::<char>::empty() + prev + f(s.last()) =~= prev + f(s.last()));
    }
}

proof fn lemma_occurs_prefix(p: Seq<char>, x: Seq<char>, pre: Seq<char>)
    requires
        occurs_in(p, x),
    ensures
        occurs_in(p, pre + x),
{
    lemma_occurs_extend(p, x, pre, Seq::empty());
    assert(pre + x + Seq::<char>::empty() =~= pre + x);
}

proof fn lemma_occurs_suffix(p: Seq<char>, x: Seq<char>, post: Seq<char>)
    requires
        occurs_in(p, x),
    ensures
        occurs_in(p, x + post),
{
    lemma_occurs_extend(p, x, Seq::empty(), post);
    assert(Seq::<char>::empty() + x + post =~= x + post);
}

proof fn lemma_occurs_in_decls(t: Tables)
    ensures
        forall|k: int| 0 <= k < t.vars.len() ==> occurs_in(var_decl(#[trigger] t.vars[k]), decl_text(t)),
        forall|k: int| 0 <= k < t.arrays.len() ==> occurs_in(array_decl(#[trigger] t.arrays[k]), decl_text(t)),
        forall|k: int| 0 <= k < t.flags.len() ==> occurs_in(flag_decl(#[trigger] t.flags[k]), decl_text(t)),
{
    let vd = concat_map(t.vars, |n: Seq<char>| var_decl(n));
    let ad = concat_map(t.arrays, |a: (Seq<char>, usize)| array_decl(a));
    let fd = concat_map(t.flags, |n: Seq<char>| flag_decl(n));
    let nl = "\n"@;
    assert forall|k: int| 0 <= k < t.vars.len() implies occurs_in(var_decl(#[trigger] t.vars[k]), decl_text(t)) by {
        let p = var_decl(t.vars[k]);
        lemma_occurs_in_concat(t.vars, |n: Seq<char>| var_decl(n), k);
        lemma_occurs_suffix(p, vd, nl);
        lemma_occurs_suffix(p, vd + nl, ad);
        lemma_occurs_suffix(p, vd + nl + ad, nl);
        lemma_occurs_suffix(p, vd + nl + ad + nl, fd);
        lemma_occurs_suffix(p, vd + nl + ad + nl + fd, nl);
    }
    assert forall|k: int| 0 <= k < t.arrays.len() implies occurs_in(array_decl(#[trigger] t.arrays[k]), decl_text(t)) by {
        let p = array_decl(t.arrays[k]);
        lemma_occurs_in_concat(t.arrays, |a: (Seq<char>, usize)| array_decl(a), k);
        lemma_occurs_prefix(p, ad, vd + nl);
        lemma_occurs_suffix(p, vd + nl + ad, nl);
        lemma_occurs_suffix(p, vd + nl + ad + nl, fd);
        lemma_occurs_suffix(p, vd + nl + ad + nl + fd, nl);
    }
    assert forall|k: int| 0 <= k < t.flags.len() implies occurs_in(flag_decl(#[trigger] t.flags[k]), decl_text(t)) by {
        let p = flag_decl(t.flags[k]);
        lemma_occurs_in_concat(t.flags, |n: Seq<char>| flag_decl(n), k);
        lemma_occurs_prefix(p, fd, vd + nl + ad + nl);
        lemma_occurs_suffix(p, vd + nl + ad + nl + fd, nl);
    }
}

proof fn lemma_occurs_in_leaks(t: Tables)
    ensures
        forall|k: int| 0 <= k < t.vars.len() ==> occurs_in(var_leak(#[trigger] t.vars[k]), leak_checks(t)),
        forall|k: int| 0 <= k < t.arrays.len() ==> occurs_in(array_leak(#[trigger] t.arrays[k]), leak_checks(t)),
        forall|k: int| 0 <= k < t.flags.len() ==> occurs_in(flag_leak(#[trigger] t.flags[k]), leak_checks(t)),
{
    let vl = concat_map(t.vars, |n: Seq<char>| var_leak(n));
    let al = concat_map(t.arrays, |a: (Seq<char>, usize)| array_leak(a));
    let fl = concat_map(t.flags, |n: Seq<char>| flag_leak(n));
    assert forall|k: int| 0 <= k < t.vars.len() implies occurs_in(var_leak(#[trigger] t.vars[k]), leak_checks(t)) by {
        lemma_occurs_in_concat(t.vars, |n: Seq<char>| var_leak(n), k);
        lemma_occurs_suffix(var_leak(t.vars[k]), vl, al);
        lemma_occurs_suffix(var_leak(t.vars[k]), vl + al, fl);
    }
    assert forall|k: int| 0 <= k < t.arrays.len() implies occurs_in(array_leak(#[trigger] t.arrays[k]), leak_checks(t)) by {
        lemma_occurs_in_concat(t.arrays, |a: (Seq<char>, usize)| array_leak(a), k);
        lemma_occurs_prefix(array_leak(t.arrays[k]), al, vl);
        lemma_occurs_suffix(array_leak(t.arrays[k]), vl + al, fl);
    }
    assert forall|k: int| 0 <= k < t.flags.len() implies occurs_in(flag_leak(#[trigger] t.flags[k]), leak_checks(t)) by {
        lemma_occurs_in_concat(t.flags, |n: Seq<char>| flag_leak(n), k);
        lemma_occurs_prefix(flag_leak(t.flags[k]), fl, vl + al);
    }
}

/// Every variable, array and label of the tables is declared in the program
/// text under its mangled name (`__n`, `_a_n`, `_f_n` with its flag) and has
/// its leak check there.
pub proof fn lemma_program_declares_names(t: Tables, code: Seq<char>)
    ensures
        forall|k: int| 0 <= k < t.vars.len() ==> occurs_in(var_decl(#[trigger] t.vars[k]), program_text(t, code))
            && occurs_in(var_leak(t.vars[k]), program_text(t, code)),
        forall|k: int| 0 <= k < t.arrays.len() ==> occurs_in(array_decl(#[trigger] t.arrays[k]), program_text(t, code))
            && occurs_in(array_leak(t.arrays[k]), program_text(t, code)),
        forall|k: int| 0 <= k < t.flags.len() ==> occurs_in(flag_decl(#[trigger] t.flags[k]), program_text(t, code))
            && occurs_in(flag_leak(t.flags[k]), program_text(t, code)),
{
    let nl = "\n"@;
    let h = head_text();
    let d = decl_text(t);
    let l = leak_checks(t);
    let text = program_text(t, code);
    lemma_occurs_in_decls(t);
    lemma_occurs_in_leaks(t);
    assert forall|p: Seq<char>| occurs_in(p, d) implies occurs_in(p, text) by {
        lemma_occurs_prefix(p, d, h);
        lemma_occurs_suffix(p, h + d, code);
        lemma_occurs_suffix(p, h + d + code, nl);
        lemma_occurs_suffix(p, h + d + code + nl, l);
        lemma_occurs_suffix(p, h + d + code + nl + l, nl);
        lemma_occurs_suffix(p, h + d + code + nl + l + nl, "}"@);
    }
    assert forall|p: Seq<char>| occurs_in(p, l) implies occurs_in(p, text) by {
        lemma_occurs_prefix(p, l, h + d + code + nl);
        lemma_occurs_suffix(p, h + d + code + nl + l, nl);
        lemma_occurs_suffix(p, h + d + code + nl + l + nl, "}"@);
    }
}

// ---------------------------------------------------------------------------
// Conditional blocks come in pairs.
// ---------------------------------------------------------------------------

/// The number of `If` operations (or of `Fi` operations, with `fi`) among
/// the operations from `lo` up to `hi`.
pub open spec fn count_conds(ops: Seq<OpLineV>, lo: int, hi: int, fi: bool) -> int
    decreases hi - lo,
{
    if hi <= lo {
        0
    } else {
        count_conds(ops, lo, hi - 1, fi) + if (fi && ops[hi - 1].op is Fi) || (!fi && ops[hi - 1].op is If) {
            1int
        } else {
            0int
        }
    }
}

proof fn lemma_count_split(ops: Seq<OpLineV>, lo: int, mid: int, hi: int, fi: bool)
    requires
        lo <= mid <= hi,
    ensures
        count_conds(ops, lo, hi, fi) == count_conds(ops, lo, mid, fi) + count_conds(ops, mid, hi, fi),
    decreases hi - mid,
{
    if hi > mid {
        lemma_count_split(ops, lo, mid, hi - 1, fi);
    }
}

proof fn lemma_block_balanced(r: RepresentationV, i: int, acc: Seq<char>)
    requires
        0 <= i <= r.ops.len(),
    ensures
        block(r, i, acc) matches Ok(b) ==> count_conds(r.ops, i, b.end, false) == count_conds(
            r.ops,
            i,
            b.end,
            true,
        ) && (b.if_ending is None ==> b.end == r.ops.len()),
    decreases r.ops.len() - i,
{
    lemma_block_end(r, i, acc);
    if i < r.ops.len() {
        match r.ops[i].op {
            Op::If(_, _, _) => {},
            Op::Fi => {
                lemma_block_balanced(r, i + 1, Seq::empty());
                lemma_block_end(r, i + 1, Seq::empty());
                match block(r, i + 1, Seq::empty()) {
                    Err(_) => {},
                    Ok(inner) => match inner.if_ending {
                        None => {},
                        Some((a, b, c)) => {
                            if i < inner.end < r.ops.len() {
                                let acc2 = acc + if_block_text(a, b, c, inner.code, r.tables);
                                lemma_block_balanced(r, inner.end + 1, acc2);
                                lemma_block_end(r, inner.end + 1, acc2);
                                if let Ok(bb) = block(r, inner.end + 1, acc2) {
                                    let e = inner.end;
                                    assert forall|fi: bool| count_conds(r.ops, i, bb.end, fi) == count_conds(
                                        r.ops,
                                        i,
                                        i + 1,
                                        fi,
                                    ) + count_conds(r.ops, i + 1, e, fi) + count_conds(r.ops, e, e + 1, fi)
                                        + count_conds(r.ops, e + 1, bb.end, fi) by {
                                        lemma_count_split(r.ops, i, i + 1, bb.end, fi);
                                        lemma_count_split(r.ops, i + 1, e, bb.end, fi);
                                        lemma_count_split(r.ops, e, e + 1, bb.end, fi);
                                    }
                                    assert(count_conds(r.ops, i, i, true) == 0);
                                    assert(count_conds(r.ops, i, i, false) == 0);
                                    assert(r.ops[i].op is Fi);
                                    assert(count_conds(r.ops, i, i + 1, true) == 1);
                                    assert(count_conds(r.ops, i, i + 1, false) == 0);
                                    assert(count_conds(r.ops, e, e, true) == 0);
                                    assert(count_conds(r.ops, e, e, false) == 0);
                                    assert(r.ops[e].op is If);
                                    assert(count_conds(r.ops, e, e + 1, true) == 0);
                                    assert(count_conds(r.ops, e, e + 1, false) == 1);
                                }
                            }
                        },
                    },
                }
            },
            _ => {
                let acc2 = acc + line_text(trivial_text(r.ops[i].op, r.tables)->0, r.ops[i]);
                lemma_block_balanced(r, i + 1, acc2);
                lemma_block_end(r, i + 1, acc2);
                if let Ok(bb) = block(r, i + 1, acc2) {
                    lemma_count_split(r.ops, i, i + 1, bb.end, true);
                    lemma_count_split(r.ops, i, i + 1, bb.end, false);
                    assert(count_conds(r.ops, i, i, true) == 0);
                    assert(count_conds(r.ops, i, i, false) == 0);
                    assert(count_conds(r.ops, i, i + 1, true) == 0);
                    assert(count_conds(r.ops, i, i + 1, false) == 0);
                }
            },
        }
    }
}

/// A representation that compiles holds as many `If` as `Fi` operations:
/// each conditional block the output opens is closed once.
pub proof fn lemma_conditionals_paired(r: RepresentationV)
    ensures
        compile_spec(r) is Ok ==> count_conds(r.ops, 0, r.ops.len() as int, false) == count_conds(
            r.ops,
            0,
            r.ops.len() as int,
            true,
        ),
{
    lemma_block_balanced(r, 0, Seq::empty());
}

} // verus!
