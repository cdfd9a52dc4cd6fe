//! Text dumps of the intermediate representation, as `-p` prints them.
use vstd::prelude::*;
use crate::representation::{
    AValue, ArrayElement, ConditionType, IValue, Op, OpLine, OpLineV, Representation, RepresentationV,
    VValue, op_lines_view,
};
use crate::string_builder::{concat_map, int_text, nat_text, push_int, push_nat};

verus! {

pub open spec fn handle_debug(kind: Seq<char>, i: usize) -> Seq<char> {
    kind + "("@ + nat_text(i as nat) + ")"@
}

pub open spec fn ivalue_debug(v: IValue) -> Seq<char> {
    match v {
        IValue::LValue(l) => "LValue("@ + int_text(l as int) + ")"@,
        IValue::RValue(r) => "RValue("@ + handle_debug("RValue"@, r.0) + ")"@,
    }
}

pub open spec fn element_debug(e: ArrayElement) -> Seq<char> {
    "ArrayElement { array_ref: "@ + handle_debug("ArrayRef"@, e.array_ref.0) + ", index: "@ + ivalue_debug(
        e.index,
    ) + " }"@
}

pub open spec fn avalue_debug(v: AValue) -> Seq<char> {
    match v {
        AValue::LValue(l) => "LValue("@ + int_text(l as int) + ")"@,
        AValue::RValue(r) => "RValue("@ + handle_debug("RValue"@, r.0) + ")"@,
        AValue::ArrayElement(e) => "ArrayElement("@ + element_debug(e) + ")"@,
    }
}

pub open spec fn vvalue_debug(v: VValue) -> Seq<char> {
    match v {
        VValue::RValue(r) => "RValue("@ + handle_debug("RValue"@, r.0) + ")"@,
        VValue::ArrayElement(e) => "ArrayElement("@ + element_debug(e) + ")"@,
    }
}

pub open spec fn cond_debug(c: ConditionType) -> Seq<char> {
    match c {
        ConditionType::Equal => "Equal"@,
        ConditionType::NotEqual => "NotEqual"@,
        ConditionType::Less => "Less"@,
        ConditionType::Greater => "Greater"@,
        ConditionType::LessOrEqual => "LessOrEqual"@,
        ConditionType::GreaterOrEqual => "GreaterOrEqual"@,
    }
}

/// How an operation is written in a dump: as `Debug` writes it.
pub open spec fn op_debug(op: Op) -> Seq<char> {
    match op {
        Op::Define(r) => "Define("@ + handle_debug("RValue"@, r.0) + ")"@,
        Op::DefineArray(a) => "DefineArray("@ + handle_debug("ArrayRef"@, a.0) + ")"@,
        Op::Undefine(r) => "Undefine("@ + handle_debug("RValue"@, r.0) + ")"@,
        Op::Read(v) => "Read("@ + vvalue_debug(v) + ")"@,
        Op::Print(a) => "Print("@ + avalue_debug(a) + ")"@,
        Op::PrintASCII(a) => "PrintASCII("@ + avalue_debug(a) + ")"@,
        Op::Subtract(a, v) => "Subtract("@ + avalue_debug(a) + ", "@ + vvalue_debug(v) + ")"@,
        Op::Add(a, v) => "Add("@ + avalue_debug(a) + ", "@ + vvalue_debug(v) + ")"@,
        Op::If(a, b, c) => "If("@ + avalue_debug(a) + ", "@ + avalue_debug(b) + ", "@ + cond_debug(c) + ")"@,
        Op::Fi => "Fi"@,
        Op::Mark(f) => "Mark("@ + handle_debug("FlagRef"@, f.0) + ")"@,
        Op::Unmark(f) => "Unmark("@ + handle_debug("FlagRef"@, f.0) + ")"@,
        Op::Pin(f) => "Pin("@ + handle_debug("FlagRef"@, f.0) + ")"@,
        Op::Goto => "Goto"@,
        Op::UndefineArray(a) => "UndefineArray("@ + handle_debug("ArrayRef"@, a.0) + ")"@,
    }
}

/// One line of a dump of operations: `[line]"text" -> operation`.
pub open spec fn op_line_debug(l: OpLineV) -> Seq<char> {
    "["@ + nat_text(l.line_num as nat) + "]\""@ + l.line_text + "\" -> "@ + op_debug(l.op) + "\n"@
}

fn push_handle(r: &mut String, kind: &str, i: usize)
    ensures
        final(r)@ == old(r)@ + handle_debug(kind@, i),
{
    r.append(kind);
    r.append("(");
    push_nat(r, i as u64);
    r.append(")");
    assert(final(r)@ =~= old(r)@ + handle_debug(kind@, i));
}

fn push_ivalue(r: &mut String, v: IValue)
    ensures
        final(r)@ == old(r)@ + ivalue_debug(v),
{
    match v {
        IValue::LValue(l) => {
            r.append("LValue(");
            push_int(r, l);
            r.append(")");
        },
        IValue::RValue(x) => {
            r.append("RValue(");
            push_handle(r, "RValue", x.0);
            r.append(")");
        },
    }
    assert(final(r)@ =~= old(r)@ + ivalue_debug(v));
}

fn push_element(r: &mut String, e: ArrayElement)
    ensures
        final(r)@ == old(r)@ + element_debug(e),
{
    r.append("ArrayElement { array_ref: ");
    push_handle(r, "ArrayRef", e.array_ref.0);
    r.append(", index: ");
    push_ivalue(r, e.index);
    r.append(" }");
    assert(final(r)@ =~= old(r)@ + element_debug(e));
}

fn push_avalue(r: &mut String, v: AValue)
    ensures
        final(r)@ == old(r)@ + avalue_debug(v),
{
    match v {
        AValue::LValue(l) => {
            r.append("LValue(");
            push_int(r, l);
            r.append(")");
        },
        AValue::RValue(x) => {
            r.append("RValue(");
            push_handle(r, "RValue", x.0);
            r.append(")");
        },
        AValue::ArrayElement(e) => {
            r.append("ArrayElement(");
            push_element(r, e);
            r.append(")");
        },
    }
    assert(final(r)@ =~= old(r)@ + avalue_debug(v));
}

fn push_vvalue(r: &mut String, v: VValue)
    ensures
        final(r)@ == old(r)@ + vvalue_debug(v),
{
    match v {
        VValue::RValue(x) => {
            r.append("RValue(");
            push_handle(r, "RValue", x.0);
            r.append(")");
        },
        VValue::ArrayElement(e) => {
            r.append("ArrayElement(");
            push_element(r, e);
            r.append(")");
        },
    }
    assert(final(r)@ =~= old(r)@ + vvalue_debug(v));
}

fn cond_name(c: ConditionType) -> (r: &'static str)
    ensures
        r@ == cond_debug(c),
{
    match c {
        ConditionType::Equal => "Equal",
        ConditionType::NotEqual => "NotEqual",
        ConditionType::Less => "Less",
        ConditionType::Greater => "Greater",
        ConditionType::LessOrEqual => "LessOrEqual",
        ConditionType::GreaterOrEqual => "GreaterOrEqual",
    }
}

/// Appends `open`, a handle, and a closing parenthesis.
fn push_in(r: &mut String, open: &str, kind: &str, i: usize)
    ensures
        final(r)@ == old(r)@ + open@ + handle_debug(kind@, i) + ")"@,
{
    r.append(open);
    push_handle(r, kind, i);
    r.append(")");
    assert(final(r)@ =~= old(r)@ + open@ + handle_debug(kind@, i) + ")"@);
}

/// Appends `open`, an operand and a storage operand, and a closing parenthesis.
fn push_pair(r: &mut String, open: &str, a: AValue, v: VValue)
    ensures
        final(r)@ == old(r)@ + open@ + avalue_debug(a) + ", "@ + vvalue_debug(v) + ")"@,
{
    r.append(open);
    push_avalue(r, a);
    r.append(", ");
    push_vvalue(r, v);
    r.append(")");
    assert(final(r)@ =~= old(r)@ + open@ + avalue_debug(a) + ", "@ + vvalue_debug(v) + ")"@);
}

/// Appends `open`, an operand, and a closing parenthesis.
fn push_one(r: &mut String, open: &str, a: AValue)
    ensures
        final(r)@ == old(r)@ + open@ + avalue_debug(a) + ")"@,
{
    r.append(open);
    push_avalue(r, a);
    r.append(")");
    assert(final(r)@ =~= old(r)@ + open@ + avalue_debug(a) + ")"@);
}

fn push_if(r: &mut String, a: AValue, b: AValue, c: ConditionType)
    ensures
        final(r)@ == old(r)@ + op_debug(Op::If(a, b, c)),
{
    r.append("If(");
    push_avalue(r, a);
    r.append(", ");
    push_avalue(r, b);
    r.append(", ");
    r.append(cond_name(c));
    r.append(")");
    assert(final(r)@ =~= old(r)@ + op_debug(Op::If(a, b, c)));
}

fn push_op(r: &mut String, op: Op)
    ensures
        final(r)@ == old(r)@ + op_debug(op),
{
    match op {
        Op::Define(x) => push_in(r, "Define(", "RValue", x.0),
        Op::DefineArray(a) => push_in(r, "DefineArray(", "ArrayRef", a.0),
        Op::Undefine(x) => push_in(r, "Undefine(", "RValue", x.0),
        Op::Read(v) => {
            r.append("Read(");
            push_vvalue(r, v);
            r.append(")");
            assert(final(r)@ =~= old(r)@ + op_debug(op));
        },
        Op::Print(a) => push_one(r, "Print(", a),
        Op::PrintASCII(a) => push_one(r, "PrintASCII(", a),
        Op::Subtract(a, v) => push_pair(r, "Subtract(", a, v),
        Op::Add(a, v) => push_pair(r, "Add(", a, v),
        Op::If(a, b, c) => push_if(r, a, b, c),
        Op::Fi => r.append("Fi"),
        Op::Mark(f) => push_in(r, "Mark(", "FlagRef", f.0),
        Op::Unmark(f) => push_in(r, "Unmark(", "FlagRef", f.0),
        Op::Pin(f) => push_in(r, "Pin(", "FlagRef", f.0),
        Op::Goto => r.append("Goto"),
        Op::UndefineArray(a) => push_in(r, "UndefineArray(", "ArrayRef", a.0),
    }
}

/// A dump of operation lines, one per line (see `op_line_debug`).
pub fn format_op_collection(ops: &[OpLine]) -> (r: String)
    ensures
        r@ == concat_map(op_lines_view(ops@), |l: OpLineV| op_line_debug(l)),
{
    let ghost lines = op_lines_view(ops@);
    let ghost f = |l: OpLineV| op_line_debug(l);
    let mut r = String::new();
    let mut k: usize = 0;
    while k < ops.len()
        invariant
            k <= ops.len(),
            lines == op_lines_view(ops@),
            f == (|l: OpLineV| op_line_debug(l)),
            r@ == concat_map(lines.subrange(0, k as int), f),
        decreases ops.len() - k,
    {
        let line = &ops[k];
        let ghost before = r@;
        r.append("[");
        push_nat(&mut r, line.line_num as u64);
        r.append("]\"");
        r.append(line.line_text.as_str());
        r.append("\" -> ");
        push_op(&mut r, line.op);
        r.append("\n");
        proof {
            assert(lines.subrange(0, k + 1).drop_last() =~= lines.subrange(0, k as int));
            assert(lines[k as int] == line@);
        }
        assert(r@ =~= concat_map(lines.subrange(0, k + 1), f));
        k += 1;
    }
    assert(lines.subrange(0, k as int) =~= lines);
    r
}

/// The table lines of the first `k` entries of each kind.
pub open spec fn var_lines(vars: Seq<Seq<char>>, k: int) -> Seq<char>
    decreases k,
{
    if k <= 0 {
        Seq::empty()
    } else {
        var_lines(vars, k - 1) + "{"@ + vars[k - 1] + "} var with RValue("@ + nat_text((k - 1) as nat) + ")\n"@
    }
}

pub open spec fn array_lines(arrays: Seq<(Seq<char>, usize)>, k: int) -> Seq<char>
    decreases k,
{
    if k <= 0 {
        Seq::empty()
    } else {
        array_lines(arrays, k - 1) + "{"@ + arrays[k - 1].0 + "["@ + nat_text(arrays[k - 1].1 as nat)
            + "]} array with ArrayRef("@ + nat_text((k - 1) as nat) + ")\n"@
    }
}

pub open spec fn flag_lines(flags: Seq<Seq<char>>, k: int) -> Seq<char>
    decreases k,
{
    if k <= 0 {
        Seq::empty()
    } else {
        flag_lines(flags, k - 1) + "{"@ + flags[k - 1] + "} flag with FlagRef("@ + nat_text((k - 1) as nat) + ")\n"@
    }
}

/// A dump of a representation: its tables, one entry per line, then its
/// operations.
pub open spec fn representation_debug(r: RepresentationV) -> Seq<char> {
    var_lines(r.tables.vars, r.tables.vars.len() as int) + array_lines(r.tables.arrays, r.tables.arrays.len() as int)
        + flag_lines(r.tables.flags, r.tables.flags.len() as int) + "\n"@ + concat_map(
        r.ops,
        |l: OpLineV| op_line_debug(l),
    )
}

pub fn format_representation(repr: &Representation) -> (r: String)
    ensures
        r@ == representation_debug(repr@),
{
    let ghost t = repr@.tables;
    let mut r = String::new();
    let mut k: usize = 0;
    while k < repr.variables_names.len()
        invariant
            k <= repr.variables_names.len(),
            t == repr@.tables,
            r@ == var_lines(t.vars, k as int),
        decreases repr.variables_names.len() - k,
    {
        r.append("{");
        r.append(repr.variables_names[k].as_str());
        r.append("} var with RValue(");
        push_nat(&mut r, k as u64);
        r.append(")\n");
        assert(r@ =~= var_lines(t.vars, k + 1));
        k += 1;
    }
    let mut r2 = String::new();
    k = 0;
    while k < repr.array_names.len()
        invariant
            k <= repr.array_names.len(),
            t == repr@.tables,
            r2@ == array_lines(t.arrays, k as int),
        decreases repr.array_names.len() - k,
    {
        r2.append("{");
        r2.append(repr.array_names[k].0.as_str());
        r2.append("[");
        push_nat(&mut r2, repr.array_names[k].1 as u64);
        r2.append("]} array with ArrayRef(");
        push_nat(&mut r2, k as u64);
        r2.append(")\n");
        assert(r2@ =~= array_lines(t.arrays, k + 1));
        k += 1;
    }
    let mut r3 = String::new();
    k = 0;
    while k < repr.flags_names.len()
        invariant
            k <= repr.flags_names.len(),
            t == repr@.tables,
            r3@ == flag_lines(t.flags, k as int),
        decreases repr.flags_names.len() - k,
    {
        r3.append("{");
        r3.append(repr.flags_names[k].as_str());
        r3.append("} flag with FlagRef(");
        push_nat(&mut r3, k as u64);
        r3.append(")\n");
        assert(r3@ =~= flag_lines(t.flags, k + 1));
        k += 1;
    }
    let ops = format_op_collection(repr.ops.as_slice());
    r.append(r2.as_str());
    r.append(r3.as_str());
    r.append("\n");
    r.append(ops.as_str());
    r
}

} // verus!
