//! The intermediate representation that the parser produces and the code
//! generator consumes: an operation list and three name tables.
use vstd::prelude::*;

verus! {

/// Handle of a scalar variable: its index in the variable table.
#[derive(Debug, Clone, Copy, PartialEq, Eq, Structural)]
pub struct RValue(pub usize);

/// Handle of an array: its index in the array table.
#[derive(Debug, Clone, Copy, PartialEq, Eq, Structural)]
pub struct ArrayRef(pub usize);

/// Handle of a label: its index in the label table.
#[derive(Debug, Clone, Copy, PartialEq, Eq, Structural)]
pub struct FlagRef(pub usize);

/// An operand in index position: a literal or a scalar variable.
#[derive(Debug, Clone, Copy, PartialEq, Eq, Structural)]
pub enum IValue {
    LValue(i32),
    RValue(RValue),
}

/// An element of an array, indexed by a literal or a scalar variable.
#[derive(Debug, Clone, Copy, PartialEq, Eq, Structural)]
pub struct ArrayElement {
    pub array_ref: ArrayRef,
    pub index: IValue,
}

/// An operand in storage position: a scalar variable or an array element.
#[derive(Debug, Clone, Copy, PartialEq, Eq, Structural)]
pub enum VValue {
    RValue(RValue),
    ArrayElement(ArrayElement),
}

/// An operand in read position: a literal, a scalar variable or an array element.
#[derive(Debug, Clone, Copy, PartialEq, Eq, Structural)]
pub enum AValue {
    LValue(i32),
    RValue(RValue),
    ArrayElement(ArrayElement),
}

pub open spec fn ivalue_as_avalue(v: IValue) -> AValue {
    match v {
        IValue::LValue(l) => AValue::LValue(l),
        IValue::RValue(r) => AValue::RValue(r),
    }
}

pub open spec fn vvalue_as_avalue(v: VValue) -> AValue {
    match v {
        VValue::RValue(r) => AValue::RValue(r),
        VValue::ArrayElement(e) => AValue::ArrayElement(e),
    }
}

impl IValue {
    pub fn as_avalue(&self) -> (r: AValue)
        ensures
            r == ivalue_as_avalue(*self),
    {
        match self {
            IValue::RValue(rf) => AValue::RValue(*rf),
            IValue::LValue(vl) => AValue::LValue(*vl),
        }
    }
}

impl VValue {
    pub fn as_avalue(&self) -> (r: AValue)
        ensures
            r == vvalue_as_avalue(*self),
    {
        match self {
            VValue::RValue(rf) => AValue::RValue(*rf),
            VValue::ArrayElement(e) => AValue::ArrayElement(*e),
        }
    }
}

/// A comparison; the one an `If` holds is the negation of the source's.
#[derive(Debug, Clone, Copy, PartialEq, Eq, Structural)]
pub enum ConditionType {
    Equal,
    NotEqual,
    Less,
    Greater,
    LessOrEqual,
    GreaterOrEqual,
}

/// One operation of the program.
#[derive(Debug, Clone, Copy, PartialEq, Eq, Structural)]
pub enum Op {
    Define(RValue),
    DefineArray(ArrayRef),
    Undefine(RValue),
    Read(VValue),
    Print(AValue),
    PrintASCII(AValue),
    Subtract(AValue, VValue),
    Add(AValue, VValue),
    If(AValue, AValue, ConditionType),
    Fi,
    Mark(FlagRef),
    Unmark(FlagRef),
    Pin(FlagRef),
    Goto,
    UndefineArray(ArrayRef),
}

/// An operation with the 1-based line (counted from the bottom) and the raw
/// text it came from.
#[derive(Debug)]
pub struct OpLine {
    pub op: Op,
    pub line_num: usize,
    pub line_text: String,
}

pub struct OpLineV {
    pub op: Op,
    pub line_num: usize,
    pub line_text: Seq<char>,
}

impl View for OpLine {
    type V = OpLineV;

    open spec fn view(&self) -> OpLineV {
        OpLineV { op: self.op, line_num: self.line_num, line_text: self.line_text@ }
    }
}

impl OpLine {
    pub fn new(op: Op, line_num: usize, line_text: String) -> (r: OpLine)
        ensures
            r.op == op,
            r.line_num == line_num,
            r.line_text == line_text,
    {
        OpLine { op, line_num, line_text }
    }
}

/// The name tables of a program: variables, arrays with their sizes, labels.
pub struct Tables {
    pub vars: Seq<Seq<char>>,
    pub arrays: Seq<(Seq<char>, usize)>,
    pub flags: Seq<Seq<char>>,
}

pub open spec fn array_names_of(arrays: Seq<(Seq<char>, usize)>) -> Seq<Seq<char>> {
    arrays.map_values(|p: (Seq<char>, usize)| p.0)
}

/// The first position of `n` in `names` at or after `i`.
pub open spec fn position_from(names: Seq<Seq<char>>, n: Seq<char>, i: int) -> Option<int>
    decreases names.len() - i,
{
    if i < 0 || i >= names.len() {
        None
    } else if names[i] == n {
        Some(i)
    } else {
        position_from(names, n, i + 1)
    }
}

/// The first position of `n` in `names`.
pub open spec fn position(names: Seq<Seq<char>>, n: Seq<char>) -> Option<int> {
    position_from(names, n, 0)
}

pub proof fn lemma_position_from(names: Seq<Seq<char>>, n: Seq<char>, i: int)
    requires
        0 <= i <= names.len(),
    ensures
        position_from(names, n, i) matches Some(p) ==> i <= p < names.len() && names[p] == n,
        position_from(names, n, i) is None ==> forall|q: int| i <= q < names.len() ==> names[q] != n,
    decreases names.len() - i,
{
    if i < names.len() {
        lemma_position_from(names, n, i + 1);
    }
}

/// What `position` says: the first index that holds `n`, if any does.
pub proof fn lemma_position(names: Seq<Seq<char>>, n: Seq<char>)
    ensures
        position(names, n) matches Some(p) ==> 0 <= p < names.len() && names[p] == n && forall|q: int|
            0 <= q < p ==> names[q] != n,
        position(names, n) is None <==> !names.contains(n),
{
    lemma_position_from(names, n, 0);
    lemma_position_first(names, n, 0);
    if names.contains(n) {
        let q = choose|q: int| 0 <= q < names.len() && names[q] == n;
        assert(names[q] == n);
    }
}

proof fn lemma_position_first(names: Seq<Seq<char>>, n: Seq<char>, i: int)
    requires
        0 <= i <= names.len(),
    ensures
        position_from(names, n, i) matches Some(p) ==> forall|q: int| i <= q < p ==> names[q] != n,
    decreases names.len() - i,
{
    if i < names.len() {
        lemma_position_first(names, n, i + 1);
    }
}

/// The intermediate representation of a program.
#[derive(Debug, Default)]
pub struct Representation {
    pub variables_names: Vec<String>,
    pub array_names: Vec<(String, usize)>,
    pub flags_names: Vec<String>,
    pub ops: Vec<OpLine>,
}

pub struct RepresentationV {
    pub tables: Tables,
    pub ops: Seq<OpLineV>,
}

pub open spec fn names_view(v: Seq<String>) -> Seq<Seq<char>> {
    v.map_values(|s: String| s@)
}

pub open spec fn arrays_view(v: Seq<(String, usize)>) -> Seq<(Seq<char>, usize)> {
    v.map_values(|p: (String, usize)| (p.0@, p.1))
}

pub open spec fn op_lines_view(v: Seq<OpLine>) -> Seq<OpLineV> {
    v.map_values(|o: OpLine| o@)
}

impl View for Representation {
    type V = RepresentationV;

    open spec fn view(&self) -> RepresentationV {
        RepresentationV {
            tables: Tables {
                vars: names_view(self.variables_names@),
                arrays: arrays_view(self.array_names@),
                flags: names_view(self.flags_names@),
            },
            ops: op_lines_view(self.ops@),
        }
    }
}

/// The first index of a string equal to `t` in `names`.
pub(crate) fn find_name(names: &Vec<String>, t: &String) -> (r: Option<usize>)
    ensures
        r matches Some(i) ==> position(names_view(names@), t@) == Some(i as int),
        r is None ==> position(names_view(names@), t@) is None,
{
    let ghost nv = names_view(names@);
    let mut i: usize = 0;
    while i < names.len()
        invariant
            i <= names.len(),
            nv == names_view(names@),
            position(nv, t@) == position_from(nv, t@, i as int),
        decreases names.len() - i,
    {
        if names[i] == *t {
            return Some(i);
        }
        i += 1;
    }
    None
}

/// The first index of an array named `t` in `arrays`.
pub(crate) fn find_array(arrays: &Vec<(String, usize)>, t: &String) -> (r: Option<usize>)
    ensures
        r matches Some(i) ==> position(array_names_of(arrays_view(arrays@)), t@) == Some(i as int),
        r is None ==> position(array_names_of(arrays_view(arrays@)), t@) is None,
{
    let ghost nv = array_names_of(arrays_view(arrays@));
    let mut i: usize = 0;
    while i < arrays.len()
        invariant
            i <= arrays.len(),
            nv == array_names_of(arrays_view(arrays@)),
            position(nv, t@) == position_from(nv, t@, i as int),
        decreases arrays.len() - i,
    {
        if arrays[i].0 == *t {
            return Some(i);
        }
        i += 1;
    }
    None
}

impl Representation {
    pub fn get_flag(&self, t: &str) -> (r: Option<FlagRef>)
        ensures
            r matches Some(f) ==> position(self@.tables.flags, t@) == Some(f.0 as int),
            r is None ==> position(self@.tables.flags, t@) is None,
    {
        match find_name(&self.flags_names, &String::from_str(t)) {
            Some(i) => Some(FlagRef(i)),
            None => None,
        }
    }

    pub fn get_variable(&self, t: &str) -> (r: Option<RValue>)
        ensures
            r matches Some(v) ==> position(self@.tables.vars, t@) == Some(v.0 as int),
            r is None ==> position(self@.tables.vars, t@) is None,
    {
        match find_name(&self.variables_names, &String::from_str(t)) {
            Some(i) => Some(RValue(i)),
            None => None,
        }
    }

    pub fn get_array(&self, t: &str) -> (r: Option<ArrayRef>)
        ensures
            r matches Some(a) ==> position(array_names_of(self@.tables.arrays), t@) == Some(a.0 as int),
            r is None ==> position(array_names_of(self@.tables.arrays), t@) is None,
    {
        match find_array(&self.array_names, &String::from_str(t)) {
            Some(i) => Some(ArrayRef(i)),
            None => None,
        }
    }

    pub fn get_flag_name(&self, id: FlagRef) -> (r: String)
        requires
            id.0 < self.flags_names.len(),
        ensures
            r@ == self@.tables.flags[id.0 as int],
    {
        self.flags_names[id.0].clone()
    }

    pub fn get_variable_name(&self, id: RValue) -> (r: String)
        requires
            id.0 < self.variables_names.len(),
        ensures
            r@ == self@.tables.vars[id.0 as int],
    {
        self.variables_names[id.0].clone()
    }

    pub fn get_array_name(&self, id: ArrayRef) -> (r: String)
        requires
            id.0 < self.array_names.len(),
        ensures
            r@ == self@.tables.arrays[id.0 as int].0,
    {
        self.array_names[id.0].0.clone()
    }

    pub fn get_array_size(&self, id: ArrayRef) -> (r: usize)
        requires
            id.0 < self.array_names.len(),
        ensures
            r == self@.tables.arrays[id.0 as int].1,
    {
        self.array_names[id.0].1
    }
}

/// The kind of thing a name stands for.
#[derive(Debug, Clone, Copy, PartialEq, Eq, Structural)]
pub enum NameType {
    Variable,
    Array,
    Flag,
}

impl NameType {
    /// The name of the kind.
    pub fn describe(&self) -> (r: &'static str)
        ensures
            r@ == name_type_text(*self),
    {
        match self {
            NameType::Variable => "Variable",
            NameType::Array => "Array",
            NameType::Flag => "Flag",
        }
    }
}

pub open spec fn name_type_text(k: NameType) -> Seq<char> {
    match k {
        NameType::Variable => "Variable"@,
        NameType::Array => "Array"@,
        NameType::Flag => "Flag"@,
    }
}

/// Why a line could not be parsed.
#[derive(Debug, Clone, PartialEq, Eq)]
pub enum OpParsingError {
    NameUsedTwice(String, NameType, NameType),
    NotDefinedVariable(String, NameType),
    InvalidStructure,
    DoubleLabel(String),
}

pub enum OpParsingErrorV {
    NameUsedTwice(Seq<char>, NameType, NameType),
    NotDefinedVariable(Seq<char>, NameType),
    InvalidStructure,
    DoubleLabel(Seq<char>),
}

impl View for OpParsingError {
    type V = OpParsingErrorV;

    open spec fn view(&self) -> OpParsingErrorV {
        match self {
            OpParsingError::NameUsedTwice(n, a, b) => OpParsingErrorV::NameUsedTwice(n@, *a, *b),
            OpParsingError::NotDefinedVariable(n, a) => OpParsingErrorV::NotDefinedVariable(n@, *a),
            OpParsingError::InvalidStructure => OpParsingErrorV::InvalidStructure,
            OpParsingError::DoubleLabel(n) => OpParsingErrorV::DoubleLabel(n@),
        }
    }
}

/// The message of a parse error.
pub open spec fn parse_error_text(e: OpParsingErrorV) -> Seq<char> {
    match e {
        OpParsingErrorV::InvalidStructure => "The line is not mathing any correct command"@,
        OpParsingErrorV::NameUsedTwice(n, a, b) => "The name \""@ + n + "\" is used both for "@
            + name_type_text(a) + " and "@ + name_type_text(b),
        OpParsingErrorV::NotDefinedVariable(n, a) => "\""@ + n + "\" is not defined as "@ + name_type_text(a)
            + " at this point"@,
        OpParsingErrorV::DoubleLabel(n) => "label \""@ + n + "\" was defined twice"@,
    }
}

impl OpParsingError {
    /// A description of the error for the user.
    pub fn message(&self) -> (r: String)
        ensures
            r@ == parse_error_text(self@),
    {
        match self {
            OpParsingError::InvalidStructure => String::from_str("The line is not mathing any correct command"),
            OpParsingError::NameUsedTwice(name, type_a, type_b) => {
                let mut r = String::from_str("The name \"");
                r.append(name.as_str());
                r.append("\" is used both for ");
                r.append(type_a.describe());
                r.append(" and ");
                r.append(type_b.describe());
                r
            },
            OpParsingError::NotDefinedVariable(name, type_a) => {
                let mut r = String::from_str("\"");
                r.append(name.as_str());
                r.append("\" is not defined as ");
                r.append(type_a.describe());
                r.append(" at this point");
                r
            },
            OpParsingError::DoubleLabel(label) => {
                let mut r = String::from_str("label \"");
                r.append(label.as_str());
                r.append("\" was defined twice");
                r
            },
        }
    }
}

/// What a slot of a command template accepts.
#[derive(Debug, Clone, Copy, PartialEq, Eq, Structural)]
pub enum AllowedKind {
    Name,
    VValue,
    AValue,
    ArrayRef,
}

/// The index written between the brackets of an array operand.
#[derive(Debug, Clone, PartialEq, Eq)]
pub enum NameOrNumber {
    String(String),
    Number(i32),
}

pub enum NameOrNumberV {
    String(Seq<char>),
    Number(i32),
}

impl View for NameOrNumber {
    type V = NameOrNumberV;

    open spec fn view(&self) -> NameOrNumberV {
        match self {
            NameOrNumber::String(s) => NameOrNumberV::String(s@),
            NameOrNumber::Number(v) => NameOrNumberV::Number(*v),
        }
    }
}

/// An operand as written: a name, an array element or a literal.
#[derive(Debug, Clone, PartialEq, Eq)]
pub enum HigherToken {
    Name(String),
    Array(String, NameOrNumber),
    Literal(i32),
}

pub enum HigherTokenV {
    Name(Seq<char>),
    Array(Seq<char>, NameOrNumberV),
    Literal(i32),
}

impl View for HigherToken {
    type V = HigherTokenV;

    open spec fn view(&self) -> HigherTokenV {
        match self {
            HigherToken::Name(s) => HigherTokenV::Name(s@),
            HigherToken::Array(s, i) => HigherTokenV::Array(s@, i@),
            HigherToken::Literal(v) => HigherTokenV::Literal(*v),
        }
    }
}

impl HigherToken {
    pub fn try_to_name_ref(&self) -> (r: Option<&str>)
        ensures
            r matches Some(s) ==> self@ == HigherTokenV::Name(s@),
            r is None ==> !(self@ is Name),
    {
        if let HigherToken::Name(name) = self {
            return Some(name.as_str());
        }
        None
    }
}

/// Whether a slot of kind `k` accepts the operand `t`.
pub open spec fn fits(k: AllowedKind, t: HigherTokenV) -> bool {
    match k {
        AllowedKind::Name => t is Name,
        AllowedKind::VValue => t is Name || t is Array,
        AllowedKind::AValue => true,
        AllowedKind::ArrayRef => t is Array,
    }
}

impl AllowedKind {
    pub fn check(&self, t: &HigherToken) -> (r: bool)
        ensures
            r == fits(*self, t@),
    {
        match *self {
            AllowedKind::Name => matches!(t, HigherToken::Name(_)),
            AllowedKind::VValue => matches!(t, HigherToken::Name(_)) || matches!(t, HigherToken::Array(_, _)),
            AllowedKind::AValue => true,
            AllowedKind::ArrayRef => matches!(t, HigherToken::Array(_, _)),
        }
    }
}

/// No name occurs twice in `names`.
pub open spec fn distinct_names(names: Seq<Seq<char>>) -> bool {
    forall|i: int, j: int| 0 <= i < j < names.len() ==> names[i] != names[j]
}

/// Each table holds a name at most once, and no name is in two tables: a
/// name stands for one kind of thing only.
pub open spec fn tables_wf(t: Tables) -> bool {
    &&& distinct_names(t.vars)
    &&& distinct_names(array_names_of(t.arrays))
    &&& distinct_names(t.flags)
    &&& forall|n: Seq<char>| !(t.vars.contains(n) && array_names_of(t.arrays).contains(n))
    &&& forall|n: Seq<char>| !(t.vars.contains(n) && t.flags.contains(n))
    &&& forall|n: Seq<char>| !(array_names_of(t.arrays).contains(n) && t.flags.contains(n))
}

/// Whether the name `n` stands for a thing of kind `k` in the tables.
pub open spec fn has_kind(t: Tables, n: Seq<char>, k: NameType) -> bool {
    match k {
        NameType::Variable => t.vars.contains(n),
        NameType::Array => array_names_of(t.arrays).contains(n),
        NameType::Flag => t.flags.contains(n),
    }
}

pub open spec fn ivalue_ok(v: IValue, t: Tables) -> bool {
    match v {
        IValue::LValue(_) => true,
        IValue::RValue(r) => r.0 < t.vars.len(),
    }
}

pub open spec fn element_ok(e: ArrayElement, t: Tables) -> bool {
    e.array_ref.0 < t.arrays.len() && ivalue_ok(e.index, t)
}

pub open spec fn avalue_ok(v: AValue, t: Tables) -> bool {
    match v {
        AValue::LValue(_) => true,
        AValue::RValue(r) => r.0 < t.vars.len(),
        AValue::ArrayElement(e) => element_ok(e, t),
    }
}

pub open spec fn vvalue_ok(v: VValue, t: Tables) -> bool {
    match v {
        VValue::RValue(r) => r.0 < t.vars.len(),
        VValue::ArrayElement(e) => element_ok(e, t),
    }
}

/// Every handle in `op` is in range for its table.
pub open spec fn op_ok(op: Op, t: Tables) -> bool {
    match op {
        Op::Define(r) => r.0 < t.vars.len(),
        Op::Undefine(r) => r.0 < t.vars.len(),
        Op::DefineArray(a) => a.0 < t.arrays.len(),
        Op::UndefineArray(a) => a.0 < t.arrays.len(),
        Op::Read(v) => vvalue_ok(v, t),
        Op::Print(a) => avalue_ok(a, t),
        Op::PrintASCII(a) => avalue_ok(a, t),
        Op::Subtract(a, v) => avalue_ok(a, t) && vvalue_ok(v, t),
        Op::Add(a, v) => avalue_ok(a, t) && vvalue_ok(v, t),
        Op::If(a, b, _) => avalue_ok(a, t) && avalue_ok(b, t),
        Op::Mark(f) => f.0 < t.flags.len(),
        Op::Unmark(f) => f.0 < t.flags.len(),
        Op::Pin(f) => f.0 < t.flags.len(),
        Op::Goto => true,
        Op::Fi => true,
    }
}

/// `t2` holds at least as many entries as `t1` in each table.
pub open spec fn grows(t1: Tables, t2: Tables) -> bool {
    t1.vars.len() <= t2.vars.len() && t1.arrays.len() <= t2.arrays.len() && t1.flags.len()
        <= t2.flags.len()
}

/// A representation whose tables are well formed and whose operations refer
/// to entries of them only.
pub open spec fn repr_wf(r: RepresentationV) -> bool {
    &&& tables_wf(r.tables)
    &&& forall|i: int| 0 <= i < r.ops.len() ==> op_ok(#[trigger] r.ops[i].op, r.tables)
}

fn names_distinct(names: &Vec<String>) -> (r: bool)
    ensures
        r == distinct_names(names_view(names@)),
{
    let ghost nv = names_view(names@);
    let mut i: usize = 0;
    while i < names.len()
        invariant
            i <= names.len(),
            nv == names_view(names@),
            forall|k: int| 0 <= k < i ==> position(nv, #[trigger] nv[k]) == Some(k),
        decreases names.len() - i,
    {
        let found = find_name(names, &names[i]);
        proof {
            lemma_position(nv, nv[i as int]);
        }
        if found != Some(i) {
            proof {
                let p = position(nv, nv[i as int])->0;
                assert(nv[p] == nv[i as int] && p != i);
            }
            return false;
        }
        i += 1;
    }
    proof {
        assert forall|a: int, b: int| 0 <= a < b < nv.len() implies nv[a] != nv[b] by {
            lemma_position(nv, nv[b]);
            assert(position(nv, nv[b]) == Some(b));
        }
    }
    true
}

fn array_names_distinct(arrays: &Vec<(String, usize)>) -> (r: bool)
    ensures
        r == distinct_names(array_names_of(arrays_view(arrays@))),
{
    let ghost nv = array_names_of(arrays_view(arrays@));
    let mut i: usize = 0;
    while i < arrays.len()
        invariant
            i <= arrays.len(),
            nv == array_names_of(arrays_view(arrays@)),
            forall|k: int| 0 <= k < i ==> position(nv, #[trigger] nv[k]) == Some(k),
        decreases arrays.len() - i,
    {
        let found = find_array(arrays, &arrays[i].0);
        proof {
            lemma_position(nv, nv[i as int]);
        }
        if found != Some(i) {
            proof {
                let p = position(nv, nv[i as int])->0;
                assert(nv[p] == nv[i as int] && p != i);
            }
            return false;
        }
        i += 1;
    }
    proof {
        assert forall|a: int, b: int| 0 <= a < b < nv.len() implies nv[a] != nv[b] by {
            lemma_position(nv, nv[b]);
            assert(position(nv, nv[b]) == Some(b));
        }
    }
    true
}

/// Whether no name of `a` is in `b`.
fn names_apart(a: &Vec<String>, b: &Vec<String>) -> (r: bool)
    ensures
        r == forall|n: Seq<char>| !(names_view(a@).contains(n) && names_view(b@).contains(n)),
{
    let ghost av = names_view(a@);
    let ghost bv = names_view(b@);
    let mut i: usize = 0;
    while i < a.len()
        invariant
            i <= a.len(),
            av == names_view(a@),
            bv == names_view(b@),
            forall|k: int| 0 <= k < i ==> !bv.contains(#[trigger] av[k]),
        decreases a.len() - i,
    {
        proof {
            lemma_position(bv, av[i as int]);
        }
        if find_name(b, &a[i]).is_some() {
            assert(av.contains(av[i as int]));
            return false;
        }
        i += 1;
    }
    proof {
        assert forall|n: Seq<char>| !(av.contains(n) && bv.contains(n)) by {
            if av.contains(n) {
                let k = choose|k: int| 0 <= k < av.len() && av[k] == n;
                assert(!bv.contains(av[k]));
            }
        }
    }
    true
}

/// Whether no name of `a` is the name of an array of `b`.
fn names_apart_from_arrays(a: &Vec<String>, b: &Vec<(String, usize)>) -> (r: bool)
    ensures
        r == forall|n: Seq<char>| !(names_view(a@).contains(n) && array_names_of(arrays_view(b@)).contains(n)),
{
    let ghost av = names_view(a@);
    let ghost bv = array_names_of(arrays_view(b@));
    let mut i: usize = 0;
    while i < a.len()
        invariant
            i <= a.len(),
            av == names_view(a@),
            bv == array_names_of(arrays_view(b@)),
            forall|k: int| 0 <= k < i ==> !bv.contains(#[trigger] av[k]),
        decreases a.len() - i,
    {
        proof {
            lemma_position(bv, av[i as int]);
        }
        if find_array(b, &a[i]).is_some() {
            assert(av.contains(av[i as int]));
            return false;
        }
        i += 1;
    }
    proof {
        assert forall|n: Seq<char>| !(av.contains(n) && bv.contains(n)) by {
            if av.contains(n) {
                let k = choose|k: int| 0 <= k < av.len() && av[k] == n;
                assert(!bv.contains(av[k]));
            }
        }
    }
    true
}

fn ivalue_in_range(v: IValue, r: &Representation) -> (b: bool)
    ensures
        b == ivalue_ok(v, r@.tables),
{
    match v {
        IValue::LValue(_) => true,
        IValue::RValue(x) => x.0 < r.variables_names.len(),
    }
}

fn element_in_range(e: ArrayElement, r: &Representation) -> (b: bool)
    ensures
        b == element_ok(e, r@.tables),
{
    e.array_ref.0 < r.array_names.len() && ivalue_in_range(e.index, r)
}

fn avalue_in_range(v: AValue, r: &Representation) -> (b: bool)
    ensures
        b == avalue_ok(v, r@.tables),
{
    match v {
        AValue::LValue(_) => true,
        AValue::RValue(x) => x.0 < r.variables_names.len(),
        AValue::ArrayElement(e) => element_in_range(e, r),
    }
}

fn vvalue_in_range(v: VValue, r: &Representation) -> (b: bool)
    ensures
        b == vvalue_ok(v, r@.tables),
{
    match v {
        VValue::RValue(x) => x.0 < r.variables_names.len(),
        VValue::ArrayElement(e) => element_in_range(e, r),
    }
}

fn op_in_range(op: Op, r: &Representation) -> (b: bool)
    ensures
        b == op_ok(op, r@.tables),
{
    match op {
        Op::Define(x) => x.0 < r.variables_names.len(),
        Op::Undefine(x) => x.0 < r.variables_names.len(),
        Op::DefineArray(a) => a.0 < r.array_names.len(),
        Op::UndefineArray(a) => a.0 < r.array_names.len(),
        Op::Read(v) => vvalue_in_range(v, r),
        Op::Print(a) => avalue_in_range(a, r),
        Op::PrintASCII(a) => avalue_in_range(a, r),
        Op::Subtract(a, v) => avalue_in_range(a, r) && vvalue_in_range(v, r),
        Op::Add(a, v) => avalue_in_range(a, r) && vvalue_in_range(v, r),
        Op::If(a, b, _) => avalue_in_range(a, r) && avalue_in_range(b, r),
        Op::Mark(f) => f.0 < r.flags_names.len(),
        Op::Unmark(f) => f.0 < r.flags_names.len(),
        Op::Pin(f) => f.0 < r.flags_names.len(),
        Op::Goto => true,
        Op::Fi => true,
    }
}

impl Representation {
    /// Whether the tables are well formed and every operation refers to
    /// their entries only: what the code generator asks of its input.
    pub fn is_well_formed(&self) -> (r: bool)
        ensures
            r == repr_wf(self@),
    {
        if !(names_distinct(&self.variables_names) && array_names_distinct(&self.array_names) && names_distinct(
            &self.flags_names,
        ) && names_apart_from_arrays(&self.variables_names, &self.array_names) && names_apart(
            &self.variables_names,
            &self.flags_names,
        ) && names_apart_from_arrays(&self.flags_names, &self.array_names)) {
            proof {
                if tables_wf(self@.tables) {
                    let t = self@.tables;
                    assert forall|n: Seq<char>| !(t.flags.contains(n) && array_names_of(t.arrays).contains(n)) by {
                        assert(!(array_names_of(t.arrays).contains(n) && t.flags.contains(n)));
                    }
                }
            }
            return false;
        }
        let ghost rv = self@;
        let mut i: usize = 0;
        while i < self.ops.len()
            invariant
                i <= self.ops.len(),
                rv == self@,
                forall|k: int| 0 <= k < i ==> op_ok(#[trigger] rv.ops[k].op, rv.tables),
            decreases self.ops.len() - i,
        {
            assert(rv.ops[i as int].op == self.ops[i as int].op);
            if !op_in_range(self.ops[i].op, self) {
                return false;
            }
            i += 1;
        }
        proof {
            let t = self@.tables;
            assert forall|n: Seq<char>| !(array_names_of(t.arrays).contains(n) && t.flags.contains(n)) by {
                assert(!(t.flags.contains(n) && array_names_of(t.arrays).contains(n)));
            }
        }
        true
    }
}

} // verus!
