use gnalose_compiler::lexer::tokenize;
use gnalose_compiler::parser::parse_to_repr;
use gnalose_compiler::representation::Op::{
    Add, Define, DefineArray, Fi, Goto, If, Mark, Pin, Print, PrintASCII, Read, Subtract, Undefine,
    UndefineArray, Unmark,
};
use gnalose_compiler::representation::{
    AValue, ArrayElement, ArrayRef, ConditionType, FlagRef, IValue, NameType, OpLine, OpParsingError, RValue,
    Representation, VValue,
};
use gnalose_compiler::utility::LinedError;

fn parse(code: &str) -> Result<Representation, LinedError<OpParsingError>> {
    let tokens = tokenize(code).unwrap();
    parse_to_repr(&tokens)
}

#[test]
fn lexer_and_parser_test_a() {
    let code = r#"
        read to a
        sub 3 from trash
        read to a
        print a
        undefine trash
        undefine a
        "#;

    let tokens = tokenize(code).unwrap();
    let repr = parse_to_repr(&tokens).unwrap();

    let a: RValue = repr.get_variable("a").unwrap();
    let trash: RValue = repr.get_variable("trash").unwrap();

    assert_eq!(repr.ops.len(), 6);

    assert_eq!(repr.ops[0].op, Define(a));
    assert_eq!(repr.ops[1].op, Define(trash));
    assert_eq!(repr.ops[2].op, Read(VValue::RValue(a)));
    assert_eq!(repr.ops[3].op, Print(AValue::RValue(a)));
    assert_eq!(repr.ops[4].op, Add(AValue::LValue(3), VValue::RValue(trash)));
    assert_eq!(repr.ops[5].op, Print(AValue::RValue(a)));
}

#[test]
fn parser_line_numbers_count_from_the_bottom() {
    let repr = parse("define x\na note/\nundefine x").unwrap();
    assert_eq!(repr.ops.len(), 2);
    assert_eq!(repr.ops[0].line_num, 1);
    assert_eq!(repr.ops[0].line_text, "undefine x");
    assert_eq!(repr.ops[1].line_num, 3);
    assert_eq!(repr.ops[1].op, Undefine(RValue(0)));
}

#[test]
fn parser_every_command_template() {
    let code = "fi\n\
                if a greater or equal than 1\n\
                if a lower or equal than 1\n\
                if a equal to b\n\
                if a lower than b\n\
                if a not equal to b\n\
                if a greater than b\n\
                halt\n\
                forget L\n\
                mark L\n\
                unmark L\n\
                sub arr[a] from b\n\
                add 5 to arr[2]\n\
                read as number to 7\n\
                read to arr[i]\n\
                print b\n\
                define single arr\n\
                define a\n\
                undefine single arr[10]\n\
                undefine b\n\
                undefine a";
    let repr = parse(code).unwrap();
    let a = RValue(0);
    let b = RValue(1);
    let i = RValue(2);
    let arr = ArrayRef(0);
    let l = FlagRef(0);
    let ops: Vec<_> = repr.ops.iter().map(|o| o.op).collect();
    assert_eq!(
        ops,
        vec![
            Define(a),
            Define(b),
            DefineArray(arr),
            Undefine(a),
            UndefineArray(arr),
            Read(VValue::RValue(b)),
            Print(AValue::ArrayElement(ArrayElement { array_ref: arr, index: IValue::RValue(i) })),
            PrintASCII(AValue::LValue(7)),
            Subtract(
                AValue::LValue(5),
                VValue::ArrayElement(ArrayElement { array_ref: arr, index: IValue::LValue(2) })
            ),
            Add(
                AValue::ArrayElement(ArrayElement { array_ref: arr, index: IValue::RValue(a) }),
                VValue::RValue(b)
            ),
            Mark(l),
            Unmark(l),
            Pin(l),
            Goto,
            If(AValue::RValue(a), AValue::RValue(b), ConditionType::LessOrEqual),
            If(AValue::RValue(a), AValue::RValue(b), ConditionType::Equal),
            If(AValue::RValue(a), AValue::RValue(b), ConditionType::GreaterOrEqual),
            If(AValue::RValue(a), AValue::RValue(b), ConditionType::NotEqual),
            If(AValue::RValue(a), AValue::LValue(1), ConditionType::Greater),
            If(AValue::RValue(a), AValue::LValue(1), ConditionType::Less),
            Fi,
        ]
    );
    assert_eq!(repr.variables_names, vec!["a", "b", "i"]);
    assert_eq!(repr.array_names, vec![(String::from("arr"), 10)]);
    assert_eq!(repr.flags_names, vec!["L"]);
    assert_eq!(repr.get_array_size(arr), 10);
    assert_eq!(repr.get_flag("L"), Some(l));
    assert_eq!(repr.get_array("arr"), Some(arr));
    assert_eq!(repr.get_variable("zzz"), None);
    assert_eq!(repr.get_variable_name(i), "i");
    assert_eq!(repr.get_array_name(arr), "arr");
    assert_eq!(repr.get_flag_name(l), "L");
}

#[test]
fn parser_use_before_definition_is_not_defined() {
    let err = parse("print x").unwrap_err();
    assert_eq!(err.content, OpParsingError::NotDefinedVariable(String::from("x"), NameType::Variable));
    assert_eq!(err.line, 1);
    assert_eq!(err.lines_amount, 1);
    assert_eq!(err.related_text, "print x");
}

#[test]
fn parser_definition_above_use_is_not_defined() {
    let err = parse("undefine x\nprint x").unwrap_err();
    assert_eq!(err.content, OpParsingError::NotDefinedVariable(String::from("x"), NameType::Variable));
}

#[test]
fn parser_unknown_array_and_label_are_not_defined() {
    let err = parse("define single arr").unwrap_err();
    assert_eq!(err.content, OpParsingError::NotDefinedVariable(String::from("arr"), NameType::Array));
    let err = parse("forget L").unwrap_err();
    assert_eq!(err.content, OpParsingError::NotDefinedVariable(String::from("L"), NameType::Flag));
}

#[test]
fn parser_invalid_structure() {
    let err = parse("fly away\nundefine x").unwrap_err();
    assert_eq!(err.content, OpParsingError::InvalidStructure);
    assert_eq!(err.line, 2);
    assert_eq!(err.related_text, "fly away");
    let err = parse("undefine single arr[i]").unwrap_err();
    assert_eq!(err.content, OpParsingError::InvalidStructure);
}

#[test]
fn parser_double_label() {
    let err = parse("unmark L\nunmark L").unwrap_err();
    assert_eq!(err.content, OpParsingError::DoubleLabel(String::from("L")));
    assert_eq!(err.line, 2);
}

#[test]
fn parser_name_used_twice() {
    let err = parse("unmark x\nundefine x").unwrap_err();
    assert_eq!(
        err.content,
        OpParsingError::NameUsedTwice(String::from("x"), NameType::Variable, NameType::Flag)
    );
    let err = parse("undefine single x[3]\nundefine x").unwrap_err();
    assert_eq!(
        err.content,
        OpParsingError::NameUsedTwice(String::from("x"), NameType::Variable, NameType::Array)
    );
}

#[test]
fn parser_array_redefinition_keeps_first_size() {
    let repr = parse("undefine single arr[9]\nundefine single arr[4]").unwrap();
    assert_eq!(repr.array_names, vec![(String::from("arr"), 4)]);
    assert_eq!(repr.ops[1].op, DefineArray(ArrayRef(0)));
}

#[test]
fn parser_comment_only_source_has_no_ops() {
    let repr = parse("a comment/\n  /another / one/\n").unwrap();
    assert_eq!(repr.ops.len(), 0);
    assert!(repr.variables_names.is_empty());
}

#[test]
fn parser_output_is_well_formed() {
    let repr = parse("print arr[i]\nunmark L\nundefine single arr[2]\nundefine x").unwrap();
    assert!(repr.is_well_formed());
}

#[test]
fn representation_with_bad_handles_is_not_well_formed() {
    let mut repr = Representation::default();
    repr.variables_names.push(String::from("x"));
    repr.ops.push(OpLine::new(Define(RValue(1)), 1, String::from("undefine y")));
    assert!(!repr.is_well_formed());
    let mut twice = Representation::default();
    twice.variables_names.push(String::from("x"));
    twice.flags_names.push(String::from("x"));
    assert!(!twice.is_well_formed());
    let mut dup = Representation::default();
    dup.array_names.push((String::from("a"), 1));
    dup.array_names.push((String::from("a"), 2));
    assert!(!dup.is_well_formed());
}
