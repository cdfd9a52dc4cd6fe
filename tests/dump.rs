use gnalose_compiler::dump::{format_op_collection, format_representation};
use gnalose_compiler::lexer::tokenize;
use gnalose_compiler::parser::parse_to_repr;

const PROGRAM: &str = "if a lower or equal than arr[i]\nfi\nhalt\nforget L\nunmark L\nadd arr[2] to arr[a]\nsub 7 from a\nprint arr[a]\nread to a\nundefine single arr[10]\nundefine a";

#[test]
fn dump_ops_as_debug_writes_them() {
    let repr = parse_to_repr(&tokenize(PROGRAM).unwrap()).unwrap();
    let expected: String = repr
        .ops
        .iter()
        .map(|a| format!("[{}]\"{}\" -> {:?}\n", a.line_num, a.line_text, a.op))
        .collect();
    assert_eq!(format_op_collection(&repr.ops), expected);
    assert!(expected.contains("Add(LValue(7), RValue(RValue(0)))"));
    assert!(expected.contains(
        "Subtract(ArrayElement(ArrayElement { array_ref: ArrayRef(0), index: LValue(2) }), ArrayElement(ArrayElement { array_ref: ArrayRef(0), index: RValue(RValue(0)) }))"
    ));
}

#[test]
fn dump_representation_lists_tables_then_ops() {
    let repr = parse_to_repr(&tokenize("unmark L\nundefine single arr[3]\nundefine x").unwrap()).unwrap();
    assert_eq!(
        format_representation(&repr),
        "{x} var with RValue(0)\n{arr[3]} array with ArrayRef(0)\n{L} flag with FlagRef(0)\n\n\
         [1]\"undefine x\" -> Define(RValue(0))\n\
         [2]\"undefine single arr[3]\" -> DefineArray(ArrayRef(0))\n\
         [3]\"unmark L\" -> Mark(FlagRef(0))\n"
    );
}
