use gnalose_compiler::compiler::{compile, CompilerError, INCLUDES, PRE_DECL};
use gnalose_compiler::lexer::tokenize;
use gnalose_compiler::parser::parse_to_repr;
use gnalose_compiler::pipeline::{compile_gnalose_to_c, PipelineError};

fn to_c(code: &str) -> String {
    compile_gnalose_to_c(code).unwrap()
}

fn compiler_error(code: &str) -> (usize, usize, String, CompilerError) {
    match compile_gnalose_to_c(code) {
        Err(PipelineError::Compiler(e)) => (e.line, e.lines_amount, e.related_text, e.content),
        other => panic!("expected a compiler error, got {:?}", other),
    }
}

#[test]
fn compile_empty_source_is_empty_main() {
    assert_eq!(to_c(""), "int main(){}");
}

#[test]
fn compile_comment_only_source_is_empty_main() {
    assert_eq!(to_c("just a note/\n   another/ one /  \n\n"), "int main(){}");
}

#[test]
fn compile_define_without_undefine_keeps_leak_check() {
    let expected = String::from(INCLUDES)
        + "\n"
        + PRE_DECL
        + "\n"
        + "int main(){\n"
        + "int __x=0; bool _isOn__x=false;\n"
        + "\n"
        + "\n"
        + "\n"
        + "__x=-global;_isOn__x=true;//undefine x\n"
        + "\n"
        + "LEAK_CHECK(_isOn__x,\"x\");"
        + "\n"
        + "}";
    assert_eq!(to_c("undefine x"), expected);
}

#[test]
fn compile_declares_arrays_and_labels() {
    let c = to_c("forget L\nunmark L\nundefine single arr[12]");
    assert!(c.contains("int _a_arr[12]={}; bool _isOn_a_arr=false;\n"));
    assert!(c.contains("bool _isOn_f_L=true;\n"));
    assert!(c.contains("for(int i=0;i<12;i++)\n{\n_a_arr[i]=-global;\n}\n_isOn_a_arr=true;//undefine single arr[12]\n"));
    assert!(c.contains("L://unmark L\n"));
    assert!(c.contains("ASSERT_ALIVE(_isOn_f_L);label=&&L;//forget L\n"));
    assert!(c.contains("LEAK_CHECK(_isOn_a_arr,\"arr\");LEAK_CHECK(_isOn_f_L,\"L\");"));
}

#[test]
fn compile_array_index_beyond_size_is_accepted() {
    let c = to_c("define single arr\nprint arr[5]\nundefine single arr[2]");
    assert!(c.contains(
        "ASSERT_ALIVE(_isOn_a_arr);scanf(\"%d\",&_a_arr[5]);_a_arr[5]-=global;//print arr[5]\n"
    ));
    assert!(c.contains("_isOn_a_arr=false;//define single arr\n"));
}

#[test]
fn compile_echo() {
    let c = to_c("define x\nread to x\nprint x\nundefine x");
    let read = c.find("ASSERT_ALIVE(_isOn__x);scanf(\"%d\",&__x);__x-=global;//print x\n").unwrap();
    let print = c.find("ASSERT_ALIVE(_isOn__x);printf(\"%d\\n\",get(__x));//read to x\n").unwrap();
    let undefine = c.find("_isOn__x=false;//define x\n").unwrap();
    assert!(read < print && print < undefine);
}

#[test]
fn compile_add_literal() {
    let c = to_c("define x\nread to x\nadd 5 to x\nprint x\nundefine x");
    assert!(c.contains(
        "{ASSERT_ALIVE(_isOn__x);int temp=5;int* addr=&__x;global-=temp;(*addr)+=temp;}//add 5 to x\n"
    ));
}

#[test]
fn compile_sub_variable_compensates_source() {
    let c = to_c("sub y from x\nundefine x\nundefine y");
    assert!(c.contains(
        "{ASSERT_ALIVE(_isOn__y);ASSERT_ALIVE(_isOn__x);int temp=get(__y);int* addr=&__x;global+=temp;(*addr)-=temp;__y-=temp;}//sub y from x\n"
    ));
}

#[test]
fn compile_array_operands_read_through_get() {
    let c = to_c("add arr[i] to arr[0]\nundefine i\nundefine single arr[3]");
    assert!(c.contains(
        "{ASSERT_ALIVE(_isOn_a_arr);ASSERT_ALIVE(_isOn_a_arr);int temp=get(_a_arr[get(__i)]);int* addr=&_a_arr[0];global-=temp;(*addr)+=temp;_a_arr[get(__i)]+=temp;}"
    ));
}

#[test]
fn compile_ascii() {
    let c = to_c("define c\nread as number to c\nadd 65 to c\nundefine c");
    assert!(c.contains("ASSERT_ALIVE(_isOn__c);printf(\"%c\\n\",(char)get(__c));//read as number to c\n"));
    assert!(c.contains("int temp=65;"));
}

#[test]
fn compile_conditional_uses_negated_comparison() {
    let code = "define a\ndefine b\nif a greater than b\nread to a\nfi\nadd 2 to b\nadd 3 to a\nundefine b\nundefine a";
    let c = to_c(code);
    assert!(c.contains("if(get(__a)<=get(__b)){\nASSERT_ALIVE(_isOn__a);printf(\"%d\\n\",get(__a));//read to a\n\n}\n"));
}

#[test]
fn compile_nested_conditionals() {
    let code = "if 3 lower than 4\nif 1 equal to 2\nfi\nfi\nundefine x";
    let c = to_c(code);
    assert!(c.contains("if(3>=4){\nif(1!=2){\n\n}\n\n}\n"));
}

#[test]
fn compile_goto_loop() {
    let code = "define n\nmark L\nif n equal to 0\nhalt\nfi\nsub 1 from n\nforget L\nunmark L\nundefine n";
    let c = to_c(code);
    assert!(c.contains("ASSERT_ALIVE(_isOn_f_L);label=&&L;//forget L\n"));
    assert!(c.contains("L://unmark L\n"));
    assert!(c.contains("if(get(__n)!=0){\nGOTO;//halt\n\n}\n"));
    assert!(c.contains("_isOn_f_L=false;//mark L\n"));
}

#[test]
fn compile_unmatched_if() {
    let (line, lines_amount, text, kind) = compiler_error("if 1 greater than 2\nundefine x");
    // the lone `If` is the second line from the bottom
    assert_eq!(kind, CompilerError::UnmatchedIf);
    assert_eq!(line, 2);
    assert_eq!(lines_amount, 2);
    assert_eq!(text, "if 1 greater than 2");
}

#[test]
fn compile_unmatched_fi() {
    let (line, _, text, kind) = compiler_error("fi\nundefine x");
    assert_eq!(kind, CompilerError::UnmatchedFi);
    assert_eq!(line, 2);
    assert_eq!(text, "fi");
}

#[test]
fn compile_inner_unmatched_fi() {
    let (_, _, text, kind) = compiler_error("if 1 equal to 1\nfi\nfi\nundefine x");
    assert_eq!(kind, CompilerError::UnmatchedFi);
    assert_eq!(text, "fi");
}

#[test]
fn compile_from_representation() {
    let tokens = tokenize("undefine x").unwrap();
    let repr = parse_to_repr(&tokens).unwrap();
    let c = compile(&repr).unwrap();
    assert!(c.starts_with("#include <stdio.h>\n #include <stdbool.h>\n #include <stdlib.h>\nint global=0;"));
    assert!(c.ends_with("LEAK_CHECK(_isOn__x,\"x\");\n}"));
}

#[test]
fn pipeline_reports_each_stage() {
    assert!(matches!(compile_gnalose_to_c("add 3000000000 to x"), Err(PipelineError::Lexer(_))));
    assert!(matches!(compile_gnalose_to_c("print x"), Err(PipelineError::Parser(_))));
    assert!(matches!(compile_gnalose_to_c("fi"), Err(PipelineError::Compiler(_))));
}

#[test]
fn compiler_error_names() {
    assert_eq!(CompilerError::UnmatchedFi.describe(), "UnmatchedFi");
    assert_eq!(CompilerError::UnmatchedIf.describe(), "UnmatchedIf");
}
