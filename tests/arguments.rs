use gnalose_compiler::arguments::{parse_arguments, ArgumentParsingError};
use gnalose_compiler::string_builder::{bulk, collapse, push, push_line, reduce_additive, Builder};
use gnalose_compiler::utility::build_step;

fn args(v: &[&str]) -> Vec<String> {
    v.iter().map(|s| s.to_string()).collect()
}

#[test]
fn arguments_missing_input() {
    let err = parse_arguments(&args(&[])).unwrap_err();
    assert_eq!(err, ArgumentParsingError::MissingInputFile);
    assert_eq!(err.get_descr(), "No file name provided");
}

#[test]
fn arguments_defaults() {
    let a = parse_arguments(&args(&["  prog.gn "])).unwrap();
    assert_eq!(a.input_file_name, "prog.gn");
    assert_eq!(a.output_file_name, "output.c");
    assert!(!a.flags.verbose);
    assert!(!a.flags.print_everything);
}

#[test]
fn arguments_all_options() {
    let a = parse_arguments(&args(&["in.gn", "-v", "-o", "out.c", "-p", "-x"])).unwrap();
    assert_eq!(a.input_file_name, "in.gn");
    assert_eq!(a.output_file_name, "out.c");
    assert!(a.flags.verbose);
    assert!(a.flags.print_everything);
}

#[test]
fn arguments_output_without_path() {
    let err = parse_arguments(&args(&["in.gn", "-o"])).unwrap_err();
    assert_eq!(
        err,
        ArgumentParsingError::IncorrectArgument(String::from("-o should be followed with output file name"))
    );
    assert_eq!(
        err.get_descr(),
        "Argument couldn't be parsed: -o should be followed with output file name"
    );
}

#[test]
fn string_builder_pieces() {
    let mut v: Vec<char> = vec!['a'];
    push(&mut v, "bc");
    push_line(&mut v, "d");
    assert_eq!(collapse(v), "abcd\n");
    let mut b = Builder::new();
    b.push("x");
    b.push_line("yz");
    assert_eq!(b.collapse(), "xyz\n");
    assert_eq!(bulk(&vec![String::from("1"), String::from("23")]), "123");
}

#[test]
fn reduce_additive_joins_mapped_items() {
    let items = vec![1u8, 2, 3];
    assert_eq!(reduce_additive(&items, |x: &u8| format!("<{}>", x)), "<1><2><3>");
    let none: Vec<u8> = vec![];
    assert_eq!(reduce_additive(&none, |x: &u8| format!("{}", x)), "");
}

#[test]
fn build_step_collects_until_none() {
    let data = [1, 2, 3, 4, 5];
    let doubled = build_step(&data[..], |s: &[i32]| if s.is_empty() { None } else { Some((&s[1..], s[0] * 2)) });
    assert_eq!(doubled, vec![2, 4, 6, 8, 10]);
    let pairs = build_step(&data[..], |s: &[i32]| if s.len() < 2 { None } else { Some((&s[2..], s[0] + s[1])) });
    assert_eq!(pairs, vec![3, 7]);
}
