//! The command line of the compiler: an input path, `-o PATH`, `-v`, `-p`.
use vstd::prelude::*;
use crate::lexer::{trim, trim_chars};
use crate::string_builder::{chars_of, collapse};

verus! {

/// The switches of a run: print each stage's time (`verbose`), print each
/// stage's output (`print_everything`).
#[derive(Debug, Clone, Copy, PartialEq, Eq, Structural)]
pub struct ArgumentFlags {
    pub verbose: bool,
    pub print_everything: bool,
}

impl ArgumentFlags {
    pub fn empty() -> (r: ArgumentFlags)
        ensures
            !r.verbose && !r.print_everything,
    {
        ArgumentFlags { verbose: false, print_everything: false }
    }
}

/// What the command line asks for.
#[derive(Debug)]
pub struct Arguments {
    pub input_file_name: String,
    pub output_file_name: String,
    pub flags: ArgumentFlags,
}

/// Why the command line could not be read.
#[derive(Debug, Clone, PartialEq, Eq)]
pub enum ArgumentParsingError {
    MissingInputFile,
    IncorrectArgument(String),
}

/// The message of a `-o` without a path after it.
pub const MISSING_OUTPUT: &'static str = "-o should be followed with output file name";

/// The output path when none is given.
pub const DEFAULT_OUTPUT: &'static str = "output.c";

impl ArgumentParsingError {
    /// A description of the error for the user.
    pub fn get_descr(&self) -> (r: String)
        ensures
            r@ == (match self {
                ArgumentParsingError::MissingInputFile => "No file name provided"@,
                ArgumentParsingError::IncorrectArgument(reason) => "Argument couldn't be parsed: "@ + reason@,
            }),
    {
        match self {
            ArgumentParsingError::MissingInputFile => String::from_str("No file name provided"),
            ArgumentParsingError::IncorrectArgument(reason) => {
                let mut r = String::from_str("Argument couldn't be parsed: ");
                r.append(reason.as_str());
                r
            },
        }
    }
}

/// The options from argument `i` on, given those read before it: `-v` and
/// `-p` set their switch, `-o` takes the next argument as the output path
/// (an error when there is none), anything else is ignored.
pub open spec fn scan_options(s: Seq<Seq<char>>, i: int, flags: ArgumentFlags, output: Seq<char>) -> Result<
    (ArgumentFlags, Seq<char>),
    (),
>
    decreases s.len() - i,
{
    if i < 1 || i >= s.len() {
        Ok((flags, output))
    } else if s[i] == "-v"@ {
        scan_options(s, i + 1, ArgumentFlags { verbose: true, ..flags }, output)
    } else if s[i] == "-p"@ {
        scan_options(s, i + 1, ArgumentFlags { print_everything: true, ..flags }, output)
    } else if s[i] == "-o"@ {
        if i + 1 < s.len() {
            scan_options(s, i + 2, flags, s[i + 1])
        } else {
            Err(())
        }
    } else {
        scan_options(s, i + 1, flags, output)
    }
}

pub open spec fn args_view(s: Seq<String>) -> Seq<Seq<char>> {
    s.map_values(|a: String| a@)
}

/// Reads the arguments that follow the program's name: the first is the
/// input path (trimmed), the others are options (see `scan_options`); the
/// output path is `output.c` unless `-o` gives one.
pub fn parse_arguments(s: &Vec<String>) -> (r: Result<Arguments, ArgumentParsingError>)
    ensures
        s.len() == 0 ==> r == Err::<Arguments, ArgumentParsingError>(ArgumentParsingError::MissingInputFile),
        s.len() > 0 ==> match scan_options(args_view(s@), 1, ArgumentFlags { verbose: false, print_everything: false }, DEFAULT_OUTPUT@) {
            Ok((flags, output)) => r matches Ok(a) && a.flags == flags && a.output_file_name@ == output
                && a.input_file_name@ == trim(s@[0]@),
            Err(_) => r matches Err(ArgumentParsingError::IncorrectArgument(m)) && m@ == MISSING_OUTPUT@,
        },
{
    if s.len() == 0 {
        return Err(ArgumentParsingError::MissingInputFile);
    }
    let ghost sv = args_view(s@);
    let ghost start = ArgumentFlags { verbose: false, print_everything: false };
    let mut arguments = ArgumentFlags::empty();
    let mut output = String::from_str(DEFAULT_OUTPUT);
    let v = String::from_str("-v");
    let p = String::from_str("-p");
    let o = String::from_str("-o");
    let mut i: usize = 1;
    while i < s.len()
        invariant
            1 <= i <= s.len(),
            sv == args_view(s@),
            start == (ArgumentFlags { verbose: false, print_everything: false }),
            v@ == "-v"@,
            p@ == "-p"@,
            o@ == "-o"@,
            scan_options(sv, 1, start, DEFAULT_OUTPUT@) == scan_options(sv, i as int, arguments, output@),
        decreases s.len() - i,
    {
        assert(s[i as int]@ == sv[i as int]);
        if s[i] == v {
            arguments.verbose = true;
        } else if s[i] == p {
            arguments.print_everything = true;
        } else if s[i] == o {
            if i + 1 >= s.len() {
                assert(scan_options(sv, i as int, arguments, output@) == Err::<(ArgumentFlags, Seq<char>), ()>(()));
                return Err(ArgumentParsingError::IncorrectArgument(String::from_str(MISSING_OUTPUT)));
            }
            output = s[i + 1].clone();
            assert(output@ == sv[i + 1]);
            i += 1;
        }
        i += 1;
    }
    let input = collapse(trim_chars(&chars_of(s[0].as_str())));
    Ok(Arguments { input_file_name: input, output_file_name: output, flags: arguments })
}

} // verus!
