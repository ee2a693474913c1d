//! Command-line argument parsing: the output directory may be given
//! once, either positionally or through the directory flag.

use vstd::prelude::*;
use vstd::string::StringExecFns;
use crate::order::str_same;

verus! {

/// Why the command line was rejected.
#[derive(Debug, PartialEq)]
pub enum ArgError {
    /// The directory flag came last, with no path after it.
    MissingDirValue,
    /// A second positional argument after the directory was chosen.
    UnexpectedArgument(String),
}

/// The message reported for an argument error.
pub open spec fn arg_error_text(e: ArgError) -> Seq<char> {
    match e {
        ArgError::MissingDirValue => "--dir requires a path"@,
        ArgError::UnexpectedArgument(a) => "Unexpected argument: "@ + a@,
    }
}

impl ArgError {
    /// Renders the error as the message the tool reports.
    pub fn message(&self) -> (r: String)
        ensures
            r@ == arg_error_text(*self),
    {
        match self {
            ArgError::MissingDirValue => String::from_str("--dir requires a path"),
            ArgError::UnexpectedArgument(a) => {
                let mut s = String::from_str("Unexpected argument: ");
                s.append(a.as_str());
                s
            },
        }
    }
}

/// What parsing the arguments from position `i` on yields, with `acc`
/// the directory chosen so far: the flag takes the next argument as the
/// directory and may be repeated; a positional argument chooses the
/// directory once, and a second one is an error.
pub open spec fn parse_from(args: Seq<Seq<char>>, i: int, acc: Option<Seq<char>>) -> Result<
    Option<Seq<char>>,
    Seq<char>,
>
    decreases args.len() - i,
{
    if i < 0 || i >= args.len() {
        Ok(acc)
    } else if args[i] == "-d"@ || args[i] == "--dir"@ {
        if i + 1 < args.len() {
            parse_from(args, i + 2, Some(args[i + 1]))
        } else {
            Err("--dir requires a path"@)
        }
    } else if acc is Some {
        Err("Unexpected argument: "@ + args[i])
    } else {
        parse_from(args, i + 1, Some(args[i]))
    }
}

/// What parsing a whole argument list yields: the chosen output
/// directory, nothing when none was given, or an error message.
pub open spec fn spec_parse_args(args: Seq<Seq<char>>) -> Result<Option<Seq<char>>, Seq<char>> {
    parse_from(args, 0, None)
}

/// Parses the command-line arguments (the program name already
/// skipped): `Ok` carries the chosen output directory, if one was
/// given; an error names the argument that was rejected.
pub fn parse_output_dir_arg(args: &Vec<String>) -> (r: Result<Option<String>, ArgError>)
    ensures
        match r {
            Ok(d) => spec_parse_args(args.deep_view()) == Ok::<Option<Seq<char>>, Seq<char>>(
                d.deep_view(),
            ),
            Err(e) => spec_parse_args(args.deep_view()) == Err::<Option<Seq<char>>, Seq<char>>(
                arg_error_text(e),
            ),
        },
{
    let ghost av = args.deep_view();
    let mut acc: Option<String> = None;
    let mut i: usize = 0;
    while i < args.len()
        invariant
            i <= args.len(),
            av == args.deep_view(),
            spec_parse_args(av) == parse_from(av, i as int, acc.deep_view()),
        decreases args.len() - i,
    {
        proof {
            assert(av[i as int] == args@[i as int].deep_view());
        }
        let arg = &args[i];
        if str_same(arg.as_str(), "-d") || str_same(arg.as_str(), "--dir") {
            if i + 1 < args.len() {
                proof {
                    assert(av[i + 1] == args@[i + 1].deep_view());
                }
                acc = Some(args[i + 1].clone());
                i = i + 2;
            } else {
                return Err(ArgError::MissingDirValue);
            }
        } else if acc.is_some() {
            return Err(ArgError::UnexpectedArgument(arg.clone()));
        } else {
            acc = Some(arg.clone());
            i = i + 1;
        }
    }
    Ok(acc)
}

} // verus!
