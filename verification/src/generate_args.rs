//! The options of the DSL generator: where to write, whether to format the
//! output, and the debugging and help switches.

use vstd::prelude::*;
use crate::text::str_eq;

verus! {

/// What the command line asks of the generator.
pub enum GenerateArgs {
    /// Generate, into `out_dir` when given.
    Run { out_dir: Option<String>, print_debug: bool, no_format: bool },
    /// Print the usage text.
    Help,
    /// `--out-dir` came without a value.
    MissingOutDir,
    /// An argument the generator does not know.
    Unknown(String),
}

/// Options as values, after the first `k` arguments.
pub struct ArgsState {
    pub out_dir: Option<Seq<char>>,
    pub print_debug: bool,
    pub no_format: bool,
}

/// How reading the arguments ends.
pub enum ArgsEnd {
    Run(ArgsState),
    Help,
    MissingOutDir,
    Unknown(Seq<char>),
}

/// Reads the arguments from place `i` on, with the options so far.
pub open spec fn read_args(args: Seq<Seq<char>>, i: int, st: ArgsState) -> ArgsEnd
    decreases args.len() - i,
{
    if i >= args.len() || i < 0 {
        ArgsEnd::Run(st)
    } else {
        let a = args[i];
        if a == "--out-dir"@ {
            if i + 1 >= args.len() {
                ArgsEnd::MissingOutDir
            } else {
                read_args(args, i + 2, ArgsState { out_dir: Some(args[i + 1]), ..st })
            }
        } else if a == "--print-resolver-debug"@ {
            read_args(args, i + 1, ArgsState { print_debug: true, ..st })
        } else if a == "--no-format"@ {
            read_args(args, i + 1, ArgsState { no_format: true, ..st })
        } else if a == "--help"@ || a == "-h"@ {
            ArgsEnd::Help
        } else {
            ArgsEnd::Unknown(a)
        }
    }
}

pub open spec fn args_view(args: Seq<String>) -> Seq<Seq<char>> {
    args.map_values(|a: String| a@)
}

pub open spec fn opt_text(o: Option<String>) -> Option<Seq<char>> {
    match o {
        Some(d) => Some(d@),
        None => None,
    }
}

pub open spec fn outcome_view(r: GenerateArgs) -> ArgsEnd {
    match r {
        GenerateArgs::Run { out_dir, print_debug, no_format } => ArgsEnd::Run(ArgsState {
            out_dir: match out_dir {
                Some(d) => Some(d@),
                None => None,
            },
            print_debug,
            no_format,
        }),
        GenerateArgs::Help => ArgsEnd::Help,
        GenerateArgs::MissingOutDir => ArgsEnd::MissingOutDir,
        GenerateArgs::Unknown(a) => ArgsEnd::Unknown(a@),
    }
}

/// Reads the generator's arguments (without the program name). A later
/// `--out-dir` wins; help and errors end the reading at once.
pub fn parse_generate_args(args: &Vec<String>) -> (r: GenerateArgs)
    ensures
        outcome_view(r) == read_args(args_view(args@), 0, ArgsState { out_dir: None, print_debug: false, no_format: false }),
{
    let ghost view = args_view(args@);
    let ghost start = ArgsState { out_dir: None, print_debug: false, no_format: false };
    let mut out_dir: Option<String> = None;
    let mut print_debug = false;
    let mut no_format = false;
    let mut i: usize = 0;
    while i < args.len()
        invariant
            view == args_view(args@),
            start == (ArgsState { out_dir: None, print_debug: false, no_format: false }),
            view.len() == args@.len(),
            i <= args@.len(),
            read_args(view, 0, start) == read_args(view, i as int, ArgsState { out_dir: opt_text(out_dir), print_debug, no_format }),
        decreases args@.len() - i,
    {
        let a = args[i].as_str();
        assert(a@ == view[i as int]);
        let ghost st = ArgsState { out_dir: opt_text(out_dir), print_debug, no_format };
        if str_eq(a, "--out-dir") {
            if i + 1 >= args.len() {
                assert(read_args(view, i as int, st) == ArgsEnd::MissingOutDir);
                return GenerateArgs::MissingOutDir;
            }
            assert(args[i + 1]@ == view[i + 1]);
            out_dir = Some(args[i + 1].clone());
            i = i + 2;
        } else if str_eq(a, "--print-resolver-debug") {
            print_debug = true;
            i = i + 1;
        } else if str_eq(a, "--no-format") {
            no_format = true;
            i = i + 1;
        } else if str_eq(a, "--help") || str_eq(a, "-h") {
            assert(read_args(view, i as int, st) == ArgsEnd::Help);
            return GenerateArgs::Help;
        } else {
            return GenerateArgs::Unknown(args[i].clone());
        }
    }
    GenerateArgs::Run { out_dir, print_debug, no_format }
}

/// The barrel file re-exporting the generated modules.
pub fn barrel_index() -> (r: &'static str)
    ensures
        r@ == "// AUTO-GENERATED — DO NOT EDIT. Run `yarn generate-lib` to regenerate.\n\nexport * from './factories';\nexport * from './reservedOutputNames';\n"@,
{
    "// AUTO-GENERATED — DO NOT EDIT. Run `yarn generate-lib` to regenerate.\n\nexport * from './factories';\nexport * from './reservedOutputNames';\n"
}

} // verus!
