//! Parsing the command line into a substitution job.
//!
//! The grammar: positional arguments are the pattern, the replacement, and
//! any number of paths, in that order; `-m`/`--multiline` and
//! `-s`/`--singleline` pick the mode; `-h`/`--help` asks for the help text;
//! `--` stops flag processing.  With no path given, the current directory
//! stands in.  The pattern is compiled as soon as it is seen, and an invalid
//! one fails the whole parse.  Printing the help or the errors is left to
//! the program around the library.

use crate::pattern::{regex_valid, Pattern};
use vstd::prelude::*;

verus! {

/// Whether substitution works line by line or on the whole file at once.
#[derive(Debug, Clone, Copy, PartialEq, Eq, Structural)]
pub enum FarMode {
    Lines,
    All,
}

/// Why the command line was refused.
#[derive(Debug)]
pub enum ArgsError {
    /// The pattern did not compile.
    InvalidRegex(fancy_regex::Error),
    /// Nothing was given at all.
    NoArgsGiven,
    /// A pattern was given but no replacement.
    OnlyPatternGiven,
    /// A flag that the grammar does not know.
    UnrecognizedArgument(String),
    /// The help was asked for; the program prints it and stops.
    HelpRequested,
}

/// The accumulating parse state, at the specification level.
pub struct ParseState {
    pub pattern: Option<Seq<char>>,
    pub replacement: Option<Seq<char>>,
    pub paths: Seq<Seq<char>>,
    pub mode: FarMode,
    pub process_flags: bool,
}

/// How the parse failed, at the specification level.
pub enum ParseFailure {
    /// The pattern text does not compile.
    BadPattern(Seq<char>),
    /// An unknown flag.
    Unrecognized(Seq<char>),
    /// The help was asked for.
    Help,
}

/// The parse after some arguments: still going, or failed.
pub enum ParseOutcome {
    Going(ParseState),
    Failed(ParseFailure),
}

/// The state before any argument: nothing seen, line mode, flags live.
pub open spec fn initial_state() -> ParseState {
    ParseState {
        pattern: None,
        replacement: None,
        paths: Seq::empty(),
        mode: FarMode::Lines,
        process_flags: true,
    }
}

/// Whether an argument is treated as a flag: flag processing is still live
/// and the argument starts with a dash.
pub open spec fn spec_is_flag(st: ParseState, arg: Seq<char>) -> bool {
    st.process_flags && arg.len() > 0 && arg[0] == '-'
}

/// One flag's effect on the state.
pub open spec fn spec_handle_flag(st: ParseState, arg: Seq<char>) -> ParseOutcome {
    if arg == "--help"@ || arg == "-h"@ {
        ParseOutcome::Failed(ParseFailure::Help)
    } else if arg == "--multiline"@ || arg == "-m"@ {
        ParseOutcome::Going(ParseState { mode: FarMode::All, ..st })
    } else if arg == "--singleline"@ || arg == "-s"@ {
        ParseOutcome::Going(ParseState { mode: FarMode::Lines, ..st })
    } else if arg == "--"@ {
        ParseOutcome::Going(ParseState { process_flags: false, ..st })
    } else {
        ParseOutcome::Failed(ParseFailure::Unrecognized(arg))
    }
}

/// One positional argument's effect on the state: the first is the pattern
/// (and must compile), the second the replacement, the rest are paths.
pub open spec fn spec_handle_positional(st: ParseState, arg: Seq<char>) -> ParseOutcome {
    if st.pattern is None {
        if regex_valid(arg) {
            ParseOutcome::Going(ParseState { pattern: Some(arg), ..st })
        } else {
            ParseOutcome::Failed(ParseFailure::BadPattern(arg))
        }
    } else if st.replacement is None {
        ParseOutcome::Going(ParseState { replacement: Some(arg), ..st })
    } else {
        ParseOutcome::Going(ParseState { paths: st.paths.push(arg), ..st })
    }
}

/// One argument's effect on the state.
pub open spec fn spec_handle_argument(st: ParseState, arg: Seq<char>) -> ParseOutcome {
    if spec_is_flag(st, arg) {
        spec_handle_flag(st, arg)
    } else {
        spec_handle_positional(st, arg)
    }
}

/// The whole argument list folded over the state; the first failure stops
/// the fold.
pub open spec fn spec_parse(st: ParseState, args: Seq<Seq<char>>) -> ParseOutcome
    decreases args.len(),
{
    if args.len() == 0 {
        ParseOutcome::Going(st)
    } else {
        match spec_handle_argument(st, args.first()) {
            ParseOutcome::Going(st2) => spec_parse(st2, args.drop_first()),
            ParseOutcome::Failed(k) => ParseOutcome::Failed(k),
        }
    }
}

/// The paths a finished parse works on: those given, or the current
/// directory where none was.
pub open spec fn spec_final_paths(paths: Seq<Seq<char>>) -> Seq<Seq<char>> {
    if paths.len() == 0 {
        seq!["."@]
    } else {
        paths
    }
}

/// A parsed command line: the compiled pattern, the replacement, the paths
/// to walk, and the mode.
#[derive(Debug)]
pub struct Args {
    pub pattern: Pattern,
    pub replacement: String,
    pub paths: Vec<String>,
    pub mode: FarMode,
}

/// The accumulating parser.
struct IncompleteArgs {
    pattern: Option<Pattern>,
    replacement: Option<String>,
    paths: Vec<String>,
    mode: FarMode,
    process_flags: bool,
}

impl IncompleteArgs {
    spec fn st(&self) -> ParseState {
        ParseState {
            pattern: match self.pattern {
                Some(p) => Some(p@),
                None => None,
            },
            replacement: match self.replacement {
                Some(r) => Some(r@),
                None => None,
            },
            paths: self.paths.deep_view(),
            mode: self.mode,
            process_flags: self.process_flags,
        }
    }

    fn new() -> (r: Self)
        ensures
            r.st() == initial_state(),
    {
        let r = IncompleteArgs {
            pattern: None,
            replacement: None,
            paths: Vec::new(),
            mode: FarMode::Lines,
            process_flags: true,
        };
        proof {
            assert(r.st().paths =~= initial_state().paths);
        }
        r
    }

    fn handle_positional(&mut self, arg: &String) -> (r: Result<(), ArgsError>)
        ensures
            spec_handle_positional(old(self).st(), arg@) matches ParseOutcome::Going(st2) ==> (r
                is Ok && final(self).st() == st2),
            spec_handle_positional(old(self).st(), arg@) matches ParseOutcome::Failed(k) ==> (r
                matches Err(e) && k matches ParseFailure::BadPattern(p) && p == arg@ && e
                is InvalidRegex),
    {
        if self.pattern.is_none() {
            match Pattern::new(arg.as_str()) {
                Ok(p) => {
                    self.pattern = Some(p);
                    proof {
                        assert(final(self).st() == ParseState {
                            pattern: Some(arg@),
                            ..old(self).st()
                        });
                    }
                    Ok(())
                },
                Err(e) => Err(ArgsError::InvalidRegex(e)),
            }
        } else if self.replacement.is_none() {
            self.replacement = Some(arg.clone());
            proof {
                assert(final(self).st() == ParseState { replacement: Some(arg@), ..old(self).st() });
            }
            Ok(())
        } else {
            self.paths.push(arg.clone());
            proof {
                assert(final(self).st().paths =~= old(self).st().paths.push(arg@));
                assert(final(self).st() == ParseState {
                    paths: old(self).st().paths.push(arg@),
                    ..old(self).st()
                });
            }
            Ok(())
        }
    }

    fn handle_flag(&mut self, arg: &String) -> (r: Result<(), ArgsError>)
        ensures
            spec_handle_flag(old(self).st(), arg@) matches ParseOutcome::Going(st2) ==> (r is Ok
                && final(self).st() == st2),
            spec_handle_flag(old(self).st(), arg@) matches ParseOutcome::Failed(k) ==> (r matches
                Err(e) && final(self).st() == old(self).st() && match k {
                ParseFailure::Help => e is HelpRequested,
                ParseFailure::Unrecognized(u) => e matches ArgsError::UnrecognizedArgument(t) && t@
                    == u && u == arg@,
                ParseFailure::BadPattern(_) => false,
            }),
    {
        if str_is(arg, "--help") || str_is(arg, "-h") {
            Err(ArgsError::HelpRequested)
        } else if str_is(arg, "--multiline") || str_is(arg, "-m") {
            self.mode = FarMode::All;
            Ok(())
        } else if str_is(arg, "--singleline") || str_is(arg, "-s") {
            self.mode = FarMode::Lines;
            Ok(())
        } else if str_is(arg, "--") {
            self.process_flags = false;
            Ok(())
        } else {
            Err(ArgsError::UnrecognizedArgument(arg.clone()))
        }
    }

    fn handle_argument(&mut self, arg: &String) -> (r: Result<(), ArgsError>)
        ensures
            spec_handle_argument(old(self).st(), arg@) matches ParseOutcome::Going(st2) ==> (r
                is Ok && final(self).st() == st2),
            spec_handle_argument(old(self).st(), arg@) matches ParseOutcome::Failed(k) ==> (r
                matches Err(e) && match k {
                ParseFailure::Help => e is HelpRequested,
                ParseFailure::Unrecognized(u) => e matches ArgsError::UnrecognizedArgument(t) && t@
                    == u && u == arg@,
                ParseFailure::BadPattern(p) => p == arg@ && e is InvalidRegex,
            }),
    {
        let is_flag = if self.process_flags {
            let s = arg.as_str();
            if s.unicode_len() > 0 {
                s.get_char(0) == '-'
            } else {
                false
            }
        } else {
            false
        };
        if is_flag {
            self.handle_flag(arg)
        } else {
            self.handle_positional(arg)
        }
    }

    fn to_args(self) -> (r: Result<Args, ArgsError>)
        ensures
            self.st().pattern is None ==> (r matches Err(e) && e is NoArgsGiven),
            self.st().pattern is Some && self.st().replacement is None ==> (r matches Err(e) && e
                is OnlyPatternGiven),
            self.st().pattern is Some && self.st().replacement is Some ==> (r matches Ok(a) && {
                &&& a.pattern@ == self.st().pattern->0
                &&& a.replacement@ == self.st().replacement->0
                &&& a.paths.deep_view() == spec_final_paths(self.st().paths)
                &&& a.mode == self.st().mode
            }),
    {
        let IncompleteArgs { pattern, replacement, mut paths, mode, process_flags } = self;
        if paths.len() == 0 {
            let dot: String = ".".to_owned();
            paths.push(dot);
            proof {
                assert(paths.deep_view() =~= seq!["."@]);
            }
        }
        match (pattern, replacement) {
            (None, _) => Err(ArgsError::NoArgsGiven),
            (Some(_), None) => Err(ArgsError::OnlyPatternGiven),
            (Some(pat), Some(repl)) => Ok(
                Args { pattern: pat, replacement: repl, paths, mode },
            ),
        }
    }
}

fn str_is(arg: &String, lit: &str) -> (r: bool)
    ensures
        r == (arg@ == lit@),
{
    let s: String = lit.to_owned();
    *arg == s
}

/// Parse a whole argument list, the program's own name left out.  Success
/// is owed exactly when folding the grammar over the arguments accepts them
/// and both a pattern and a replacement were seen; each refusal names the
/// first argument at fault.
pub fn parse_args(args: Vec<String>) -> (r: Result<Args, ArgsError>)
    ensures
        ({
            let folded = spec_parse(initial_state(), args.deep_view());
            match folded {
                ParseOutcome::Failed(k) => r matches Err(e) && match k {
                    ParseFailure::Help => e is HelpRequested,
                    ParseFailure::Unrecognized(u) => e matches ArgsError::UnrecognizedArgument(t)
                        && t@ == u,
                    ParseFailure::BadPattern(_) => e is InvalidRegex,
                },
                ParseOutcome::Going(st) => {
                    &&& st.pattern is None ==> (r matches Err(e) && e is NoArgsGiven)
                    &&& st.pattern is Some && st.replacement is None ==> (r matches Err(e) && e
                        is OnlyPatternGiven)
                    &&& st.pattern is Some && st.replacement is Some ==> (r matches Ok(a) && {
                        &&& a.pattern@ == st.pattern->0
                        &&& a.replacement@ == st.replacement->0
                        &&& a.paths.deep_view() == spec_final_paths(st.paths)
                        &&& a.mode == st.mode
                    })
                },
            }
        }),
{
    let ghost aseq = args.deep_view();
    let mut ia = IncompleteArgs::new();
    let n = args.len();
    let mut i: usize = 0;
    proof {
        assert(aseq.skip(0) =~= aseq);
    }
    while i < n
        invariant
            n == args.len(),
            aseq == args.deep_view(),
            aseq.len() == n,
            0 <= i <= n,
            spec_parse(initial_state(), aseq) == spec_parse(ia.st(), aseq.skip(i as int)),
        decreases n - i,
    {
        let arg = &args[i];
        proof {
            assert(aseq.skip(i as int).first() == arg@);
            assert(aseq.skip(i as int).drop_first() =~= aseq.skip(i as int + 1));
        }
        match ia.handle_argument(arg) {
            Ok(_) => {},
            Err(e) => {
                return Err(e);
            },
        }
        i = i + 1;
    }
    proof {
        assert(aseq.skip(n as int) =~= Seq::<Seq<char>>::empty());
        assert(spec_parse(initial_state(), aseq) == ParseOutcome::Going(ia.st()));
    }
    ia.to_args()
}

} // verus!
