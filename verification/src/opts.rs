//! Command-line option parsing in the style of a classic linker driver:
//! long options with one or two leading dashes, short options with attached
//! or separate values, and a guard that keeps "-o..." from being read as a
//! long option.

use vstd::prelude::*;

verus! {

/// The options the driver understands; both take a value.
#[derive(Debug, Clone, Copy, PartialEq, Eq, Structural)]
pub enum OptName {
    Entry,
    Output,
}

#[derive(Debug, Clone, PartialEq, Eq)]
pub enum OptsError {
    /// An argument used the response-file syntax, which is unsupported.
    AtFileUnsupported,
    /// A bare dash was supplied; reading standard streams is unsupported.
    BareDash,
    /// No option with the given spelling exists.
    UnrecognizedOption(Vec<u8>),
    /// The last option required a value but none was supplied.
    MissingValue,
}

/// The parsed option values.
#[derive(Debug, Default, PartialEq, Eq)]
pub struct Opts {
    pub entry: Option<Vec<u8>>,
    pub output: Option<Vec<u8>>,
}

/// One positional argument: the path of an input object.
#[derive(Debug, PartialEq, Eq)]
pub struct InputFile {
    pub name: Vec<u8>,
}

/// What one argument means on its own.
pub enum ArgStep {
    File,
    SetNow(OptName, Seq<u8>),
    NeedValue(OptName),
    BadBare,
    BadUnrecognized,
}

/// The executable classification of one argument: an option with an inline
/// value carries it beside the class.
pub enum ArgClass {
    File,
    Opt(OptName),
    BadBare,
    BadUnrecognized,
}

/// The spec-level outcome of a parse: the final option values and files, or
/// one of the failures (an unrecognized option carries its spelling, which
/// only executable code can package).
pub enum ParseOutcome {
    Done(Option<Seq<u8>>, Option<Seq<u8>>, Seq<Seq<u8>>),
    Unrecognized(Seq<u8>),
    Fail(OptsError),
}

/// The bytes of the long option name "entry".
pub open spec fn spec_entry_optname() -> Seq<u8> {
    seq![0x65u8, 0x6eu8, 0x74u8, 0x72u8, 0x79u8]
}

/// The bytes of the long option name "output".
pub open spec fn spec_output_optname() -> Seq<u8> {
    seq![0x6fu8, 0x75u8, 0x74u8, 0x70u8, 0x75u8, 0x74u8]
}

/// The position of the first '=' at or after `i`, or the length.
pub open spec fn spec_eq_pos(a: Seq<u8>, i: int) -> int
    decreases a.len() - i,
{
    if i < 0 || i >= a.len() {
        a.len() as int
    } else if a[i] == 0x3du8 {
        i
    } else {
        spec_eq_pos(a, i + 1)
    }
}

/// Classify one argument that is not a pending option value. A long name is
/// looked up first, with both one and two leading dashes accepted, except
/// that a single-dash spelling starting with "o" is never a long option (so
/// "-o..." stays the short output option); then the short options; anything
/// else with a dash is unrecognized, and anything without is an input file.
pub open spec fn spec_classify(a: Seq<u8>) -> ArgStep {
    if a.len() == 0 || a[0] != 0x2du8 {
        ArgStep::File
    } else if a.len() == 1 {
        ArgStep::BadBare
    } else {
        let first_c = a[1];
        let long_start: int = if first_c == 0x2du8 {
            2
        } else {
            1
        };
        let long_end = spec_eq_pos(a, 0);
        let lname = a.subrange(long_start, long_end);
        let skip_o = lname.len() > 0 && lname[0] == 0x6fu8 && first_c != 0x2du8;
        if !skip_o && (lname == spec_entry_optname() || lname == spec_output_optname()) {
            let which = if lname == spec_entry_optname() {
                OptName::Entry
            } else {
                OptName::Output
            };
            if long_end != a.len() {
                ArgStep::SetNow(which, a.subrange(long_end + 1, a.len() as int))
            } else {
                ArgStep::NeedValue(which)
            }
        } else if first_c == 0x65u8 || first_c == 0x6fu8 {
            let which = if first_c == 0x65u8 {
                OptName::Entry
            } else {
                OptName::Output
            };
            if lname.len() > 1 {
                ArgStep::SetNow(which, lname.subrange(1, lname.len() as int))
            } else {
                ArgStep::NeedValue(which)
            }
        } else {
            ArgStep::BadUnrecognized
        }
    }
}

/// What parsing computes from argument `i` on: response-file syntax always
/// fails; a pending option consumes the next argument as its value; other
/// arguments are classified; a trailing pending option fails.
pub open spec fn spec_parse_args(
    args: Seq<Seq<u8>>,
    i: int,
    entry: Option<Seq<u8>>,
    output: Option<Seq<u8>>,
    files: Seq<Seq<u8>>,
    pending: Option<OptName>,
) -> ParseOutcome
    decreases args.len() - i,
{
    if i < 0 || i >= args.len() {
        if pending is Some {
            ParseOutcome::Fail(OptsError::MissingValue)
        } else {
            ParseOutcome::Done(entry, output, files)
        }
    } else {
        let a = args[i];
        if a.len() > 0 && a[0] == 0x40u8 {
            ParseOutcome::Fail(OptsError::AtFileUnsupported)
        } else {
            match pending {
                Some(OptName::Entry) => spec_parse_args(
                    args,
                    i + 1,
                    Some(a),
                    output,
                    files,
                    None,
                ),
                Some(OptName::Output) => spec_parse_args(
                    args,
                    i + 1,
                    entry,
                    Some(a),
                    files,
                    None,
                ),
                None => match spec_classify(a) {
                    ArgStep::File => spec_parse_args(
                        args,
                        i + 1,
                        entry,
                        output,
                        files.push(a),
                        None,
                    ),
                    ArgStep::SetNow(OptName::Entry, v) => spec_parse_args(
                        args,
                        i + 1,
                        Some(v),
                        output,
                        files,
                        None,
                    ),
                    ArgStep::SetNow(OptName::Output, v) => spec_parse_args(
                        args,
                        i + 1,
                        entry,
                        Some(v),
                        files,
                        None,
                    ),
                    ArgStep::NeedValue(n) => spec_parse_args(
                        args,
                        i + 1,
                        entry,
                        output,
                        files,
                        Some(n),
                    ),
                    ArgStep::BadBare => ParseOutcome::Fail(OptsError::BareDash),
                    ArgStep::BadUnrecognized => ParseOutcome::Unrecognized(a),
                },
            }
        }
    }
}

/// The view of an optional byte vector.
pub open spec fn spec_opt_view(v: Option<Vec<u8>>) -> Option<Seq<u8>> {
    match v {
        Some(b) => Some(b@),
        None => None,
    }
}

/// The view of the parsed input file list.
pub open spec fn spec_files_view(v: Seq<InputFile>) -> Seq<Seq<u8>> {
    v.map_values(|f: InputFile| f.name@)
}

/// The views of the raw arguments.
pub open spec fn spec_args_view(v: Seq<Vec<u8>>) -> Seq<Seq<u8>> {
    v.map_values(|a: Vec<u8>| a@)
}

fn entry_optname() -> (r: Vec<u8>)
    ensures
        r@ == spec_entry_optname(),
{
    let mut v: Vec<u8> = Vec::new();
    v.push(0x65);
    v.push(0x6e);
    v.push(0x74);
    v.push(0x72);
    v.push(0x79);
    proof {
        assert(v@ =~= spec_entry_optname());
    }
    v
}

fn output_optname() -> (r: Vec<u8>)
    ensures
        r@ == spec_output_optname(),
{
    let mut v: Vec<u8> = Vec::new();
    v.push(0x6f);
    v.push(0x75);
    v.push(0x74);
    v.push(0x70);
    v.push(0x75);
    v.push(0x74);
    proof {
        assert(v@ =~= spec_output_optname());
    }
    v
}

/// The scan for '=' never reports a position before its start.
proof fn lemma_eq_pos_ge(a: Seq<u8>, i: int)
    requires
        0 <= i <= a.len(),
    ensures
        spec_eq_pos(a, i) >= i,
    decreases a.len() - i,
{
    if i < a.len() && a[i] != 0x3du8 {
        lemma_eq_pos_ge(a, i + 1);
    }
}

/// The position of the first '=' in `a`, or its length.
fn find_eq(a: &[u8]) -> (r: usize)
    ensures
        r == spec_eq_pos(a@, 0),
        r <= a@.len(),
{
    proof {
        vstd::slice::axiom_spec_len(a);
    }
    let n = a.len();
    let mut i: usize = 0;
    while i < n
        invariant
            n == a@.len(),
            i <= n,
            spec_eq_pos(a@, 0) == spec_eq_pos(a@, i as int),
        decreases n - i,
    {
        if *crate::codec::read_u8_ref(a, i) == 0x3d {
            return i;
        }
        i = i + 1;
    }
    n
}

/// Classify one argument, matching `spec_classify`.
fn classify(a: &[u8]) -> (r: (ArgClass, Option<Vec<u8>>))
    ensures
        match spec_classify(a@) {
            ArgStep::File => r.0 is File && r.1 is None,
            ArgStep::SetNow(n, v) => r.0 matches ArgClass::Opt(n2) && n2 == n && (r.1 matches Some(
                b,
            ) && b@ == v),
            ArgStep::NeedValue(n) => r.0 matches ArgClass::Opt(n2) && n2 == n && r.1 is None,
            ArgStep::BadBare => r.0 is BadBare && r.1 is None,
            ArgStep::BadUnrecognized => r.0 is BadUnrecognized && r.1 is None,
        },
{
    proof {
        vstd::slice::axiom_spec_len(a);
    }
    let n = a.len();
    if n == 0 || *crate::codec::read_u8_ref(a, 0) != 0x2d {
        return (ArgClass::File, None);
    }
    if n == 1 {
        return (ArgClass::BadBare, None);
    }
    let first_c = *crate::codec::read_u8_ref(a, 1);
    let long_start: usize = if first_c == 0x2d {
        2
    } else {
        1
    };
    let long_end = find_eq(a);
    proof {
        assert(long_end >= long_start) by {
            assert(a@[0] == 0x2du8);
            assert(spec_eq_pos(a@, 0) == spec_eq_pos(a@, 1));
            if long_start == 1 {
                lemma_eq_pos_ge(a@, 1);
            } else {
                assert(a@[1] == 0x2du8);
                assert(spec_eq_pos(a@, 1) == spec_eq_pos(a@, 2));
                lemma_eq_pos_ge(a@, 2);
            }
        }
    }
    let lname = vstd::slice::slice_subrange(a, long_start, long_end);
    proof {
        vstd::slice::axiom_spec_len(lname);
    }
    let skip_o = lname.len() > 0 && *crate::codec::read_u8_ref(lname, 0) == 0x6f && first_c != 0x2d;
    let is_entry_long = !skip_o && crate::read::bytes_eq(lname, entry_optname().as_slice());
    let is_output_long = !skip_o && crate::read::bytes_eq(lname, output_optname().as_slice());
    if is_entry_long || is_output_long {
        let which = if is_entry_long {
            OptName::Entry
        } else {
            OptName::Output
        };
        if long_end != n {
            let v = vstd::slice::slice_to_vec(vstd::slice::slice_subrange(a, long_end + 1, n));
            return (ArgClass::Opt(which), Some(v));
        } else {
            return (ArgClass::Opt(which), None);
        }
    }
    if first_c == 0x65 || first_c == 0x6f {
        let which = if first_c == 0x65 {
            OptName::Entry
        } else {
            OptName::Output
        };
        if lname.len() > 1 {
            let v = vstd::slice::slice_to_vec(
                vstd::slice::slice_subrange(lname, 1, lname.len()),
            );
            proof {
                assert(v@ =~= a@.subrange(long_start as int, long_end as int).subrange(
                    1,
                    a@.subrange(long_start as int, long_end as int).len() as int,
                ));
            }
            return (ArgClass::Opt(which), Some(v));
        } else {
            return (ArgClass::Opt(which), None);
        }
    }
    (ArgClass::BadUnrecognized, None)
}

/// Parse a linker command line: options in any spelling the classifier
/// accepts, every other argument an input file, in order.
pub fn parse(args: Vec<Vec<u8>>) -> (r: Result<(Opts, Vec<InputFile>), OptsError>)
    ensures
        match spec_parse_args(spec_args_view(args@), 0, None, None, Seq::empty(), None) {
            ParseOutcome::Done(e, o, fs) => r matches Ok((opts, files)) && spec_opt_view(opts.entry)
                == e && spec_opt_view(opts.output) == o && spec_files_view(files@) == fs,
            ParseOutcome::Unrecognized(a) => r matches Err(err) && (err matches
                OptsError::UnrecognizedOption(b) && b@ == a),
            ParseOutcome::Fail(e) => r matches Err(err) && err == e,
        },
{
    let ghost argviews = spec_args_view(args@);
    let n = args.len();
    let mut entry: Option<Vec<u8>> = None;
    let mut output: Option<Vec<u8>> = None;
    let mut files: Vec<InputFile> = Vec::new();
    let mut pending: Option<OptName> = None;
    proof {
        assert(spec_files_view(files@) =~= Seq::<Seq<u8>>::empty());
    }
    let mut i: usize = 0;
    while i < n
        invariant
            n == args@.len(),
            argviews == spec_args_view(args@),
            argviews.len() == n,
            i <= n,
            spec_parse_args(argviews, 0, None, None, Seq::empty(), None) == spec_parse_args(
                argviews,
                i as int,
                spec_opt_view(entry),
                spec_opt_view(output),
                spec_files_view(files@),
                pending,
            ),
        decreases n - i,
    {
        let a = &args[i];
        proof {
            assert(a@ == argviews[i as int]);
        }
        if a.len() > 0 && *crate::codec::read_u8_ref(a.as_slice(), 0) == 0x40 {
            return Err(OptsError::AtFileUnsupported);
        }
        match pending {
            Some(OptName::Entry) => {
                entry = Some(crate::storage::clone_bytes(a));
                pending = None;
            },
            Some(OptName::Output) => {
                output = Some(crate::storage::clone_bytes(a));
                pending = None;
            },
            None => {
                let (step, val) = classify(a.as_slice());
                match step {
                    ArgClass::File => {
                        let name = crate::storage::clone_bytes(a);
                        let ghost fs0 = spec_files_view(files@);
                        files.push(InputFile { name });
                        proof {
                            assert(spec_files_view(files@) =~= fs0.push(a@));
                        }
                    },
                    ArgClass::Opt(which) => {
                        match val {
                            Some(v) => {
                                match which {
                                    OptName::Entry => {
                                        entry = Some(v);
                                    },
                                    OptName::Output => {
                                        output = Some(v);
                                    },
                                }
                            },
                            None => {
                                pending = Some(which);
                            },
                        }
                    },
                    ArgClass::BadBare => {
                        return Err(OptsError::BareDash);
                    },
                    ArgClass::BadUnrecognized => {
                        return Err(
                            OptsError::UnrecognizedOption(crate::storage::clone_bytes(a)),
                        );
                    },
                }
            },
        }
        i = i + 1;
    }
    if pending.is_some() {
        return Err(OptsError::MissingValue);
    }
    Ok((Opts { entry, output }, files))
}

} // verus!
