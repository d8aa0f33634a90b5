//! Command-line arguments:
//! `ocrtool --input <PDF> --json <shard> [--json <shard> ...] --output <PDF> [--page <N>]`.

use vstd::prelude::*;
use vstd::string::StringExecFns;
use crate::decimal::{parse_decimal, parse_unsigned};
use crate::object::bytes_eq;
use crate::utf8::lemma_encode_injective;

verus! {

/// Arguments of a run.
pub struct Args {
    /// Source scanned PDF.
    pub input: String,
    /// Document AI JSON shards, in the order given.
    pub json_files: Vec<String>,
    /// Output PDF path.
    pub output: String,
    /// Only this page number (1-indexed), when given.
    pub page: Option<u32>,
}

/// What the command line asks for.
pub enum Command {
    Run(Args),
    /// `--help` or `-h`: print the usage line and stop.
    Help,
}

/// Flags that take a value.
#[derive(Clone, Copy, PartialEq, Eq, Structural, Debug)]
pub enum Flag {
    Input,
    Json,
    Output,
    Page,
}

/// Why the command line was refused.
pub enum ArgsError {
    /// The flag was the last argument.
    MissingValue(Flag),
    /// The value of `--page` is not a positive 32-bit decimal number (pages
    /// are numbered from 1).
    InvalidPage,
    UnknownArgument(String),
    MissingInput,
    MissingOutput,
    /// No `--json` shard was given.
    NoShards,
}

/// Abstract outcome of reading a command line.
pub enum ParsedArgs {
    Run { input: Seq<char>, json_files: Seq<Seq<char>>, output: Seq<char>, page: Option<u32> },
    Help,
    MissingValue(Flag),
    InvalidPage,
    UnknownArgument(Seq<char>),
    MissingInput,
    MissingOutput,
    NoShards,
}

/// Values gathered so far while reading the arguments left to right.
pub struct ArgState {
    pub input: Option<Seq<char>>,
    pub json_files: Seq<Seq<char>>,
    pub output: Option<Seq<char>>,
    pub page: Option<u32>,
}

pub open spec fn flag_input() -> Seq<char> {
    seq!['-', '-', 'i', 'n', 'p', 'u', 't']
}

pub open spec fn flag_json() -> Seq<char> {
    seq!['-', '-', 'j', 's', 'o', 'n']
}

pub open spec fn flag_output() -> Seq<char> {
    seq!['-', '-', 'o', 'u', 't', 'p', 'u', 't']
}

pub open spec fn flag_page() -> Seq<char> {
    seq!['-', '-', 'p', 'a', 'g', 'e']
}

pub open spec fn flag_help() -> Seq<char> {
    seq!['-', '-', 'h', 'e', 'l', 'p']
}

pub open spec fn flag_help_short() -> Seq<char> {
    seq!['-', 'h']
}

/// End of the arguments: input and output must have been given.
pub open spec fn finish_args(st: ArgState) -> ParsedArgs {
    match st.input {
        None => ParsedArgs::MissingInput,
        Some(input) => match st.output {
            None => ParsedArgs::MissingOutput,
            Some(output) => ParsedArgs::Run {
                input,
                json_files: st.json_files,
                output,
                page: st.page,
            },
        },
    }
}

/// Reading `raw` from position `i` on, with `st` gathered before it.
pub open spec fn parse_from(raw: Seq<Seq<char>>, i: nat, st: ArgState) -> ParsedArgs
    decreases raw.len() - i,
{
    if i >= raw.len() {
        finish_args(st)
    } else {
        let a = raw[i as int];
        let has_value = i + 1 < raw.len();
        if a == flag_input() {
            if has_value {
                parse_from(raw, i + 2, ArgState { input: Some(raw[i + 1 as int]), ..st })
            } else {
                ParsedArgs::MissingValue(Flag::Input)
            }
        } else if a == flag_json() {
            if has_value {
                parse_from(raw, i + 2, ArgState { json_files: st.json_files.push(raw[i + 1 as int]), ..st })
            } else {
                ParsedArgs::MissingValue(Flag::Json)
            }
        } else if a == flag_output() {
            if has_value {
                parse_from(raw, i + 2, ArgState { output: Some(raw[i + 1 as int]), ..st })
            } else {
                ParsedArgs::MissingValue(Flag::Output)
            }
        } else if a == flag_page() {
            if has_value {
                match parse_unsigned(raw[i + 1 as int], u32::MAX as int) {
                    Some(n) => if n == 0 {
                        ParsedArgs::InvalidPage
                    } else {
                        parse_from(raw, i + 2, ArgState { page: Some(n as u32), ..st })
                    },
                    None => ParsedArgs::InvalidPage,
                }
            } else {
                ParsedArgs::MissingValue(Flag::Page)
            }
        } else if a == flag_help() || a == flag_help_short() {
            ParsedArgs::Help
        } else {
            ParsedArgs::UnknownArgument(a)
        }
    }
}

/// The outcome of reading the whole argument list `raw`.
pub open spec fn parse_spec(raw: Seq<Seq<char>>) -> ParsedArgs {
    parse_from(
        raw,
        0,
        ArgState { input: None, json_files: Seq::empty(), output: None, page: None },
    )
}

/// Abstract view of the result of [`parse_args`].
pub open spec fn parsed_view(r: Result<Command, ArgsError>) -> ParsedArgs {
    match r {
        Ok(Command::Run(a)) => ParsedArgs::Run {
            input: a.input@,
            json_files: a.json_files@.map_values(|s: String| s@),
            output: a.output@,
            page: a.page,
        },
        Ok(Command::Help) => ParsedArgs::Help,
        Err(ArgsError::MissingValue(f)) => ParsedArgs::MissingValue(f),
        Err(ArgsError::InvalidPage) => ParsedArgs::InvalidPage,
        Err(ArgsError::UnknownArgument(a)) => ParsedArgs::UnknownArgument(a@),
        Err(ArgsError::MissingInput) => ParsedArgs::MissingInput,
        Err(ArgsError::MissingOutput) => ParsedArgs::MissingOutput,
        Err(ArgsError::NoShards) => ParsedArgs::NoShards,
    }
}

/// Characters of an optional string.
pub open spec fn opt_view(s: Option<String>) -> Option<Seq<char>> {
    match s {
        Some(s) => Some(s@),
        None => None,
    }
}

/// Whether two strings hold the same characters.
pub fn str_eq(a: &str, b: &str) -> (eq: bool)
    ensures
        eq == (a@ == b@),
{
    let eq = bytes_eq(a.as_bytes(), b.as_bytes());
    proof {
        if eq {
            lemma_encode_injective(a@, b@);
        }
    }
    eq
}

/// Read the command line `raw` (program name excluded) left to right.
pub fn parse_args(raw: &[String]) -> (r: Result<Command, ArgsError>)
    ensures
        parsed_view(r) == parse_spec(raw@.map_values(|s: String| s@)),
        r matches Err(e) ==> !(e is NoShards),
{
    let ghost view = raw@.map_values(|s: String| s@);
    let mut input: Option<String> = None;
    let mut json_files: Vec<String> = Vec::new();
    let mut output: Option<String> = None;
    let mut page: Option<u32> = None;
    let mut i: usize = 0;
    proof {
        assert(json_files@.map_values(|s: String| s@) =~= Seq::<Seq<char>>::empty());
        reveal_strlit("--input");
        reveal_strlit("--json");
        reveal_strlit("--output");
        reveal_strlit("--page");
        reveal_strlit("--help");
        reveal_strlit("-h");
        assert("--input"@ =~= flag_input());
        assert("--json"@ =~= flag_json());
        assert("--output"@ =~= flag_output());
        assert("--page"@ =~= flag_page());
        assert("--help"@ =~= flag_help());
        assert("-h"@ =~= flag_help_short());
    }
    while i < raw.len()
        invariant
            i <= raw.len() + 1,
            view == raw@.map_values(|s: String| s@),
            "--input"@ == flag_input(),
            "--json"@ == flag_json(),
            "--output"@ == flag_output(),
            "--page"@ == flag_page(),
            "--help"@ == flag_help(),
            "-h"@ == flag_help_short(),
            parse_spec(view) == parse_from(
                view,
                i as nat,
                ArgState {
                    input: opt_view(input),
                    json_files: json_files@.map_values(|s: String| s@),
                    output: opt_view(output),
                    page,
                },
            ),
        decreases raw.len() - i,
    {
        let a = raw[i].as_str();
        let has_value = i + 1 < raw.len();
        let ghost st = ArgState {
            input: opt_view(input),
            json_files: json_files@.map_values(|s: String| s@),
            output: opt_view(output),
            page,
        };
        proof {
            assert(view[i as int] == a@);
            assert(has_value ==> view[i + 1] == raw@[i + 1]@);
        }
        if str_eq(a, "--input") {
            if !has_value {
                return Err(ArgsError::MissingValue(Flag::Input));
            }
            input = Some(raw[i + 1].clone());
            proof {
                assert(parse_from(view, i as nat, st) == parse_from(view, (i + 2) as nat, ArgState { input: Some(view[i + 1]), ..st }));
            }
        } else if str_eq(a, "--json") {
            if !has_value {
                return Err(ArgsError::MissingValue(Flag::Json));
            }
            let ghost before = json_files@;
            json_files.push(raw[i + 1].clone());
            proof {
                assert(json_files@.map_values(|s: String| s@) =~= before.map_values(|s: String| s@).push(view[i + 1]));
                assert(parse_from(view, i as nat, st) == parse_from(view, (i + 2) as nat, ArgState { json_files: st.json_files.push(view[i + 1]), ..st }));
            }
        } else if str_eq(a, "--output") {
            if !has_value {
                return Err(ArgsError::MissingValue(Flag::Output));
            }
            output = Some(raw[i + 1].clone());
            proof {
                assert(parse_from(view, i as nat, st) == parse_from(view, (i + 2) as nat, ArgState { output: Some(view[i + 1]), ..st }));
            }
        } else if str_eq(a, "--page") {
            if !has_value {
                return Err(ArgsError::MissingValue(Flag::Page));
            }
            match parse_decimal(raw[i + 1].as_str(), 0xFFFF_FFFF) {
                Some(n) => {
                    if n == 0 {
                        return Err(ArgsError::InvalidPage);
                    }
                    page = Some(n as u32);
                    proof {
                        let v = parse_unsigned(view[i + 1], u32::MAX as int);
                        assert(v == Some(n as int));
                        assert(parse_from(view, i as nat, st) == parse_from(view, (i + 2) as nat, ArgState { page: Some(n as u32), ..st }));
                    }
                },
                None => {
                    return Err(ArgsError::InvalidPage);
                },
            }
        } else if str_eq(a, "--help") || str_eq(a, "-h") {
            return Ok(Command::Help);
        } else {
            return Err(ArgsError::UnknownArgument(raw[i].clone()));
        }
        i = i + 2;
    }
    match input {
        None => Err(ArgsError::MissingInput),
        Some(input) => match output {
            None => Err(ArgsError::MissingOutput),
            Some(output) => Ok(Command::Run(Args { input, json_files, output, page })),
        },
    }
}

/// At least one `--json` shard is needed for a run.
pub fn require_shards(args: &Args) -> (r: Result<(), ArgsError>)
    ensures
        r is Ok <==> args.json_files@.len() > 0,
        r matches Err(e) ==> e is NoShards,
{
    if args.json_files.len() == 0 {
        Err(ArgsError::NoShards)
    } else {
        Ok(())
    }
}

} // verus!

verus! {

/// Values that follow `flag` in `raw` read as flag/value pairs from `i` on.
pub open spec fn flag_values(raw: Seq<Seq<char>>, i: nat, flag: Seq<char>) -> Seq<Seq<char>>
    decreases raw.len() - i,
{
    if i + 1 < raw.len() {
        (if raw[i as int] == flag { seq![raw[i + 1 as int]] } else { Seq::empty() }) + flag_values(raw, i + 2, flag)
    } else {
        Seq::empty()
    }
}

proof fn lemma_json_from(raw: Seq<Seq<char>>, i: nat, st: ArgState)
    ensures
        parse_from(raw, i, st) matches ParsedArgs::Run { json_files, .. } ==> json_files == st.json_files
            + flag_values(raw, i, flag_json()),
    decreases raw.len() - i,
{
    if i < raw.len() && i + 1 < raw.len() {
        let a = raw[i as int];
        if a == flag_input() {
            lemma_json_from(raw, i + 2, ArgState { input: Some(raw[i + 1 as int]), ..st });
        } else if a == flag_json() {
            lemma_json_from(raw, i + 2, ArgState { json_files: st.json_files.push(raw[i + 1 as int]), ..st });
        } else if a == flag_output() {
            lemma_json_from(raw, i + 2, ArgState { output: Some(raw[i + 1 as int]), ..st });
        } else if a == flag_page() {
            if let Some(n) = parse_unsigned(raw[i + 1 as int], u32::MAX as int) {
                if n != 0 {
                    lemma_json_from(raw, i + 2, ArgState { page: Some(n as u32), ..st });
                }
            }
        }
        if parse_from(raw, i, st) matches ParsedArgs::Run { json_files, .. } {
            assert(a != flag_json() ==> flag_values(raw, i, flag_json()) =~= flag_values(raw, i + 2, flag_json()));
            assert(a == flag_json() ==> st.json_files + flag_values(raw, i, flag_json()) =~= st.json_files.push(
                raw[i + 1 as int],
            ) + flag_values(raw, i + 2, flag_json()));
        }
    } else {
        assert(st.json_files + Seq::<Seq<char>>::empty() =~= st.json_files);
    }
}

/// Shards are kept in the order the command line gives them: a run reads
/// exactly the values given with `--json`, in order.
pub proof fn lemma_shards_in_command_line_order(raw: Seq<Seq<char>>)
    ensures
        parse_spec(raw) matches ParsedArgs::Run { json_files, .. } ==> json_files == flag_values(
            raw,
            0,
            flag_json(),
        ),
{
    let st = ArgState { input: None, json_files: Seq::empty(), output: None, page: None };
    lemma_json_from(raw, 0, st);
    assert(Seq::<Seq<char>>::empty() + flag_values(raw, 0, flag_json()) =~= flag_values(raw, 0, flag_json()));
}

} // verus!
