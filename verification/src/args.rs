//! The command line: which file to read, which to write, the frame rate, and
//! whether to encode or decode.
use vstd::prelude::*;
use crate::text::text_eq;

verus! {

/// `-i`
pub open spec fn short_input() -> Seq<char> { seq!['-', 'i'] }
/// `--input`
pub open spec fn long_input() -> Seq<char> { seq!['-', '-', 'i', 'n', 'p', 'u', 't'] }
/// `-o`
pub open spec fn short_output() -> Seq<char> { seq!['-', 'o'] }
/// `--output`
pub open spec fn long_output() -> Seq<char> { seq!['-', '-', 'o', 'u', 't', 'p', 'u', 't'] }
/// `-f`
pub open spec fn short_framerate() -> Seq<char> { seq!['-', 'f'] }
/// `--framerate`
pub open spec fn long_framerate() -> Seq<char> {
    seq!['-', '-', 'f', 'r', 'a', 'm', 'e', 'r', 'a', 't', 'e']
}
/// `-d`
pub open spec fn short_decode() -> Seq<char> { seq!['-', 'd'] }
/// `--decode`
pub open spec fn long_decode() -> Seq<char> { seq!['-', '-', 'd', 'e', 'c', 'o', 'd', 'e'] }

/// `true`
pub open spec fn true_text() -> Seq<char> { seq!['t', 'r', 'u', 'e'] }
/// `false`
pub open spec fn false_text() -> Seq<char> { seq!['f', 'a', 'l', 's', 'e'] }
/// The error when no input file is given.
pub open spec fn no_input_text() -> Seq<char> { "Input was not defined"@ }
/// The error when no output file is given.
pub open spec fn no_output_text() -> Seq<char> { "Output was not defined"@ }

/// `a` is one of the two spellings of an option.
pub open spec fn is_option(a: Seq<char>, short: Seq<char>, long: Seq<char>) -> bool {
    a == short || a == long
}

/// The position of the last of `args[..n]` that spells the option, if any.
pub open spec fn last_option(args: Seq<String>, short: Seq<char>, long: Seq<char>, n: int) -> Option<int>
    decreases n,
{
    if n <= 0 {
        None
    } else if is_option(args[n - 1]@, short, long) {
        Some(n - 1)
    } else {
        last_option(args, short, long, n - 1)
    }
}

/// The value given to an option: the argument after its last occurrence.
pub open spec fn option_value(args: Seq<String>, short: Seq<char>, long: Seq<char>) -> Option<int> {
    match last_option(args, short, long, args.len() as int) {
        Some(k) => Some(k + 1),
        None => None,
    }
}

/// Every option that takes a value is followed by an argument, and when
/// neither an input nor an output is named there is a first argument after
/// the program's name: the command lines that are read without a panic.
pub open spec fn args_well_formed(args: Seq<String>) -> bool {
    &&& forall|i: int|
        0 <= i < args.len() && (is_option(#[trigger] args[i]@, short_input(), long_input())
            || is_option(args[i]@, short_output(), long_output()) || is_option(
            args[i]@,
            short_framerate(),
            long_framerate(),
        )) ==> i + 1 < args.len()
    &&& (option_value(args, short_input(), long_input()) is None && option_value(
        args,
        short_output(),
        long_output(),
    ) is None) ==> args.len() >= 2
}

/// No argument before position `n` spells the option exactly when there is
/// no last such argument.
proof fn lemma_last_option_none(args: Seq<String>, short: Seq<char>, long: Seq<char>, n: int)
    requires
        0 <= n <= args.len(),
    ensures
        last_option(args, short, long, n) is None <==> forall|i: int|
            0 <= i < n ==> !is_option(#[trigger] args[i]@, short, long),
    decreases n,
{
    if n > 0 {
        lemma_last_option_none(args, short, long, n - 1);
    }
}

/// Law: the occurrence of an option that counts is its last one: the
/// position found spells the option, and no later argument before `n` does;
/// no position is found exactly when no argument before `n` spells it.
pub proof fn lemma_last_option_is_last(args: Seq<String>, short: Seq<char>, long: Seq<char>, n: int)
    requires
        0 <= n <= args.len(),
    ensures
        last_option(args, short, long, n) matches Some(k) ==> {
            &&& 0 <= k < n
            &&& (args[k]@ == short || args[k]@ == long)
            &&& forall|j: int| k < j < n ==> !(#[trigger] args[j]@ == short || args[j]@ == long)
        },
        last_option(args, short, long, n) is None <==> forall|j: int|
            0 <= j < n ==> !(#[trigger] args[j]@ == short || args[j]@ == long),
    decreases n,
{
    if n > 0 {
        lemma_last_option_is_last(args, short, long, n - 1);
    }
}

/// `a` is an option that takes the next argument as its value: `-i`,
/// `--input`, `-o`, `--output`, `-f` or `--framerate`, spelled out.
pub open spec fn takes_value_text(a: Seq<char>) -> bool {
    ||| a == seq!['-', 'i']
    ||| a == seq!['-', '-', 'i', 'n', 'p', 'u', 't']
    ||| a == seq!['-', 'o']
    ||| a == seq!['-', '-', 'o', 'u', 't', 'p', 'u', 't']
    ||| a == seq!['-', 'f']
    ||| a == seq!['-', '-', 'f', 'r', 'a', 'm', 'e', 'r', 'a', 't', 'e']
}

/// `a` names the input or the output file: `-i`, `--input`, `-o` or
/// `--output`, spelled out.
pub open spec fn names_file_text(a: Seq<char>) -> bool {
    ||| a == seq!['-', 'i']
    ||| a == seq!['-', '-', 'i', 'n', 'p', 'u', 't']
    ||| a == seq!['-', 'o']
    ||| a == seq!['-', '-', 'o', 'u', 't', 'p', 'u', 't']
}

/// Law: `parse_args` can read a command line exactly when every option that
/// takes a value has an argument after it (`args[i + 1]` exists), and, when
/// no option names the input or the output, there is a first argument after
/// the program's name (`args[1]` exists).
pub proof fn lemma_readable_command_lines(args: Seq<String>)
    ensures
        args_well_formed(args) <==> ((forall|i: int|
            0 <= i < args.len() && #[trigger] takes_value_text(args[i]@) ==> i + 1 < args.len()) && ((exists|i: int|
            0 <= i < args.len() && #[trigger] names_file_text(args[i]@)) || args.len() >= 2)),
{
    let n = args.len() as int;
    lemma_last_option_none(args, short_input(), long_input(), n);
    lemma_last_option_none(args, short_output(), long_output(), n);
    let first = forall|i: int|
        0 <= i < args.len() && (is_option(#[trigger] args[i]@, short_input(), long_input())
            || is_option(args[i]@, short_output(), long_output()) || is_option(
            args[i]@,
            short_framerate(),
            long_framerate(),
        )) ==> i + 1 < args.len();
    let first_text = forall|i: int|
        0 <= i < args.len() && #[trigger] takes_value_text(args[i]@) ==> i + 1 < args.len();
    if first {
        assert forall|i: int| 0 <= i < args.len() && #[trigger] takes_value_text(args[i]@) implies i + 1
            < args.len() by {
            assert(is_option(args[i]@, short_input(), long_input()) || is_option(
                args[i]@,
                short_output(),
                long_output(),
            ) || is_option(args[i]@, short_framerate(), long_framerate()));
        }
    }
    if first_text {
        assert forall|i: int|
            0 <= i < args.len() && (is_option(#[trigger] args[i]@, short_input(), long_input())
                || is_option(args[i]@, short_output(), long_output()) || is_option(
                args[i]@,
                short_framerate(),
                long_framerate(),
            )) implies i + 1 < args.len() by {
            assert(takes_value_text(args[i]@));
        }
    }
    let named = exists|i: int| 0 <= i < args.len() && #[trigger] names_file_text(args[i]@);
    if named {
        let i = choose|i: int| 0 <= i < args.len() && #[trigger] names_file_text(args[i]@);
        if is_option(args[i]@, short_input(), long_input()) {
            assert(!(forall|k: int| 0 <= k < n ==> !is_option(#[trigger] args[k]@, short_input(), long_input())));
        } else {
            assert(is_option(args[i]@, short_output(), long_output()));
            assert(!(forall|k: int| 0 <= k < n ==> !is_option(#[trigger] args[k]@, short_output(), long_output())));
        }
    } else {
        assert forall|k: int| 0 <= k < n implies !is_option(#[trigger] args[k]@, short_input(), long_input()) by {
            if is_option(args[k]@, short_input(), long_input()) {
                assert(names_file_text(args[k]@));
            }
        }
        assert forall|k: int| 0 <= k < n implies !is_option(#[trigger] args[k]@, short_output(), long_output()) by {
            if is_option(args[k]@, short_output(), long_output()) {
                assert(names_file_text(args[k]@));
            }
        }
    }
}

/// Whether `parse_args` can read the command line (see `args_well_formed`).
pub fn args_well_formed_exec(args: &Vec<String>) -> (res: bool)
    ensures
        res == args_well_formed(args@),
{
    let n = args.len();
    let mut names_file = false;
    let mut i: usize = 0;
    while i < n
        invariant
            n == args@.len(),
            i <= n,
            forall|k: int|
                0 <= k < i && (is_option(#[trigger] args@[k]@, short_input(), long_input())
                    || is_option(args@[k]@, short_output(), long_output()) || is_option(
                    args@[k]@,
                    short_framerate(),
                    long_framerate(),
                )) ==> k + 1 < n,
            names_file == exists|k: int|
                0 <= k < i && (is_option(#[trigger] args@[k]@, short_input(), long_input())
                    || is_option(args@[k]@, short_output(), long_output())),
        decreases n - i,
    {
        proof {
            reveal_strlit("-i");
            reveal_strlit("--input");
            reveal_strlit("-o");
            reveal_strlit("--output");
            reveal_strlit("-f");
            reveal_strlit("--framerate");
            assert("-i"@ =~= short_input());
            assert("--input"@ =~= long_input());
            assert("-o"@ =~= short_output());
            assert("--output"@ =~= long_output());
            assert("-f"@ =~= short_framerate());
            assert("--framerate"@ =~= long_framerate());
        }
        let value = args[i].as_str();
        let file_option = text_eq(value, "-i") || text_eq(value, "--input") || text_eq(value, "-o")
            || text_eq(value, "--output");
        let takes_value = file_option || text_eq(value, "-f") || text_eq(value, "--framerate");
        if takes_value && i + 1 >= n {
            return false;
        }
        if file_option {
            names_file = true;
        }
        i = i + 1;
    }
    proof {
        lemma_last_option_none(args@, short_input(), long_input(), n as int);
        lemma_last_option_none(args@, short_output(), long_output(), n as int);
        if !names_file {
            assert forall|k: int| 0 <= k < n implies !is_option(#[trigger] args@[k]@, short_input(), long_input()) by {
                if is_option(args@[k]@, short_input(), long_input()) {
                    assert(exists|k2: int|
                        0 <= k2 < i && (is_option(#[trigger] args@[k2]@, short_input(), long_input())
                            || is_option(args@[k2]@, short_output(), long_output())));
                }
            }
            assert forall|k: int| 0 <= k < n implies !is_option(#[trigger] args@[k]@, short_output(), long_output()) by {
                if is_option(args@[k]@, short_output(), long_output()) {
                    assert(exists|k2: int|
                        0 <= k2 < i && (is_option(#[trigger] args@[k2]@, short_input(), long_input())
                            || is_option(args@[k2]@, short_output(), long_output())));
                }
            }
        }
    }
    names_file || n >= 2
}

/// Reads the command line `args` (the program's name first).
///
/// `-i`/`--input`, `-o`/`--output` and `-f`/`--framerate` take the argument
/// after them; the last occurrence of each counts. `-d`/`--decode` asks for
/// decoding, and `decode` is set to `true` or `false` accordingly. When
/// neither an input nor an output is named, the first argument is the input
/// and `default_video_output` the output. The frame rate is
/// `default_framerate` unless one is named. The result lists the input, the
/// output, the frame rate and `decode`; naming only one of input and output is
/// an error.
pub fn parse_args<'a>(
    args: &'a Vec<String>,
    default_framerate: &'a String,
    default_video_output: &'a String,
    decode: &'a mut String,
) -> (res: Result<[Option<&'a String>; 4], String>)
    requires
        args_well_formed(args@),
    ensures
        ({
            let input = option_value(args@, short_input(), long_input());
            let output = option_value(args@, short_output(), long_output());
            let rate = option_value(args@, short_framerate(), long_framerate());
            let decoding = last_option(args@, short_decode(), long_decode(), args@.len() as int) is Some;
            &&& final(decode)@ == (if decoding { true_text() } else { false_text() })
            &&& (input is Some && output is None) ==> (res matches Err(e) && e@ == no_output_text())
            &&& (input is None && output is Some) ==> (res matches Err(e) && e@ == no_input_text())
            &&& (input is Some && output is Some) ==> (res matches Ok(a) && a@ == seq![
                Some(&args@[input.unwrap()]),
                Some(&args@[output.unwrap()]),
                Some(if rate is Some { &args@[rate.unwrap()] } else { default_framerate }),
                Some(&*final(decode)),
            ])
            &&& (input is None && output is None) ==> (res matches Ok(a) && a@ == seq![
                Some(&args@[1]),
                Some(default_video_output),
                Some(if rate is Some { &args@[rate.unwrap()] } else { default_framerate }),
                Some(&*final(decode)),
            ])
        }),
{
    let mut is_decode = false;
    let mut inputf: Option<&String> = None;
    let mut outputf: Option<&String> = None;
    let mut framerate: Option<&String> = Some(default_framerate);
    let n = args.len();
    let mut index: usize = 0;
    while index < n
        invariant
            n == args@.len(),
            index <= n,
            args_well_formed(args@),
            inputf == (match last_option(args@, short_input(), long_input(), index as int) {
                Some(k) => Some(&args@[k + 1]),
                None => None,
            }),
            outputf == (match last_option(args@, short_output(), long_output(), index as int) {
                Some(k) => Some(&args@[k + 1]),
                None => None,
            }),
            framerate == (match last_option(args@, short_framerate(), long_framerate(), index as int) {
                Some(k) => Some(&args@[k + 1]),
                None => Some(default_framerate),
            }),
            is_decode == last_option(args@, short_decode(), long_decode(), index as int) is Some,
        decreases n - index,
    {
        proof {
            reveal_strlit("-i");
            reveal_strlit("--input");
            reveal_strlit("-o");
            reveal_strlit("--output");
            reveal_strlit("-f");
            reveal_strlit("--framerate");
            reveal_strlit("-d");
            reveal_strlit("--decode");
            assert("-i"@ =~= short_input());
            assert("--input"@ =~= long_input());
            assert("-o"@ =~= short_output());
            assert("--output"@ =~= long_output());
            assert("-f"@ =~= short_framerate());
            assert("--framerate"@ =~= long_framerate());
            assert("-d"@ =~= short_decode());
            assert("--decode"@ =~= long_decode());
        }
        let value = args[index].as_str();
        if text_eq(value, "-i") || text_eq(value, "--input") {
            assert(is_option(args@[index as int]@, short_input(), long_input()));
            inputf = Some(&args[index + 1]);
        } else if text_eq(value, "-o") || text_eq(value, "--output") {
            assert(is_option(args@[index as int]@, short_output(), long_output()));
            outputf = Some(&args[index + 1]);
        } else if text_eq(value, "-f") || text_eq(value, "--framerate") {
            assert(is_option(args@[index as int]@, short_framerate(), long_framerate()));
            framerate = Some(&args[index + 1]);
        } else if text_eq(value, "-d") || text_eq(value, "--decode") {
            is_decode = true;
        }
        index = index + 1;
    }
    proof {
        reveal_strlit("true");
        reveal_strlit("false");
    }
    *decode = if is_decode {
        String::from_str("true")
    } else {
        String::from_str("false")
    };
    if inputf.is_none() && outputf.is_none() {
        inputf = Some(&args[1]);
        outputf = Some(default_video_output);
    }
    if inputf.is_none() {
        return Err(String::from_str("Input was not defined"));
    }
    if outputf.is_none() {
        return Err(String::from_str("Output was not defined"));
    }
    Ok([inputf, outputf, framerate, Some(&*decode)])
}

} // verus!
