//! What the command runner computes around a child process: the echoed
//! command line, the styling of error-stream lines, and the classification
//! of how the process ended.

use vstd::prelude::*;

verus! {

/// A program together with its argument list.
#[derive(Debug)]
pub struct Invocation {
    pub program: String,
    pub args: Vec<String>,
}

/// The view of an argument list: the characters of each argument.
pub open spec fn strings_view(v: Seq<String>) -> Seq<Seq<char>> {
    v.map_values(|s: String| s@)
}

/// How a child process ended, as observed by whoever launched it.
#[derive(Debug)]
pub enum ExitReport {
    /// The program could not be launched at all (not found, permission).
    SpawnFailed,
    /// The program ran; `code` is its exit code, or `None` when a signal ended it.
    Exited { code: Option<i32> },
}

/// Why a command did not succeed.
#[derive(Debug)]
pub enum CommandError {
    SpawnFailed { program: String, args: Vec<String> },
    NonZeroExit { exit_code: i32, program: String, args: Vec<String> },
}

/// The exit code a report stands for: `-1` when no code was available.
pub open spec fn reported_code(code: Option<i32>) -> i32 {
    match code {
        Some(c) => c,
        None => -1i32,
    }
}

/// The arguments joined with single spaces.
pub open spec fn joined(args: Seq<Seq<char>>) -> Seq<char>
    decreases args.len(),
{
    if args.len() == 0 {
        Seq::empty()
    } else if args.len() == 1 {
        args[0]
    } else {
        joined(args.drop_last()) + seq![' '] + args.last()
    }
}

/// Joins the arguments with single spaces.
pub fn join_args(args: &Vec<String>) -> (r: String)
    ensures
        r@ == joined(strings_view(args@)),
{
    let mut r = String::new();
    let mut i: usize = 0;
    while i < args.len()
        invariant
            i <= args.len(),
            r@ == joined(strings_view(args@.take(i as int))),
        decreases args.len() - i,
    {
        proof {
            assert(args@.take(i as int + 1).drop_last() == args@.take(i as int));
        }
        if i > 0 {
            r.append(" ");
        }
        r.append(args[i].as_str());
        proof {
            reveal_strlit(" ");
            let t = strings_view(args@.take(i as int + 1));
            assert(t.drop_last() == strings_view(args@.take(i as int)));
            assert(t.last() == args@[i as int]@);
            if i == 0 {
                assert(t.len() == 1);
            }
        }
        i = i + 1;
    }
    proof {
        assert(args@.take(args.len() as int) == args@);
    }
    r
}

/// What a run of `program` with `args` amounts to, given how it ended:
/// success only on exit code zero.
pub open spec fn is_command_result(
    program: Seq<char>,
    args: Seq<Seq<char>>,
    report: ExitReport,
    r: Result<(), CommandError>,
) -> bool {
    match report {
        ExitReport::SpawnFailed => match r {
            Err(CommandError::SpawnFailed { program: p, args: a }) => p@ == program && strings_view(
                a@,
            ) == args,
            _ => false,
        },
        ExitReport::Exited { code } => if code == Some(0i32) {
            r is Ok
        } else {
            match r {
                Err(CommandError::NonZeroExit { exit_code, program: p, args: a }) => exit_code
                    == reported_code(code) && p@ == program && strings_view(a@) == args,
                _ => false,
            }
        },
    }
}

/// Turns the way a command ended into its result. No retry is made here.
pub fn command_result(program: &String, args: &Vec<String>, report: ExitReport) -> (r: Result<
    (),
    CommandError,
>)
    ensures
        is_command_result(program@, strings_view(args@), report, r),
{
    match report {
        ExitReport::SpawnFailed => Err(
            CommandError::SpawnFailed { program: program.clone(), args: args.clone() },
        ),
        ExitReport::Exited { code } => {
            match code {
                Some(c) => {
                    if c == 0 {
                        Ok(())
                    } else {
                        Err(
                            CommandError::NonZeroExit {
                                exit_code: c,
                                program: program.clone(),
                                args: args.clone(),
                            },
                        )
                    }
                },
                None => Err(
                    CommandError::NonZeroExit {
                        exit_code: -1,
                        program: program.clone(),
                        args: args.clone(),
                    },
                ),
            }
        },
    }
}

/// The line echoed before a command runs: `$ program arg1 arg2 ...`.
pub fn command_echo(program: &str, args: &Vec<String>) -> (r: String)
    ensures
        r@ == "$ "@ + program@ + " "@ + joined(strings_view(args@)),
{
    let mut r = String::from_str("$ ");
    r.append(program);
    r.append(" ");
    let a = join_args(args);
    r.append(a.as_str());
    r
}

/// A line of a command's error stream, shown in red.
pub fn stderr_display(line: &str) -> (r: String)
    ensures
        r@ == "\x1b[31m"@ + line@ + "\x1b[0m"@,
{
    let mut r = String::from_str("\x1b[31m");
    r.append(line);
    r.append("\x1b[0m");
    r
}

} // verus!
