//! What a run of git comes to: its output, or the error that stands for
//! the way it failed.
use crate::errors::{ErrorView, ExitStatus, GitToolingError, SpawnFailure};
use crate::path::byte_views;
use crate::text::{decode_lossy, decode_strict, is_valid_up_to, lossy_text, trim, trimmed};
use vstd::prelude::*;
use vstd::string::StringExecFns;
use vstd::utf8::{decode_utf8, valid_utf8};

verus! {

/// What a process left behind when it ended.
#[derive(Debug, Clone, PartialEq, Eq)]
pub struct ProcessOutput {
    pub status: ExitStatus,
    pub stdout: Vec<u8>,
    pub stderr: Vec<u8>,
}

/// A run of git that succeeded, with the command as it is shown to a
/// reader.
#[derive(Debug, Clone, PartialEq, Eq)]
pub struct GitRun {
    pub command: String,
    pub output: ProcessOutput,
}

/// The words, each with a space before it.
pub open spec fn spaced(words: Seq<Seq<char>>) -> Seq<char>
    decreases words.len(),
{
    if words.len() == 0 {
        seq![]
    } else {
        spaced(words.drop_last()) + seq![' '] + words.last()
    }
}

/// The arguments as they are shown to a reader.
pub open spec fn shown_args(args: Seq<Seq<u8>>) -> Seq<Seq<char>> {
    args.map_values(|arg: Seq<u8>| lossy_text(arg))
}

/// The command as it is shown to a reader: `git`, then each argument after
/// a space.
pub open spec fn command_text(args: Seq<Seq<u8>>) -> Seq<char> {
    "git"@ + spaced(shown_args(args))
}

/// The error that a run ends in before any of its output is read: git did
/// not start, or it did not return the exit code zero.
pub open spec fn run_failure(args: Seq<Seq<u8>>, spawned: Result<ProcessOutput, SpawnFailure>) -> Option<
    ErrorView,
> {
    match spawned {
        Err(failure) => Some(
            ErrorView::Io { os_code: failure.os_code, message: failure.message@ },
        ),
        Ok(output) => if output.status.is_success() {
            None
        } else {
            Some(
                ErrorView::GitCommand {
                    command: command_text(args),
                    status: output.status,
                    stderr: trimmed(lossy_text(output.stderr@)),
                },
            )
        },
    }
}

/// Whether `error` says that `bytes`, the output of `command`, are not
/// UTF-8.
pub open spec fn is_decode_failure(error: ErrorView, command: Seq<char>, bytes: Seq<u8>) -> bool {
    &&& error matches ErrorView::GitOutputUtf8 { command: shown, valid_up_to }
    &&& shown == command
    &&& is_valid_up_to(bytes, valid_up_to as int)
}

/// Whether `r` is what the standard output of a run comes to: the failure
/// of the run, or the text of the output, trimmed where `trim` asks for it,
/// or a decode failure when the output is not UTF-8.
pub open spec fn is_stdout_of(
    r: Result<String, GitToolingError>,
    args: Seq<Seq<u8>>,
    spawned: Result<ProcessOutput, SpawnFailure>,
    trim: bool,
) -> bool {
    match run_failure(args, spawned) {
        Some(failure) => r matches Err(e) && e@ == failure,
        None => {
            let bytes = spawned->Ok_0.stdout@;
            if valid_utf8(bytes) {
                r matches Ok(text) && text@ == if trim {
                    trimmed(decode_utf8(bytes))
                } else {
                    decode_utf8(bytes)
                }
            } else {
                r matches Err(e) && is_decode_failure(e@, command_text(args), bytes)
            }
        },
    }
}

/// Whether every argument that is UTF-8 is shown as the text it encodes.
pub open spec fn shows_text_as_it_is(args: Seq<Seq<u8>>) -> bool {
    forall|i: int|
        0 <= i < args.len() && valid_utf8(#[trigger] args[i]) ==> lossy_text(args[i])
            == decode_utf8(args[i])
}

/// The command as it is shown to a reader. It is never run: arguments that
/// are not UTF-8 are shown with replacement characters.
pub fn build_command_string(args: &[Vec<u8>]) -> (command: String)
    ensures
        command@ == command_text(byte_views(args@)),
        shows_text_as_it_is(byte_views(args@)),
{
    let ghost all = byte_views(args@);
    let mut command: String = "git".to_owned();
    let mut i: usize = 0;
    assert(shown_args(all).take(0) =~= Seq::<Seq<char>>::empty());
    assert(command@ =~= "git"@ + spaced(shown_args(all).take(0)));
    while i < args.len()
        invariant
            i <= args.len(),
            all == byte_views(args@),
            command@ == "git"@ + spaced(shown_args(all).take(i as int)),
            forall|j: int|
                0 <= j < i && valid_utf8(#[trigger] all[j]) ==> lossy_text(all[j]) == decode_utf8(
                    all[j],
                ),
        decreases args.len() - i,
    {
        let shown: String = decode_lossy(args[i].as_slice());
        let ghost before = command@;
        command.append(" ");
        command.append(shown.as_str());
        proof {
            reveal_strlit(" ");
            assert(" "@ =~= seq![' ']);
            let done = shown_args(all).take(i + 1);
            assert(done.drop_last() =~= shown_args(all).take(i as int));
            assert(done.last() == shown@);
            assert(command@ =~= "git"@ + spaced(done));
        }
        i = i + 1;
    }
    assert(shown_args(all).take(args@.len() as int) =~= shown_args(all));
    command
}

/// What a run of git comes to. `spawned` is what the attempt to run git
/// with `args` gave: the output of the process, or the error that kept it
/// from starting.
///
/// A process that did not start is an `Io` error. One that did not return
/// the exit code zero is a `GitCommand` error, with the command as shown,
/// the status, and what it wrote to standard error, trimmed.
pub fn run_git(args: &[Vec<u8>], spawned: Result<ProcessOutput, SpawnFailure>) -> (r: Result<
    GitRun,
    GitToolingError,
>)
    ensures
        match run_failure(byte_views(args@), spawned) {
            Some(failure) => r matches Err(e) && e@ == failure,
            None => r matches Ok(run) && run.command@ == command_text(byte_views(args@))
                && run.output == spawned->Ok_0,
        },
        shows_text_as_it_is(byte_views(args@)),
{
    let command: String = build_command_string(args);
    match spawned {
        Err(failure) => Err(
            GitToolingError::Io { os_code: failure.os_code, message: failure.message },
        ),
        Ok(output) => {
            if !output.status.success() {
                let text: String = decode_lossy(output.stderr.as_slice());
                let stderr: String = trim(text.as_str()).to_owned();
                return Err(GitToolingError::GitCommand { command, status: output.status, stderr });
            }
            Ok(GitRun { command, output })
        },
    }
}

/// Whether a run of git succeeded; its output is dropped.
pub fn run_git_for_status(args: &[Vec<u8>], spawned: Result<ProcessOutput, SpawnFailure>) -> (r: Result<
    (),
    GitToolingError,
>)
    ensures
        match run_failure(byte_views(args@), spawned) {
            Some(failure) => r matches Err(e) && e@ == failure,
            None => r is Ok,
        },
{
    match run_git(args, spawned) {
        Ok(_) => Ok(()),
        Err(e) => Err(e),
    }
}

/// The standard output of a run of git as text, without the white space
/// around it. Output that is not UTF-8 is a `GitOutputUtf8` error.
pub fn run_git_for_stdout(args: &[Vec<u8>], spawned: Result<ProcessOutput, SpawnFailure>) -> (r: Result<
    String,
    GitToolingError,
>)
    ensures
        is_stdout_of(r, byte_views(args@), spawned, true),
        shows_text_as_it_is(byte_views(args@)),
{
    match run_git(args, spawned) {
        Ok(run) => match decode_strict(run.output.stdout) {
            Ok(text) => Ok(trim(text.as_str()).to_owned()),
            Err(valid_up_to) => Err(
                GitToolingError::GitOutputUtf8 { command: run.command, valid_up_to },
            ),
        },
        Err(e) => Err(e),
    }
}

/// The standard output of a run of git as text, byte for byte, so that
/// output in which a delimiter counts can be taken apart. Output that is not
/// UTF-8 is a `GitOutputUtf8` error.
pub fn run_git_for_stdout_all(args: &[Vec<u8>], spawned: Result<ProcessOutput, SpawnFailure>) -> (r:
    Result<String, GitToolingError>)
    ensures
        is_stdout_of(r, byte_views(args@), spawned, false),
        shows_text_as_it_is(byte_views(args@)),
{
    match run_git(args, spawned) {
        Ok(run) => match decode_strict(run.output.stdout) {
            Ok(text) => Ok(text),
            Err(valid_up_to) => Err(
                GitToolingError::GitOutputUtf8 { command: run.command, valid_up_to },
            ),
        },
        Err(e) => Err(e),
    }
}

} // verus!
