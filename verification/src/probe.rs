//! The three questions that are put to git about a directory, and what
//! its answers mean.
//!
//! Each question is a list of arguments for git. Whoever runs git with them
//! hands the outcome to the function that reads the answer.
use crate::errors::{ErrorView, GitToolingError, SpawnFailure};
use crate::path::byte_views;
use crate::process::{
    command_text, is_decode_failure, run_failure, run_git_for_stdout, shown_args, spaced,
    ProcessOutput,
};
use crate::text::trimmed;
use vstd::prelude::*;
use vstd::slice::slice_to_vec;
use vstd::string::StrSliceExecFns;
use vstd::utf8::{
    decode_utf8, encode_utf8, encode_utf8_decode_utf8, encode_utf8_valid_utf8, valid_utf8,
};

verus! {

/// The exit code with which git says that there is no repository, or no
/// commit, to answer from.
pub const NOTHING_THERE: i32 = 128;

/// The arguments that ask whether a directory is inside a work tree.
pub open spec fn work_tree_question() -> Seq<Seq<u8>> {
    seq![encode_utf8("rev-parse"@), encode_utf8("--is-inside-work-tree"@)]
}

/// The arguments that ask for the commit at `HEAD`.
pub open spec fn head_question() -> Seq<Seq<u8>> {
    seq![encode_utf8("rev-parse"@), encode_utf8("--verify"@), encode_utf8("HEAD"@)]
}

/// The arguments that ask for the top directory of the work tree.
pub open spec fn root_question() -> Seq<Seq<u8>> {
    seq![encode_utf8("rev-parse"@), encode_utf8("--show-toplevel"@)]
}

/// Whether a failure is git saying that nothing is there.
pub open spec fn says_nothing_there(failure: ErrorView) -> bool {
    failure matches ErrorView::GitCommand { status, .. } && status.code == Some(NOTHING_THERE)
}

/// The arguments that ask whether a directory is inside a work tree.
pub fn work_tree_query() -> (args: Vec<Vec<u8>>)
    ensures
        byte_views(args@) == work_tree_question(),
{
    let mut args: Vec<Vec<u8>> = Vec::new();
    args.push("rev-parse".as_bytes_vec());
    args.push("--is-inside-work-tree".as_bytes_vec());
    assert(byte_views(args@) =~= work_tree_question());
    args
}

/// The arguments that ask for the commit at `HEAD`.
pub fn head_query() -> (args: Vec<Vec<u8>>)
    ensures
        byte_views(args@) == head_question(),
{
    let mut args: Vec<Vec<u8>> = Vec::new();
    args.push("rev-parse".as_bytes_vec());
    args.push("--verify".as_bytes_vec());
    args.push("HEAD".as_bytes_vec());
    assert(byte_views(args@) =~= head_question());
    args
}

/// The arguments that ask for the top directory of the work tree.
pub fn root_query() -> (args: Vec<Vec<u8>>)
    ensures
        byte_views(args@) == root_question(),
{
    let mut args: Vec<Vec<u8>> = Vec::new();
    args.push("rev-parse".as_bytes_vec());
    args.push("--show-toplevel".as_bytes_vec());
    assert(byte_views(args@) =~= root_question());
    args
}

/// Whether an error is git saying that nothing is there.
fn is_nothing_there(error: &GitToolingError) -> (b: bool)
    ensures
        b == says_nothing_there(error@),
{
    match error {
        GitToolingError::GitCommand { status, .. } => status.has_code(NOTHING_THERE),
        _ => false,
    }
}

/// Reads the answer to [`work_tree_query`] for the directory `path`.
///
/// The directory is inside a work tree when git succeeded and wrote `true`,
/// with or without white space around it. When git wrote anything else, or
/// ended with the exit code 128, the directory is not a repository. Every
/// other failure is returned as it is.
pub fn ensure_git_repository(path: &[u8], spawned: Result<ProcessOutput, SpawnFailure>) -> (r: Result<
    (),
    GitToolingError,
>)
    ensures
        match run_failure(work_tree_question(), spawned) {
            Some(failure) => r matches Err(e) && e@ == if says_nothing_there(failure) {
                ErrorView::NotAGitRepository { path: path@ }
            } else {
                failure
            },
            None => {
                let bytes = spawned->Ok_0.stdout@;
                if !valid_utf8(bytes) {
                    r matches Err(e) && is_decode_failure(
                        e@,
                        command_text(work_tree_question()),
                        bytes,
                    )
                } else if trimmed(decode_utf8(bytes)) == "true"@ {
                    r is Ok
                } else {
                    r matches Err(e) && e@ == (ErrorView::NotAGitRepository { path: path@ })
                }
            },
        },
        command_text(work_tree_question()) == "git rev-parse --is-inside-work-tree"@,
{
    let args: Vec<Vec<u8>> = work_tree_query();
    let answer = run_git_for_stdout(args.as_slice(), spawned);
    proof {
        lemma_shown_as_written("rev-parse"@);
        lemma_shown_as_written("--is-inside-work-tree"@);
        reveal_strlit("git");
        reveal_strlit("rev-parse");
        reveal_strlit("--is-inside-work-tree");
        reveal_strlit("git rev-parse --is-inside-work-tree");
        lemma_command_of_two("rev-parse"@, "--is-inside-work-tree"@);
        let asked = work_tree_question();
        assert(valid_utf8(asked[0]) && valid_utf8(asked[1]));
        assert(shown_args(asked) =~= seq![
            "rev-parse"@,
            "--is-inside-work-tree"@,
        ]);
        assert(command_text(work_tree_question()) =~= "git rev-parse --is-inside-work-tree"@);
    }
    match answer {
        Ok(output) => {
            if output == "true".to_owned() {
                Ok(())
            } else {
                Err(GitToolingError::NotAGitRepository { path: slice_to_vec(path) })
            }
        },
        Err(error) => {
            if is_nothing_there(&error) {
                Err(GitToolingError::NotAGitRepository { path: slice_to_vec(path) })
            } else {
                Err(error)
            }
        },
    }
}

/// Reads the answer to [`head_query`].
///
/// When git succeeded, what it wrote is the commit at `HEAD`. When it ended
/// with the exit code 128 there is no commit yet, which is no error. Every
/// other failure is returned as it is.
pub fn resolve_head(spawned: Result<ProcessOutput, SpawnFailure>) -> (r: Result<
    Option<String>,
    GitToolingError,
>)
    ensures
        match run_failure(head_question(), spawned) {
            Some(failure) => if says_nothing_there(failure) {
                r matches Ok(None)
            } else {
                r matches Err(e) && e@ == failure
            },
            None => {
                let bytes = spawned->Ok_0.stdout@;
                if valid_utf8(bytes) {
                    r matches Ok(Some(commit)) && commit@ == trimmed(decode_utf8(bytes))
                } else {
                    r matches Err(e) && is_decode_failure(e@, command_text(head_question()), bytes)
                }
            },
        },
        command_text(head_question()) == "git rev-parse --verify HEAD"@,
{
    let args: Vec<Vec<u8>> = head_query();
    let answer = run_git_for_stdout(args.as_slice(), spawned);
    proof {
        lemma_shown_as_written("rev-parse"@);
        lemma_shown_as_written("--verify"@);
        lemma_shown_as_written("HEAD"@);
        reveal_strlit("git");
        reveal_strlit("rev-parse");
        reveal_strlit("--verify");
        reveal_strlit("HEAD");
        reveal_strlit("git rev-parse --verify HEAD");
        lemma_command_of_two("rev-parse"@, "--verify"@);
        let two = seq!["rev-parse"@, "--verify"@];
        let three = seq!["rev-parse"@, "--verify"@, "HEAD"@];
        let asked = head_question();
        assert(valid_utf8(asked[0]) && valid_utf8(asked[1]) && valid_utf8(asked[2]));
        assert(three.drop_last() =~= two);
        assert(shown_args(asked) =~= three);
        assert(spaced(three) =~= spaced(two) + seq![' '] + "HEAD"@);
        assert(command_text(head_question()) =~= "git rev-parse --verify HEAD"@);
    }
    match answer {
        Ok(commit) => Ok(Some(commit)),
        Err(error) => {
            if is_nothing_there(&error) {
                Ok(None)
            } else {
                Err(error)
            }
        },
    }
}

/// Reads the answer to [`root_query`]: the top directory of the work tree,
/// as git wrote it, without the white space around it. Every failure is
/// returned as it is.
pub fn resolve_repository_root(spawned: Result<ProcessOutput, SpawnFailure>) -> (r: Result<
    Vec<u8>,
    GitToolingError,
>)
    ensures
        match run_failure(root_question(), spawned) {
            Some(failure) => r matches Err(e) && e@ == failure,
            None => {
                let bytes = spawned->Ok_0.stdout@;
                if valid_utf8(bytes) {
                    r matches Ok(root) && root@ == encode_utf8(trimmed(decode_utf8(bytes)))
                } else {
                    r matches Err(e) && is_decode_failure(e@, command_text(root_question()), bytes)
                }
            },
        },
        command_text(root_question()) == "git rev-parse --show-toplevel"@,
{
    let args: Vec<Vec<u8>> = root_query();
    let answer = run_git_for_stdout(args.as_slice(), spawned);
    proof {
        lemma_shown_as_written("rev-parse"@);
        lemma_shown_as_written("--show-toplevel"@);
        reveal_strlit("git");
        reveal_strlit("rev-parse");
        reveal_strlit("--show-toplevel");
        reveal_strlit("git rev-parse --show-toplevel");
        lemma_command_of_two("rev-parse"@, "--show-toplevel"@);
        let asked = root_question();
        assert(valid_utf8(asked[0]) && valid_utf8(asked[1]));
        assert(shown_args(asked) =~= seq!["rev-parse"@, "--show-toplevel"@]);
        assert(command_text(root_question()) =~= "git rev-parse --show-toplevel"@);
    }
    match answer {
        Ok(root) => Ok(root.as_str().as_bytes_vec()),
        Err(error) => Err(error),
    }
}

/// A text, written as bytes, is UTF-8 and encodes that text.
proof fn lemma_shown_as_written(word: Seq<char>)
    ensures
        valid_utf8(encode_utf8(word)),
        decode_utf8(encode_utf8(word)) == word,
{
    encode_utf8_valid_utf8(word);
    encode_utf8_decode_utf8(word);
}

/// Two words, each with a space before it.
proof fn lemma_command_of_two(first: Seq<char>, second: Seq<char>)
    ensures
        spaced(seq![first, second]) == seq![' '] + first + seq![' '] + second,
        spaced(seq![first]) == seq![' '] + first,
{
    let two = seq![first, second];
    let one = seq![first];
    let none = Seq::<Seq<char>>::empty();
    assert(two.drop_last() =~= one);
    assert(one.drop_last() =~= none);
    assert(spaced(none) =~= Seq::<char>::empty());
    assert(spaced(one) =~= spaced(none) + seq![' '] + first);
    assert(spaced(one) =~= seq![' '] + first);
    assert(spaced(two) =~= seq![' '] + first + seq![' '] + second);
}

} // verus!
