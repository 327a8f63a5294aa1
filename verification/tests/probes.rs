use git_tooling::errors::{ExitStatus, GitToolingError, SpawnFailure};
use git_tooling::probe::{
    ensure_git_repository, head_query, resolve_head, resolve_repository_root, root_query,
    work_tree_query, NOTHING_THERE,
};
use git_tooling::process::{
    build_command_string, run_git, run_git_for_status, run_git_for_stdout,
    run_git_for_stdout_all, GitRun, ProcessOutput,
};

fn args(words: &[&str]) -> Vec<Vec<u8>> {
    words.iter().map(|word| word.as_bytes().to_vec()).collect()
}

fn ended(
    code: Option<i32>,
    stdout: &[u8],
    stderr: &[u8],
) -> Result<ProcessOutput, SpawnFailure> {
    Ok(ProcessOutput {
        status: ExitStatus { code },
        stdout: stdout.to_vec(),
        stderr: stderr.to_vec(),
    })
}

fn failed(command: &str, code: Option<i32>, stderr: &str) -> GitToolingError {
    GitToolingError::GitCommand {
        command: command.to_string(),
        status: ExitStatus { code },
        stderr: stderr.to_string(),
    }
}

fn not_started(os_code: Option<i32>, message: &str) -> Result<ProcessOutput, SpawnFailure> {
    Err(SpawnFailure { os_code, message: message.to_string() })
}

fn no_start(os_code: Option<i32>, message: &str) -> GitToolingError {
    GitToolingError::Io { os_code, message: message.to_string() }
}

fn not_a_repository(path: &[u8]) -> GitToolingError {
    GitToolingError::NotAGitRepository { path: path.to_vec() }
}

#[test]
fn exit_status_succeeds_on_zero_only() {
    assert!(ExitStatus { code: Some(0) }.success());
    assert!(!ExitStatus { code: Some(1) }.success());
    assert!(!ExitStatus { code: Some(128) }.success());
    assert!(!ExitStatus { code: Some(-1) }.success());
    assert!(!ExitStatus { code: None }.success());
}

#[test]
fn exit_status_has_its_own_code_only() {
    assert!(ExitStatus { code: Some(128) }.has_code(128));
    assert!(!ExitStatus { code: Some(127) }.has_code(128));
    assert!(!ExitStatus { code: None }.has_code(0));
    assert_eq!(NOTHING_THERE, 128);
}

#[test]
fn command_string_without_arguments() {
    assert_eq!(build_command_string(&[]), "git");
}

#[test]
fn command_string_puts_a_space_before_each_argument() {
    assert_eq!(build_command_string(&args(&["status"])), "git status");
    assert_eq!(
        build_command_string(&args(&["rev-parse", "--verify", "HEAD"])),
        "git rev-parse --verify HEAD"
    );
    assert_eq!(build_command_string(&args(&["commit", "-m", "two words"])), "git commit -m two words");
    assert_eq!(build_command_string(&args(&["", "x"])), "git  x");
}

#[test]
fn command_string_replaces_what_is_not_text() {
    let odd = vec![b"add".to_vec(), b"a\xffb".to_vec()];
    assert_eq!(build_command_string(&odd), "git add a\u{fffd}b");
    let text = vec!["caf\u{e9}".as_bytes().to_vec()];
    assert_eq!(build_command_string(&text), "git caf\u{e9}");
}

#[test]
fn queries_are_the_rev_parse_questions() {
    assert_eq!(work_tree_query(), args(&["rev-parse", "--is-inside-work-tree"]));
    assert_eq!(head_query(), args(&["rev-parse", "--verify", "HEAD"]));
    assert_eq!(root_query(), args(&["rev-parse", "--show-toplevel"]));
}

#[test]
fn run_git_returns_the_output_of_a_run_that_succeeded() {
    let run = run_git(&args(&["status", "-s"]), ended(Some(0), b" M file\n", b"warning\n"));
    assert_eq!(
        run,
        Ok(GitRun {
            command: "git status -s".to_string(),
            output: ProcessOutput {
                status: ExitStatus { code: Some(0) },
                stdout: b" M file\n".to_vec(),
                stderr: b"warning\n".to_vec(),
            },
        })
    );
}

#[test]
fn run_git_reports_a_failed_run_with_trimmed_stderr() {
    let run = run_git(&args(&["push"]), ended(Some(1), b"ignored", b"  fatal: no remote\n\n"));
    assert_eq!(run, Err(failed("git push", Some(1), "fatal: no remote")));
}

#[test]
fn run_git_reports_stderr_that_is_not_text() {
    let run = run_git(&args(&["x"]), ended(Some(2), b"", b"\tbad \xff byte \n"));
    assert_eq!(run, Err(failed("git x", Some(2), "bad \u{fffd} byte")));
}

#[test]
fn run_git_reports_a_run_ended_by_a_signal() {
    let run = run_git(&args(&["gc"]), ended(None, b"", b"killed"));
    assert_eq!(run, Err(failed("git gc", None, "killed")));
}

#[test]
fn run_git_reports_a_process_that_did_not_start() {
    let run = run_git(&args(&["status"]), not_started(Some(2), "No such file or directory"));
    assert_eq!(run, Err(no_start(Some(2), "No such file or directory")));
}

#[test]
fn run_git_for_status_drops_the_output() {
    assert_eq!(run_git_for_status(&args(&["add", "."]), ended(Some(0), b"out", b"err")), Ok(()));
    assert_eq!(
        run_git_for_status(&args(&["add", "."]), ended(Some(128), b"", b"fatal\n")),
        Err(failed("git add .", Some(128), "fatal"))
    );
    assert_eq!(
        run_git_for_status(&args(&[]), not_started(Some(13), "denied")),
        Err(no_start(Some(13), "denied"))
    );
}

#[test]
fn stdout_is_trimmed() {
    let out = run_git_for_stdout(&args(&["rev-parse", "HEAD"]), ended(Some(0), b"  abc123 \r\n", b""));
    assert_eq!(out, Ok("abc123".to_string()));
    let inner = run_git_for_stdout(&args(&[]), ended(Some(0), b"\n a b \n c\t", b""));
    assert_eq!(inner, Ok("a b \n c".to_string()));
    let blank = run_git_for_stdout(&args(&[]), ended(Some(0), b" \n\t ", b""));
    assert_eq!(blank, Ok(String::new()));
}

#[test]
fn stdout_all_is_byte_for_byte() {
    let out = run_git_for_stdout_all(&args(&["ls-files", "-z"]), ended(Some(0), b" a\0b \0\n", b""));
    assert_eq!(out, Ok(" a\0b \0\n".to_string()));
    let empty = run_git_for_stdout_all(&args(&[]), ended(Some(0), b"", b""));
    assert_eq!(empty, Ok(String::new()));
}

#[test]
fn stdout_that_is_not_text_is_a_decode_error() {
    let expected = GitToolingError::GitOutputUtf8 {
        command: "git show".to_string(),
        valid_up_to: 3,
    };
    assert_eq!(
        run_git_for_stdout(&args(&["show"]), ended(Some(0), b"abc\xff\n", b"")),
        Err(expected.clone())
    );
    assert_eq!(
        run_git_for_stdout_all(&args(&["show"]), ended(Some(0), b"abc\xff\n", b"")),
        Err(expected)
    );
}

#[test]
fn stdout_cut_inside_a_character_is_a_decode_error() {
    assert_eq!(
        run_git_for_stdout_all(&args(&[]), ended(Some(0), b"\xc3\xa9\xc3", b"")),
        Err(GitToolingError::GitOutputUtf8 { command: "git".to_string(), valid_up_to: 2 })
    );
}

#[test]
fn stdout_of_a_failed_run_is_the_failure() {
    assert_eq!(
        run_git_for_stdout(&args(&["log"]), ended(Some(1), b"\xff", b"bad\n")),
        Err(failed("git log", Some(1), "bad"))
    );
    assert_eq!(
        run_git_for_stdout_all(&args(&["log"]), not_started(Some(2), "gone")),
        Err(no_start(Some(2), "gone"))
    );
}

#[test]
fn repository_is_confirmed_by_true() {
    assert_eq!(ensure_git_repository(b"/repo", ended(Some(0), b"true\n", b"")), Ok(()));
    assert_eq!(ensure_git_repository(b"/repo", ended(Some(0), b"true", b"")), Ok(()));
    assert_eq!(ensure_git_repository(b"/repo", ended(Some(0), b"  true \r\n", b"")), Ok(()));
}

#[test]
fn repository_is_denied_by_any_other_answer() {
    for answer in [&b"false\n"[..], b"", b"True", b"true true", b"yes", b"tru e"] {
        assert_eq!(
            ensure_git_repository(b"/plain", ended(Some(0), answer, b"")),
            Err(not_a_repository(b"/plain"))
        );
    }
}

#[test]
fn repository_is_denied_by_exit_code_128() {
    assert_eq!(
        ensure_git_repository(
            b"/tmp/fresh",
            ended(Some(128), b"", b"fatal: not a git repository\n")
        ),
        Err(not_a_repository(b"/tmp/fresh"))
    );
    assert_eq!(
        ensure_git_repository(b"/tmp/fresh", ended(Some(128), b"true", b"")),
        Err(not_a_repository(b"/tmp/fresh"))
    );
}

#[test]
fn repository_check_passes_other_failures_on() {
    assert_eq!(
        ensure_git_repository(b"/repo", ended(Some(1), b"", b" broken \n")),
        Err(failed("git rev-parse --is-inside-work-tree", Some(1), "broken"))
    );
    assert_eq!(
        ensure_git_repository(b"/repo", ended(None, b"", b"")),
        Err(failed("git rev-parse --is-inside-work-tree", None, ""))
    );
    assert_eq!(
        ensure_git_repository(b"/repo", not_started(Some(2), "git: not found")),
        Err(no_start(Some(2), "git: not found"))
    );
    assert_eq!(
        ensure_git_repository(b"/repo", ended(Some(0), b"tr\xffue", b"")),
        Err(GitToolingError::GitOutputUtf8 {
            command: "git rev-parse --is-inside-work-tree".to_string(),
            valid_up_to: 2,
        })
    );
}

#[test]
fn head_of_a_repository_with_a_commit() {
    let sha = b"3f786850e387550fdab836ed7e6dc881de23001b\n";
    assert_eq!(
        resolve_head(ended(Some(0), sha, b"")),
        Ok(Some("3f786850e387550fdab836ed7e6dc881de23001b".to_string()))
    );
}

#[test]
fn head_of_a_repository_without_commits_is_absent() {
    assert_eq!(
        resolve_head(ended(Some(128), b"", b"fatal: Needed a single revision\n")),
        Ok(None)
    );
}

#[test]
fn head_passes_other_failures_on() {
    assert_eq!(
        resolve_head(ended(Some(129), b"", b"usage\n")),
        Err(failed("git rev-parse --verify HEAD", Some(129), "usage"))
    );
    assert_eq!(
        resolve_head(not_started(None, "spawn failed")),
        Err(no_start(None, "spawn failed"))
    );
    assert_eq!(
        resolve_head(ended(Some(0), b"\xfe", b"")),
        Err(GitToolingError::GitOutputUtf8 {
            command: "git rev-parse --verify HEAD".to_string(),
            valid_up_to: 0,
        })
    );
}

#[test]
fn root_is_the_trimmed_answer() {
    assert_eq!(
        resolve_repository_root(ended(Some(0), b"/home/me/repo\n", b"")),
        Ok(b"/home/me/repo".to_vec())
    );
    assert_eq!(
        resolve_repository_root(ended(Some(0), "/r\u{e9}po dir\n".as_bytes(), b"")),
        Ok("/r\u{e9}po dir".as_bytes().to_vec())
    );
}

#[test]
fn root_passes_every_failure_on() {
    assert_eq!(
        resolve_repository_root(ended(Some(128), b"", b"fatal: not a git repository\n")),
        Err(failed("git rev-parse --show-toplevel", Some(128), "fatal: not a git repository"))
    );
    assert_eq!(
        resolve_repository_root(not_started(Some(2), "nope")),
        Err(no_start(Some(2), "nope"))
    );
}
