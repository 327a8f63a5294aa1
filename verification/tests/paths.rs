use git_tooling::errors::GitToolingError;
use git_tooling::normalize::{join_names, normalize_components, normalize_relative_path, PathFault};
use git_tooling::path::{bytes_equal, component_equal, components, path_text, Component};
use git_tooling::prefix::{apply_repo_prefix_to_force_include, join_path};
use git_tooling::subdir::{
    direct_repo_subdir, needs_canonical_paths, non_empty_path, paths_equal, repo_subdir,
    strip_prefix,
};

fn name(text: &str) -> Component {
    Component::Normal(text.as_bytes().to_vec())
}

fn not_relative(path: &[u8]) -> Result<Vec<u8>, GitToolingError> {
    Err(GitToolingError::NonRelativePath { path: path.to_vec() })
}

fn escapes(path: &[u8]) -> Result<Vec<u8>, GitToolingError> {
    Err(GitToolingError::PathEscapesRepository { path: path.to_vec() })
}

#[test]
fn components_of_an_absolute_path() {
    assert_eq!(
        components(b"/a/./b/../c/"),
        vec![Component::RootDir, name("a"), name("b"), Component::ParentDir, name("c")]
    );
}

#[test]
fn components_keep_a_leading_dot_only() {
    assert_eq!(components(b"./a/./b"), vec![Component::CurDir, name("a"), name("b")]);
    assert_eq!(components(b"."), vec![Component::CurDir]);
    assert_eq!(components(b"a/."), vec![name("a")]);
    assert_eq!(components(b"/."), vec![Component::RootDir]);
}

#[test]
fn components_pass_over_repeated_separators() {
    assert_eq!(components(b"a//b///c"), vec![name("a"), name("b"), name("c")]);
    assert_eq!(components(b"//a"), vec![Component::RootDir, name("a")]);
    assert_eq!(components(b"/"), vec![Component::RootDir]);
    assert_eq!(components(b""), Vec::<Component>::new());
}

#[test]
fn components_take_dotted_names_as_names() {
    assert_eq!(components(b"..."), vec![name("...")]);
    assert_eq!(components(b".git/..a/b.."), vec![name(".git"), name("..a"), name("b..")]);
    assert_eq!(components(b"../.."), vec![Component::ParentDir, Component::ParentDir]);
}

#[test]
fn path_text_writes_components_out() {
    assert_eq!(path_text(&[Component::RootDir, name("a"), name("b")]), b"/a/b".to_vec());
    assert_eq!(path_text(&[Component::CurDir, name("a")]), b"./a".to_vec());
    assert_eq!(path_text(&[name("a"), Component::ParentDir, name("b")]), b"a/../b".to_vec());
    assert_eq!(path_text(&[Component::RootDir]), b"/".to_vec());
    assert_eq!(path_text(&[]), Vec::<u8>::new());
}

#[test]
fn path_text_of_components_splits_back() {
    for path in [&b"/a/b"[..], b"./x/../y", b"../up", b"plain", b"/"] {
        let parts = components(path);
        let text = path_text(&parts);
        assert_eq!(text, path.to_vec());
        assert_eq!(components(&text), parts);
    }
    let parts = components(b"a//b/./c/");
    assert_eq!(path_text(&parts), b"a/b/c".to_vec());
    assert_eq!(components(&path_text(&parts)), parts);
}

#[test]
fn bytes_and_components_compare_by_content() {
    assert!(bytes_equal(b"abc", b"abc"));
    assert!(!bytes_equal(b"abc", b"abd"));
    assert!(!bytes_equal(b"abc", b"ab"));
    assert!(bytes_equal(b"", b""));
    assert!(component_equal(&name("a"), &name("a")));
    assert!(!component_equal(&name("a"), &name("b")));
    assert!(!component_equal(&Component::CurDir, &Component::ParentDir));
    assert!(component_equal(&Component::RootDir, &Component::RootDir));
    assert!(!component_equal(&name(".."), &Component::ParentDir));
}

#[test]
fn normalize_simplifies_dot_and_parent() {
    assert_eq!(normalize_relative_path(b"a/./b/../c"), Ok(b"a/c".to_vec()));
}

#[test]
fn normalize_leading_parent_escapes() {
    assert_eq!(normalize_relative_path(b"../x"), escapes(b"../x"));
    assert_eq!(normalize_relative_path(b".."), escapes(b".."));
}

#[test]
fn normalize_parent_beyond_the_names_escapes() {
    assert_eq!(normalize_relative_path(b"a/../../b"), escapes(b"a/../../b"));
    assert_eq!(normalize_relative_path(b"a/b/../../.."), escapes(b"a/b/../../.."));
    assert_eq!(normalize_relative_path(b"./.."), escapes(b"./.."));
}

#[test]
fn normalize_absolute_is_not_relative() {
    assert_eq!(normalize_relative_path(b"/abs/path"), not_relative(b"/abs/path"));
    assert_eq!(normalize_relative_path(b"/"), not_relative(b"/"));
    assert_eq!(normalize_relative_path(b"/.."), not_relative(b"/.."));
}

#[test]
fn normalize_empty_is_not_relative() {
    assert_eq!(normalize_relative_path(b""), not_relative(b""));
}

#[test]
fn normalize_may_come_to_nothing() {
    assert_eq!(normalize_relative_path(b"."), Ok(Vec::new()));
    assert_eq!(normalize_relative_path(b"a/.."), Ok(Vec::new()));
    assert_eq!(normalize_relative_path(b"./a/b/../.."), Ok(Vec::new()));
}

#[test]
fn normalize_drops_separators_that_add_nothing() {
    assert_eq!(normalize_relative_path(b"a//b/"), Ok(b"a/b".to_vec()));
    assert_eq!(normalize_relative_path(b"./a"), Ok(b"a".to_vec()));
    assert_eq!(normalize_relative_path(b"a/b/c"), Ok(b"a/b/c".to_vec()));
}

#[test]
fn normalize_keeps_dotted_names() {
    assert_eq!(normalize_relative_path(b".git/..a/..."), Ok(b".git/..a/...".to_vec()));
    assert_eq!(normalize_relative_path(b"a/.../.."), Ok(b"a".to_vec()));
}

#[test]
fn normalize_keeps_bytes_that_are_not_text() {
    assert_eq!(normalize_relative_path(b"a/\xff\xfe/./b"), Ok(b"a/\xff\xfe/b".to_vec()));
}

#[test]
fn normalize_of_a_normal_form_changes_nothing() {
    for path in [&b"a/./b/../c"[..], b"x//y/z/..", b"./k", b"one/two/three"] {
        let once = normalize_relative_path(path).unwrap();
        assert_eq!(normalize_relative_path(&once), Ok(once.clone()));
        let parts = components(&once);
        assert!(parts.iter().all(|part| matches!(part, Component::Normal(_))));
    }
}

#[test]
fn normalize_a_name_and_its_parent_cancel() {
    assert_eq!(normalize_relative_path(b"a/x/../b"), normalize_relative_path(b"a/b"));
    assert_eq!(normalize_relative_path(b"a/./b"), normalize_relative_path(b"a/b"));
}

#[test]
fn normalize_components_takes_them_in_order() {
    let parts = vec![name("a"), Component::CurDir, name("b"), Component::ParentDir, name("c")];
    assert_eq!(normalize_components(&parts), Ok(vec![b"a".to_vec(), b"c".to_vec()]));
    assert_eq!(normalize_components(&[]), Err(PathFault::NotRelative));
    assert_eq!(normalize_components(&[Component::RootDir]), Err(PathFault::NotRelative));
    assert_eq!(normalize_components(&[Component::ParentDir]), Err(PathFault::EscapesStart));
    assert_eq!(normalize_components(&[Component::CurDir]), Ok(Vec::new()));
}

#[test]
fn normalize_components_first_fault_decides() {
    let root_later = vec![Component::ParentDir, Component::RootDir];
    assert_eq!(normalize_components(&root_later), Err(PathFault::EscapesStart));
    let root_first = vec![name("a"), Component::RootDir, Component::ParentDir];
    assert_eq!(normalize_components(&root_first), Err(PathFault::NotRelative));
}

#[test]
fn join_names_puts_separators_between() {
    assert_eq!(join_names(&[]), Vec::<u8>::new());
    assert_eq!(join_names(&[b"a".to_vec()]), b"a".to_vec());
    assert_eq!(join_names(&[b"a".to_vec(), b"bc".to_vec(), b"d".to_vec()]), b"a/bc/d".to_vec());
}

#[test]
fn subdir_of_itself_is_none() {
    assert_eq!(repo_subdir(b"/repo", b"/repo", None), None);
    assert_eq!(repo_subdir(b"", b"", None), None);
    assert_eq!(repo_subdir(b"rel/dir", b"rel/dir", None), None);
    assert_eq!(repo_subdir(b"/repo", b"/repo", Some((b"/real", b"/real/sub"))), None);
}

#[test]
fn subdir_of_the_same_path_written_otherwise_is_none() {
    assert_eq!(repo_subdir(b"/repo", b"/repo/", None), None);
    assert_eq!(repo_subdir(b"/repo/", b"/repo", None), None);
    assert_eq!(repo_subdir(b"/repo", b"/repo/.", None), None);
    assert_eq!(repo_subdir(b"/a//b", b"/a/b", Some((b"/x", b"/x/y"))), None);
}

#[test]
fn subdir_below_the_root() {
    assert_eq!(repo_subdir(b"/repo", b"/repo/sub/dir", None), Some(b"sub/dir".to_vec()));
    assert_eq!(repo_subdir(b"/repo/", b"/repo//sub/dir/", None), Some(b"sub/dir".to_vec()));
    assert_eq!(repo_subdir(b"/", b"/a", None), Some(b"a".to_vec()));
}

#[test]
fn subdir_outside_the_root_is_none() {
    assert_eq!(repo_subdir(b"/repo", b"/other", None), None);
    assert_eq!(repo_subdir(b"/repo/sub", b"/repo", None), None);
    assert_eq!(repo_subdir(b"/repo", b"repo/sub", None), None);
}

#[test]
fn subdir_goes_by_whole_components() {
    assert_eq!(repo_subdir(b"/repo", b"/repository/sub", None), None);
    assert_eq!(strip_prefix(b"/repository", b"/repo"), None);
}

#[test]
fn subdir_asks_the_canonical_paths_last() {
    assert_eq!(
        repo_subdir(b"/link", b"/real/sub", Some((b"/real", b"/real/sub"))),
        Some(b"sub".to_vec())
    );
    assert_eq!(repo_subdir(b"/link", b"/real", Some((b"/real", b"/real"))), None);
    assert_eq!(repo_subdir(b"/link", b"/real/sub", Some((b"/real", b"/else"))), None);
    assert_eq!(repo_subdir(b"/link", b"/real/sub", None), None);
}

#[test]
fn subdir_prefers_the_texts_as_they_stand() {
    assert_eq!(
        repo_subdir(b"/repo", b"/repo/a", Some((b"/real", b"/real/b"))),
        Some(b"a".to_vec())
    );
}

#[test]
fn canonical_paths_are_needed_only_without_a_direct_answer() {
    assert!(!needs_canonical_paths(b"/repo", b"/repo"));
    assert!(!needs_canonical_paths(b"/repo", b"/repo/sub"));
    assert!(needs_canonical_paths(b"/repo", b"/other"));
    assert!(needs_canonical_paths(b"/repo/sub", b"/repo"));
}

#[test]
fn direct_subdir_is_never_empty() {
    assert_eq!(direct_repo_subdir(b"/repo", b"/repo"), None);
    assert_eq!(direct_repo_subdir(b"/repo", b"/repo/"), None);
    assert_eq!(direct_repo_subdir(b"/repo", b"/repo/x"), Some(b"x".to_vec()));
}

#[test]
fn strip_prefix_returns_what_follows() {
    assert_eq!(strip_prefix(b"/repo/sub/dir", b"/repo"), Some(b"sub/dir".to_vec()));
    assert_eq!(strip_prefix(b"/repo", b"/repo"), Some(Vec::new()));
    assert_eq!(strip_prefix(b"a/b", b""), Some(b"a/b".to_vec()));
    assert_eq!(strip_prefix(b"a/../b", b"a"), Some(b"../b".to_vec()));
    assert_eq!(strip_prefix(b"a", b"a/b"), None);
    assert_eq!(strip_prefix(b"a/b", b"/a"), None);
}

#[test]
fn paths_equal_compares_components() {
    assert!(paths_equal(b"/a/b", b"/a//b/"));
    assert!(paths_equal(b"a/./b", b"a/b"));
    assert!(!paths_equal(b"./a", b"a"));
    assert!(!paths_equal(b"/a", b"a"));
    assert!(!paths_equal(b"a/b", b"a/c"));
    assert!(!paths_equal(b"a/b", b"a"));
}

#[test]
fn non_empty_path_drops_the_empty_path() {
    assert_eq!(non_empty_path(b""), None);
    assert_eq!(non_empty_path(b"a"), Some(b"a".to_vec()));
    assert_eq!(non_empty_path(b"/"), Some(b"/".to_vec()));
}

#[test]
fn apply_prefix_to_no_paths_gives_none() {
    assert_eq!(apply_repo_prefix_to_force_include(None, &[]), Vec::<Vec<u8>>::new());
    assert_eq!(apply_repo_prefix_to_force_include(Some(b"pre"), &[]), Vec::<Vec<u8>>::new());
    assert_eq!(apply_repo_prefix_to_force_include(Some(b""), &[]), Vec::<Vec<u8>>::new());
}

#[test]
fn apply_prefix_joins_each_path_in_order() {
    let paths = vec![b"a".to_vec(), b"b/c".to_vec()];
    assert_eq!(
        apply_repo_prefix_to_force_include(Some(b"pre"), &paths),
        vec![b"pre/a".to_vec(), b"pre/b/c".to_vec()]
    );
}

#[test]
fn apply_prefix_without_a_prefix_copies() {
    let paths = vec![b"a".to_vec(), b"/abs".to_vec(), Vec::new(), b"b/c".to_vec()];
    assert_eq!(apply_repo_prefix_to_force_include(None, &paths), paths);
}

#[test]
fn apply_prefix_leaves_absolute_paths() {
    let paths = vec![b"/abs/x".to_vec(), b"rel".to_vec()];
    assert_eq!(
        apply_repo_prefix_to_force_include(Some(b"pre/fix"), &paths),
        vec![b"/abs/x".to_vec(), b"pre/fix/rel".to_vec()]
    );
}

#[test]
fn join_path_adds_a_separator_where_one_is_missing() {
    assert_eq!(join_path(b"pre", b"a"), b"pre/a".to_vec());
    assert_eq!(join_path(b"pre/", b"a"), b"pre/a".to_vec());
    assert_eq!(join_path(b"", b"a"), b"a".to_vec());
    assert_eq!(join_path(b"/", b"a"), b"/a".to_vec());
    assert_eq!(join_path(b"pre", b""), b"pre/".to_vec());
    assert_eq!(join_path(b"pre", b"/abs"), b"/abs".to_vec());
    assert_eq!(join_path(b"", b""), Vec::<u8>::new());
}
