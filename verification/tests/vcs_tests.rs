use workhorse::vcs::{status_flags_to_string, GitService, StatusFlags};

fn temp_repo() -> (tempfile::TempDir, String) {
    let td = tempfile::tempdir().unwrap();
    let path = td.path().to_string_lossy().to_string();
    (td, path)
}

fn write_file(dir: &str, name: &str, content: &str) {
    let rt = tokio::runtime::Runtime::new().unwrap();
    rt.block_on(async {
        let file = std::path::Path::new(dir).join(name);
        tokio::fs::write(&file, content).await.unwrap();
    });
}

#[test]
fn test_init_repository() {
    let (_td, repo_path) = temp_repo();

    GitService::init_repository(&repo_path, false).unwrap();
    assert!(std::path::Path::new(&repo_path).join(".git").exists());
}

#[test]
fn test_is_git_repository() {
    let (_td, repo_path) = temp_repo();

    assert!(!GitService::is_git_repository(&repo_path));

    GitService::init_repository(&repo_path, false).unwrap();
    assert!(GitService::is_git_repository(&repo_path));
}

#[test]
fn test_get_repository_status() {
    let (_td, repo_path) = temp_repo();

    GitService::init_repository(&repo_path, false).unwrap();

    write_file(&repo_path, "test.txt", "test content");

    let status = GitService::get_repository_status(&repo_path).unwrap();
    assert!(status.is_dirty);
    assert!(!status.files.is_empty());
    assert_eq!(status.files[0].path, "test.txt");
}

#[test]
fn untracked_file_reports_its_status_letters() {
    let (_td, repo_path) = temp_repo();
    GitService::init_repository(&repo_path, false).unwrap();
    write_file(&repo_path, "new.txt", "hello");

    let status = GitService::get_repository_status(&repo_path).unwrap();
    let file = status
        .files
        .iter()
        .find(|f| f.path == "new.txt")
        .unwrap();
    assert!(file.is_new);
    assert!(!file.is_staged);
    assert_eq!(file.status, "??");
}

#[test]
fn clean_repository_reports_nothing() {
    let (_td, repo_path) = temp_repo();
    GitService::init_repository(&repo_path, false).unwrap();

    let status = GitService::get_repository_status(&repo_path).unwrap();
    assert!(!status.is_dirty);
    assert!(status.files.is_empty());
    // A freshly initialised repository has no commits and so no usable head.
    assert_eq!(status.current_branch, None);
    assert_eq!(status.ahead, 0);
    assert_eq!(status.behind, 0);
}

#[test]
fn status_letters_follow_the_fixed_order() {
    let none = StatusFlags {
        index_new: false,
        index_modified: false,
        index_deleted: false,
        wt_new: false,
        wt_modified: false,
        wt_deleted: false,
        ignored: false,
    };
    assert_eq!(status_flags_to_string(none), "clean");

    let staged_and_edited = StatusFlags { index_new: true, wt_modified: true, ..none };
    assert_eq!(status_flags_to_string(staged_and_edited), "AM");

    let untracked = StatusFlags { wt_new: true, ..none };
    assert_eq!(status_flags_to_string(untracked), "??");

    let everything = StatusFlags {
        index_new: true,
        index_modified: true,
        index_deleted: true,
        wt_new: true,
        wt_modified: true,
        wt_deleted: true,
        ignored: true,
    };
    assert_eq!(status_flags_to_string(everything), "AMD??MD!");
}

#[test]
fn global_gitignore_round_trips_through_the_backend() {
    // The global configuration may be missing entirely in a bare
    // environment; only exercise the read path, which must not panic.
    let _ = GitService::get_global_gitignore();
}

#[test]
fn worktrees_of_a_fresh_repository_are_empty() {
    let (_td, repo_path) = temp_repo();
    GitService::init_repository(&repo_path, false).unwrap();
    let worktrees = GitService::list_worktrees(&repo_path).unwrap();
    assert!(worktrees.is_empty());

    let branches = GitService::get_branches(&repo_path).unwrap();
    assert!(branches.is_empty());
}
