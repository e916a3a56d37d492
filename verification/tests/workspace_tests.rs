use workhorse::errors::ErrorKind;
use workhorse::workspace::{
    ArchiveWorkspaceRequest, CreateWorkspaceRequest, PathProbe, RepoProbe,
    WorkspaceManagerService, WorkspaceStatus,
};

fn managed_repo() -> RepoProbe {
    RepoProbe { is_managed: true, is_git_repository: true }
}

fn healthy_path() -> PathProbe {
    PathProbe { exists: true, is_git_repository: true }
}

fn request(name: &str, repo: &str, branch: Option<&str>, tags: Vec<&str>) -> CreateWorkspaceRequest {
    CreateWorkspaceRequest {
        name: name.to_string(),
        repository_path: repo.to_string(),
        branch: branch.map(|b| b.to_string()),
        description: None,
        tags: tags.into_iter().map(|t| t.to_string()).collect(),
        base_path: None,
    }
}

/// Creates a workspace the way a caller would: plan, check the target, have
/// the backend create the working tree, then commit.
fn create(
    manager: &mut WorkspaceManagerService,
    repo: &str,
    req: CreateWorkspaceRequest,
    now: u64,
) -> u64 {
    let plan = manager
        .plan_create_workspace(repo, &req, managed_repo())
        .unwrap();
    WorkspaceManagerService::check_target_path(false).unwrap();
    let metadata = manager.commit_create_workspace(repo, req, now).unwrap();
    assert_eq!(metadata.id, plan.workspace_id);
    metadata.id
}

#[test]
fn test_create_workspace() {
    let mut manager = WorkspaceManagerService::new();
    let repo = "/repos/test-repo";

    let req = CreateWorkspaceRequest {
        name: "test-workspace".to_string(),
        repository_path: repo.to_string(),
        branch: Some("main".to_string()),
        description: Some("Test workspace".to_string()),
        tags: vec!["test".to_string(), "feature".to_string()],
        base_path: None,
    };

    let plan = manager
        .plan_create_workspace(repo, &req, managed_repo())
        .unwrap();
    assert_eq!(plan.workspace_path, "/repos/test-repo-test-workspace");
    assert_eq!(plan.worktree_name, format!("ws-{:08}", plan.workspace_id));

    let metadata = manager.commit_create_workspace(repo, req, 1_000).unwrap();
    assert_eq!(metadata.name, "test-workspace");
    assert_eq!(metadata.status, WorkspaceStatus::Active);
    assert_eq!(metadata.tags.len(), 2);
}

#[test]
fn test_archive_and_restore_workspace() {
    let mut manager = WorkspaceManagerService::new();
    let repo = "/repos/test-repo";

    let workspace_id = create(
        &mut manager,
        repo,
        request("test-workspace", repo, None, Vec::new()),
        1_000,
    );

    let archive_request = ArchiveWorkspaceRequest {
        workspace_id,
        keep_files: false,
        archive_reason: Some("Test archive".to_string()),
    };

    // Files are not kept and the directory exists: the plan removes it.
    let plan = manager
        .plan_archive(archive_request.workspace_id, archive_request.keep_files, true)
        .unwrap();
    assert!(plan.remove_files);

    let archived = manager
        .commit_archive(archive_request.workspace_id, archive_request.archive_reason, 2_000)
        .unwrap();
    assert_eq!(archived.status, WorkspaceStatus::Archived);
    assert!(archived.archived_at.is_some());
    assert_eq!(
        archived.custom_fields.get(&"archive_reason".to_string()).unwrap(),
        "Test archive"
    );

    // The directory is gone, so restoring recreates the working tree.
    let plan = manager.plan_restore(workspace_id, false).unwrap();
    assert!(plan.recreate);

    let restored = manager.commit_restore(workspace_id, 3_000).unwrap();
    assert_eq!(restored.status, WorkspaceStatus::Active);
    assert!(restored.archived_at.is_none());
    assert!(restored.custom_fields.get(&"archive_reason".to_string()).is_none());
}

#[test]
fn test_workspace_tags() {
    let mut manager = WorkspaceManagerService::new();
    let repo = "/repos/test-repo";

    let workspace_id = create(
        &mut manager,
        repo,
        request("test-workspace", repo, None, vec!["initial"]),
        1_000,
    );

    let updated = manager
        .add_workspace_tag(workspace_id, "feature".to_string(), 1_100)
        .unwrap();
    assert!(updated.tags.contains(&"feature".to_string()));

    let updated = manager
        .remove_workspace_tag(workspace_id, "initial".to_string(), 1_200)
        .unwrap();
    assert!(!updated.tags.contains(&"initial".to_string()));
}

#[test]
fn archiving_twice_is_a_conflict_and_restore_needs_an_archive() {
    let mut manager = WorkspaceManagerService::new();
    let repo = "/repos/r";
    let id = create(&mut manager, repo, request("w", repo, None, Vec::new()), 10);

    let e = manager.commit_restore(id, 20).unwrap_err();
    assert_eq!(e.kind, ErrorKind::Conflict);

    manager.commit_archive(id, None, 30).unwrap();
    let e = manager.commit_archive(id, None, 40).unwrap_err();
    assert_eq!(e.kind, ErrorKind::Conflict);

    let e = manager.plan_archive(99, false, false).unwrap_err();
    assert_eq!(e.kind, ErrorKind::NotFound);
}

#[test]
fn broken_workspaces_are_reconciled_and_cleaned() {
    let mut manager = WorkspaceManagerService::new();
    let repo = "/repos/r";
    let id = create(
        &mut manager,
        repo,
        request("w", repo, Some("main"), Vec::new()),
        10,
    );

    // With its working tree in place the workspace reconciles as active.
    let m = manager.update_workspace_status(id, healthy_path(), 20).unwrap();
    assert_eq!(m.status, WorkspaceStatus::Active);

    // The directory vanished out-of-band: the workspace is broken.
    let m = manager
        .update_workspace_status(id, PathProbe { exists: false, is_git_repository: false }, 30)
        .unwrap();
    assert_eq!(m.status, WorkspaceStatus::Broken);

    // Cleaning removes it and reports its id; its record is gone.
    let cleaned = manager.cleanup_broken_workspaces();
    assert_eq!(cleaned, vec![id]);
    let e = manager.load_workspace_metadata(id).unwrap_err();
    assert_eq!(e.kind, ErrorKind::NotFound);
}

#[test]
fn archived_status_is_sticky_under_reconciliation() {
    let mut manager = WorkspaceManagerService::new();
    let repo = "/repos/r";
    let id = create(&mut manager, repo, request("w", repo, None, Vec::new()), 10);
    manager.commit_archive(id, None, 20).unwrap();

    let m = manager
        .update_workspace_status(id, PathProbe { exists: false, is_git_repository: false }, 30)
        .unwrap();
    assert_eq!(m.status, WorkspaceStatus::Archived);
}

#[test]
fn custom_fields_are_like_for_like_reversible() {
    let mut manager = WorkspaceManagerService::new();
    let repo = "/repos/r";
    let id = create(&mut manager, repo, request("w", repo, None, Vec::new()), 10);

    let before = manager.load_workspace_metadata(id).unwrap();
    assert!(before.custom_fields.get(&"owner".to_string()).is_none());

    let m = manager
        .set_custom_field(id, "owner".to_string(), "me".to_string(), 20)
        .unwrap();
    assert_eq!(m.custom_fields.get(&"owner".to_string()).unwrap(), "me");

    let m = manager.remove_custom_field(id, "owner".to_string(), 30).unwrap();
    assert!(m.custom_fields.get(&"owner".to_string()).is_none());
}

#[test]
fn listing_is_sorted_by_creation_time_descending() {
    let mut manager = WorkspaceManagerService::new();
    let repo = "/repos/r";
    create(&mut manager, repo, request("old", repo, None, Vec::new()), 100);
    create(&mut manager, repo, request("mid", repo, None, Vec::new()), 200);
    create(&mut manager, repo, request("new", repo, None, Vec::new()), 300);

    let listed = manager.list_workspaces();
    assert_eq!(listed.len(), 3);
    assert_eq!(listed[0].name, "new");
    assert_eq!(listed[1].name, "mid");
    assert_eq!(listed[2].name, "old");
}

#[test]
fn filters_and_statistics_agree_with_the_records() {
    let mut manager = WorkspaceManagerService::new();
    let repo = "/repos/r";
    let a = create(
        &mut manager,
        repo,
        request("a", repo, None, vec!["keep"]),
        100,
    );
    let b = create(
        &mut manager,
        repo,
        request("b", repo, None, vec!["keep", "other"]),
        200,
    );
    let c = create(
        &mut manager,
        repo,
        request("c", repo, Some("main"), Vec::new()),
        300,
    );
    manager.commit_archive(c, None, 400).unwrap();

    let tagged = manager.find_workspaces_by_tag("keep");
    assert_eq!(tagged.len(), 2);
    assert_eq!(tagged[0].id, b);
    assert_eq!(tagged[1].id, a);

    let active = manager.find_workspaces_by_status(WorkspaceStatus::Active);
    assert_eq!(active.len(), 2);
    let archived = manager.find_workspaces_by_status(WorkspaceStatus::Archived);
    assert_eq!(archived.len(), 1);
    assert_eq!(archived[0].id, c);

    let stats = manager.get_workspace_statistics();
    assert_eq!(stats.total_count, 3);
    assert_eq!(stats.active_count, 2);
    assert_eq!(stats.archived_count, 1);
    assert_eq!(stats.broken_count, 0);
    assert_eq!(stats.oldest_workspace, Some(a));
    assert_eq!(stats.newest_workspace, Some(c));
    assert_eq!(stats.branch_counts, vec![("main".to_string(), 1)]);
    let keep = stats.tag_counts.iter().find(|e| e.0 == "keep").unwrap();
    assert_eq!(keep.1, 2);
    let other = stats.tag_counts.iter().find(|e| e.0 == "other").unwrap();
    assert_eq!(other.1, 1);
    assert_eq!(stats.tag_counts.len(), 2);

    let index = manager.workspace_index();
    assert_eq!(index.total_count, 3);
    assert_eq!(index.active_count, 2);
    assert_eq!(index.archived_count, 1);
    assert_eq!(index.workspace_ids.len(), 3);
}

#[test]
fn duplicate_workspace_paths_are_refused() {
    let mut manager = WorkspaceManagerService::new();
    let repo = "/repos/r";
    create(&mut manager, repo, request("w", repo, None, Vec::new()), 10);

    // Same repository and same name derive the same path: a conflict.
    let req = request("w", repo, None, Vec::new());
    let e = manager
        .plan_create_workspace(repo, &req, managed_repo())
        .unwrap_err();
    assert_eq!(e.kind, ErrorKind::Conflict);

    // An unmanaged repository is rejected before anything else.
    let req = request("x", repo, None, Vec::new());
    let e = manager
        .plan_create_workspace(
            repo,
            &req,
            RepoProbe { is_managed: false, is_git_repository: true },
        )
        .unwrap_err();
    assert_eq!(e.kind, ErrorKind::Validation);

    // A target path that already exists on disk is a conflict.
    let e = WorkspaceManagerService::check_target_path(true).unwrap_err();
    assert_eq!(e.kind, ErrorKind::Conflict);
}

#[test]
fn workspace_path_is_derived_beside_the_repository() {
    let req = request("feature-x", "/home/user/proj", None, Vec::new());
    let path =
        WorkspaceManagerService::determine_workspace_path("/home/user/proj", &req).unwrap();
    assert_eq!(path, "/home/user/proj-feature-x");

    let mut req = request("feature-x", "/home/user/proj", None, Vec::new());
    req.base_path = Some("/elsewhere".to_string());
    let path =
        WorkspaceManagerService::determine_workspace_path("/home/user/proj", &req).unwrap();
    assert_eq!(path, "/elsewhere/proj-feature-x");

    // A repository path with no name component is rejected.
    let req2 = request("w", "proj", None, Vec::new());
    let e = WorkspaceManagerService::determine_workspace_path("proj", &req2).unwrap_err();
    assert_eq!(e.kind, ErrorKind::Validation);
}

#[test]
fn deleting_removes_the_record_idempotently_with_missing_files() {
    let mut manager = WorkspaceManagerService::new();
    let repo = "/repos/r";
    let id = create(&mut manager, repo, request("w", repo, None, Vec::new()), 10);

    let plan = manager.plan_delete(id).unwrap();
    assert_eq!(plan.worktree_name, format!("ws-{:08}", id));
    // Whatever the filesystem looked like, the record is dropped.
    manager.commit_delete(id).unwrap();
    let e = manager.plan_delete(id).unwrap_err();
    assert_eq!(e.kind, ErrorKind::NotFound);
}

#[test]
fn access_stamps_times_only() {
    let mut manager = WorkspaceManagerService::new();
    let repo = "/repos/r";
    let id = create(&mut manager, repo, request("w", repo, None, Vec::new()), 10);
    let m = manager.access_workspace(id, 77).unwrap();
    assert_eq!(m.last_accessed_at, Some(77));
    assert_eq!(m.updated_at, 77);
    assert_eq!(m.created_at, 10);
}
