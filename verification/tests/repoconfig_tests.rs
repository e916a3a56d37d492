use workhorse::dict::StrDict;
use workhorse::errors::ErrorKind;
use workhorse::repoconfig::{
    AddRepositoryRequest, ManagedProbe, RepoPathProbe, RepositoryManagerService, RepositoryScript,
};

fn valid_probe() -> RepoPathProbe {
    RepoPathProbe { exists: true, is_dir: true, is_git_repository: true, has_workhorse_dir: false }
}

fn script(name: &str, command: &str) -> RepositoryScript {
    RepositoryScript {
        name: name.to_string(),
        command: command.to_string(),
        description: None,
        working_directory: None,
        env_vars: StrDict::new(),
    }
}

#[test]
fn test_validate_repository() {
    // A path that does not exist.
    let result = RepositoryManagerService::validate_repository(RepoPathProbe {
        exists: false,
        is_dir: false,
        is_git_repository: false,
        has_workhorse_dir: false,
    });
    assert!(!result.is_valid);
    assert!(!result.path_exists);

    // A valid repository.
    let result = RepositoryManagerService::validate_repository(valid_probe());
    assert!(result.is_valid);
    assert!(result.path_exists);
    assert!(result.is_git_repo);
    assert!(!result.has_workhorse_dir);
}

#[test]
fn test_add_repository() {
    let request = AddRepositoryRequest {
        path: "/repos/test-repo".to_string(),
        name: Some("test-repo".to_string()),
        default_branch: Some("main".to_string()),
        auto_fetch: true,
        auto_prune: false,
    };

    let config = RepositoryManagerService::add_repository(request, valid_probe(), None, 1_000)
        .unwrap();

    assert_eq!(config.name, "test-repo");
    assert_eq!(config.path, "/repos/test-repo");
    assert_eq!(config.default_branch, Some("main".to_string()));
    assert!(config.auto_fetch);
    assert!(!config.auto_prune);
    assert!(config.scripts.is_empty());
}

#[test]
fn test_is_managed_repository() {
    assert!(!RepositoryManagerService::is_managed_repository(ManagedProbe {
        workhorse_dir_exists: false,
        config_file_exists: false,
    }));

    assert!(RepositoryManagerService::is_managed_repository(ManagedProbe {
        workhorse_dir_exists: true,
        config_file_exists: true,
    }));

    assert!(!RepositoryManagerService::is_managed_repository(ManagedProbe {
        workhorse_dir_exists: true,
        config_file_exists: false,
    }));
}

#[test]
fn repository_name_defaults_to_the_final_path_component() {
    let request = AddRepositoryRequest {
        path: "/repos/my-project".to_string(),
        name: None,
        default_branch: None,
        auto_fetch: false,
        auto_prune: false,
    };
    let config = RepositoryManagerService::add_repository(
        request,
        valid_probe(),
        Some("develop".to_string()),
        2_000,
    )
    .unwrap();
    assert_eq!(config.name, "my-project");
    // No branch given: the backend's current branch wins.
    assert_eq!(config.default_branch, Some("develop".to_string()));
    assert_eq!(config.workhorse_dir, "/repos/my-project/.workhorse");
}

#[test]
fn invalid_repository_is_rejected() {
    let request = AddRepositoryRequest {
        path: "/nowhere".to_string(),
        name: None,
        default_branch: None,
        auto_fetch: false,
        auto_prune: false,
    };
    let e = RepositoryManagerService::add_repository(
        request,
        RepoPathProbe {
            exists: true,
            is_dir: true,
            is_git_repository: false,
            has_workhorse_dir: false,
        },
        None,
        0,
    )
    .unwrap_err();
    assert_eq!(e.kind, ErrorKind::Validation);
}

#[test]
fn script_names_are_unique_per_repository() {
    let request = AddRepositoryRequest {
        path: "/repos/r".to_string(),
        name: None,
        default_branch: None,
        auto_fetch: false,
        auto_prune: false,
    };
    let mut config =
        RepositoryManagerService::add_repository(request, valid_probe(), None, 0).unwrap();

    RepositoryManagerService::add_script(&mut config, script("build", "make"), 10).unwrap();
    let e = RepositoryManagerService::add_script(&mut config, script("build", "make -j"), 20)
        .unwrap_err();
    assert_eq!(e.kind, ErrorKind::Validation);
    assert_eq!(config.scripts.len(), 1);

    RepositoryManagerService::add_script(&mut config, script("test", "make test"), 30).unwrap();
    let names: Vec<String> = RepositoryManagerService::get_scripts(&config)
        .into_iter()
        .map(|s| s.name)
        .collect();
    assert_eq!(names, vec!["build".to_string(), "test".to_string()]);

    RepositoryManagerService::remove_script(&mut config, "build", 40).unwrap();
    assert_eq!(config.scripts.len(), 1);
    assert_eq!(config.scripts[0].name, "test");

    let e = RepositoryManagerService::remove_script(&mut config, "build", 50).unwrap_err();
    assert_eq!(e.kind, ErrorKind::NotFound);
}

#[test]
fn management_directories_have_a_fixed_layout() {
    assert_eq!(
        RepositoryManagerService::get_workspaces_dir("/r"),
        "/r/.workhorse/workspaces"
    );
    assert_eq!(RepositoryManagerService::get_configs_dir("/r"), "/r/.workhorse/configs");
    assert_eq!(RepositoryManagerService::get_scripts_dir("/r"), "/r/.workhorse/scripts");
    assert_eq!(RepositoryManagerService::get_logs_dir("/r"), "/r/.workhorse/logs");
    assert_eq!(RepositoryManagerService::get_temp_dir("/r"), "/r/.workhorse/temp");
}
