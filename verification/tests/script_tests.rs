use workhorse::dict::StrDict;
use workhorse::errors::ErrorKind;
use workhorse::script::{DirProbe, ExecutionStatus, ProcessOutcome, ScriptExecutor};

fn good_dir() -> DirProbe {
    DirProbe { exists: true, is_dir: true }
}

fn temp_dir_string() -> (tempfile::TempDir, String) {
    let td = tempfile::tempdir().unwrap();
    let path = td.path().to_string_lossy().to_string();
    (td, path)
}

fn run_script(request: &workhorse::script::RunRequest) -> ProcessOutcome {
    let rt = tokio::runtime::Runtime::new().unwrap();
    rt.block_on(async {
        let dir = std::path::Path::new(request.working_directory.as_str());
        let file = dir.join(request.temp_file_name.as_str());
        tokio::fs::write(&file, request.script_content.as_str())
            .await
            .unwrap();
        let mut cmd = tokio::process::Command::new("sh");
        cmd.arg(&file).current_dir(dir);
        for (k, v) in request.environment.items() {
            cmd.env(k, v);
        }
        let output = cmd.output().await.unwrap();
        let _ = tokio::fs::remove_file(&file).await;
        ProcessOutcome {
            success: output.status.success(),
            exit_code: output.status.code(),
            stdout: String::from_utf8_lossy(&output.stdout).to_string(),
            stderr: String::from_utf8_lossy(&output.stderr).to_string(),
        }
    })
}

#[test]
fn test_script_validation() {
    let executor = ScriptExecutor::new();

    assert!(executor.validate_script("echo 'Hello World'").is_ok());

    assert!(executor.validate_script("rm -rf /").is_err());
    assert!(executor.validate_script("sudo rm -rf *").is_err());
}

#[test]
fn test_simple_script_execution() {
    let mut executor = ScriptExecutor::new();
    let (_td, working_dir) = temp_dir_string();

    let execution_id = executor
        .create_execution("echo 'test output'".to_string(), working_dir, None, good_dir())
        .unwrap();

    let request = executor.begin_execution(execution_id, 1_000).unwrap();
    let outcome = run_script(&request);
    let result = executor.finish_execution(execution_id, outcome, 1_500).unwrap();

    assert!(result.success);
    assert!(result.stdout.contains("test output"));
}

#[test]
fn test_script_with_environment() {
    let mut executor = ScriptExecutor::new();
    let (_td, working_dir) = temp_dir_string();

    let mut env = StrDict::new();
    env.insert("TEST_VAR".to_string(), "test_value".to_string());

    let execution_id = executor
        .create_execution("echo $TEST_VAR".to_string(), working_dir, Some(env), good_dir())
        .unwrap();

    let request = executor.begin_execution(execution_id, 2_000).unwrap();
    let outcome = run_script(&request);
    let result = executor.finish_execution(execution_id, outcome, 2_500).unwrap();

    assert!(result.success);
    assert!(result.stdout.contains("test_value"));
}

#[test]
fn denied_script_is_rejected_without_any_record() {
    let mut executor = ScriptExecutor::new();

    let e = executor
        .create_execution("dd if=/dev/zero".to_string(), "/tmp".to_string(), None, good_dir())
        .unwrap_err();
    assert_eq!(e.kind, ErrorKind::Validation);
    assert_eq!(executor.get_all_executions().len(), 0);

    let e = executor
        .create_execution("mkfs.ext4 /dev/sda".to_string(), "/tmp".to_string(), None, good_dir())
        .unwrap_err();
    assert_eq!(e.kind, ErrorKind::Validation);
    assert_eq!(executor.get_all_executions().len(), 0);
}

#[test]
fn oversized_script_is_rejected() {
    let mut executor = ScriptExecutor::new();
    let long = "x".repeat(10_001);
    let e = executor
        .create_execution(long, "/tmp".to_string(), None, good_dir())
        .unwrap_err();
    assert_eq!(e.kind, ErrorKind::Validation);

    let exactly = "x".repeat(10_000);
    assert!(executor
        .create_execution(exactly, "/tmp".to_string(), None, good_dir())
        .is_ok());
}

#[test]
fn invalid_working_directory_is_rejected() {
    let mut executor = ScriptExecutor::new();
    let e = executor
        .create_execution(
            "echo hi".to_string(),
            "/nowhere".to_string(),
            None,
            DirProbe { exists: false, is_dir: false },
        )
        .unwrap_err();
    assert_eq!(e.kind, ErrorKind::Validation);
}

#[test]
fn running_cap_is_enforced_at_execution_time() {
    let mut executor = ScriptExecutor::new();
    let mut ids = Vec::new();
    for i in 0..6 {
        let id = executor
            .create_execution(format!("echo {}", i), "/tmp".to_string(), None, good_dir())
            .unwrap();
        ids.push(id);
    }
    // Admission always succeeds: the cap bounds running scripts, not pending.
    assert_eq!(executor.get_all_executions().len(), 6);

    for id in &ids[..5] {
        assert!(executor.begin_execution(*id, 10).is_ok());
    }
    let e = executor.begin_execution(ids[5], 10).unwrap_err();
    assert_eq!(e.kind, ErrorKind::ResourceExhausted);

    // Finishing one frees a slot.
    let outcome = ProcessOutcome {
        success: true,
        exit_code: Some(0),
        stdout: String::new(),
        stderr: String::new(),
    };
    executor.finish_execution(ids[0], outcome, 20).unwrap();
    assert!(executor.begin_execution(ids[5], 30).is_ok());
}

#[test]
fn cancel_is_a_flag_only_lifecycle_change() {
    let mut executor = ScriptExecutor::new();
    let id = executor
        .create_execution("echo hi".to_string(), "/tmp".to_string(), None, good_dir())
        .unwrap();

    executor.cancel_execution(id, 50).unwrap();
    let record = executor.get_execution_status(id).unwrap();
    assert!(matches!(record.status, ExecutionStatus::Cancelled));
    assert_eq!(record.end_time, Some(50));

    // Terminal states are final: cancelling again is a conflict.
    let e = executor.cancel_execution(id, 60).unwrap_err();
    assert_eq!(e.kind, ErrorKind::Conflict);
}

#[test]
fn finish_after_cancel_leaves_the_record_cancelled() {
    let mut executor = ScriptExecutor::new();
    let id = executor
        .create_execution("echo hi".to_string(), "/tmp".to_string(), None, good_dir())
        .unwrap();
    executor.begin_execution(id, 100).unwrap();
    executor.cancel_execution(id, 110).unwrap();

    let outcome = ProcessOutcome {
        success: true,
        exit_code: Some(0),
        stdout: "late".to_string(),
        stderr: String::new(),
    };
    let result = executor.finish_execution(id, outcome, 120).unwrap();
    assert!(result.success);
    let record = executor.get_execution_status(id).unwrap();
    assert!(matches!(record.status, ExecutionStatus::Cancelled));
}

#[test]
fn unknown_execution_is_not_found() {
    let mut executor = ScriptExecutor::new();
    let e = executor.begin_execution(99, 0).unwrap_err();
    assert_eq!(e.kind, ErrorKind::NotFound);
    assert!(executor.get_execution_status(99).is_none());
}

#[test]
fn cleanup_keeps_the_most_recently_ended_records() {
    let mut executor = ScriptExecutor::new();
    let mut ids = Vec::new();
    for i in 0..4 {
        let id = executor
            .create_execution(format!("echo {}", i), "/tmp".to_string(), None, good_dir())
            .unwrap();
        ids.push(id);
    }
    // End them at increasing times.
    for (k, id) in ids.iter().enumerate() {
        executor.begin_execution(*id, 100 + k as u64).unwrap();
        let outcome = ProcessOutcome {
            success: true,
            exit_code: Some(0),
            stdout: String::new(),
            stderr: String::new(),
        };
        executor
            .finish_execution(*id, outcome, 200 + 10 * k as u64)
            .unwrap();
    }
    executor.cleanup_completed_executions(2);
    let left = executor.get_all_executions();
    assert_eq!(left.len(), 2);
    // The two latest-ended records survive.
    assert!(left.iter().any(|e| e.id == ids[2]));
    assert!(left.iter().any(|e| e.id == ids[3]));
}

#[test]
fn temp_file_name_is_derived_from_the_id() {
    let mut executor = ScriptExecutor::new();
    let id = executor
        .create_execution("echo hi".to_string(), "/tmp".to_string(), None, good_dir())
        .unwrap();
    let request = executor.begin_execution(id, 0).unwrap();
    assert_eq!(request.temp_file_name, format!("temp_script_{}.sh", id));
}
