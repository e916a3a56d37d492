use workhorse::errors::ErrorKind;
use workhorse::script::{DirProbe, ProcessOutcome};
use workhorse::terminal::{
    command_output_record, validate_command, CommandExecution, OutputType, TerminalOutput,
    TerminalService, TerminalStatus,
};

fn good_dir() -> DirProbe {
    DirProbe { exists: true, is_dir: true }
}

fn start(service: &mut TerminalService, id: u64, now: u64) {
    // The caller would spawn the shell the request describes; the registry
    // commits the start once the spawn succeeded.
    let _request = service.prepare_start(id).unwrap();
    service.complete_start(id, now).unwrap();
}

#[test]
fn test_create_terminal() {
    let mut service = TerminalService::new();

    let terminal_id = service
        .create_terminal(
            Some("Test Terminal".to_string()),
            "/tmp".to_string(),
            None,
            good_dir(),
            1_000,
        )
        .unwrap();

    let session = service.get_terminal_session(terminal_id).unwrap();
    assert_eq!(session.name, "Test Terminal");
    assert_eq!(session.status, TerminalStatus::Inactive);
}

#[test]
fn test_execute_command() {
    let execution = CommandExecution {
        command: "echo".to_string(),
        args: vec!["Hello World".to_string()],
        working_directory: "/tmp".to_string(),
        environment: workhorse::dict::StrDict::new(),
    };
    validate_command(&execution, good_dir()).unwrap();

    let rt = tokio::runtime::Runtime::new().unwrap();
    let outcome = rt.block_on(async {
        let mut cmd = tokio::process::Command::new(execution.command.as_str());
        for a in &execution.args {
            cmd.arg(a);
        }
        cmd.current_dir(execution.working_directory.as_str());
        let output = cmd.output().await.unwrap();
        ProcessOutcome {
            success: output.status.success(),
            exit_code: output.status.code(),
            stdout: String::from_utf8_lossy(&output.stdout).to_string(),
            stderr: String::from_utf8_lossy(&output.stderr).to_string(),
        }
    });
    let output = command_output_record(outcome, 5_000);
    assert!(output.content.contains("Hello World"));
}

#[test]
fn test_terminal_lifecycle() {
    let mut service = TerminalService::new();

    let terminal_id = service
        .create_terminal(None, "/tmp".to_string(), None, good_dir(), 1_000)
        .unwrap();

    start(&mut service, terminal_id, 1_100);

    let session = service.get_terminal_session(terminal_id).unwrap();
    assert_eq!(session.status, TerminalStatus::Active);

    service.close_terminal(terminal_id, 1_200).unwrap();

    let session = service.get_terminal_session(terminal_id).unwrap();
    assert_eq!(session.status, TerminalStatus::Closed);
}

#[test]
fn close_terminal_is_idempotent() {
    let mut service = TerminalService::new();
    let id = service
        .create_terminal(None, "/tmp".to_string(), None, good_dir(), 0)
        .unwrap();
    start(&mut service, id, 10);

    let first = service.close_terminal(id, 20).unwrap();
    assert!(first.kill_process);
    assert_eq!(
        service.get_terminal_session(id).unwrap().status,
        TerminalStatus::Closed
    );

    let second = service.close_terminal(id, 30).unwrap();
    assert!(!second.kill_process);
    assert_eq!(
        service.get_terminal_session(id).unwrap().status,
        TerminalStatus::Closed
    );
}

#[test]
fn terminal_cap_counts_all_tracked_sessions() {
    let mut service = TerminalService::new();
    for _ in 0..10 {
        service
            .create_terminal(None, "/tmp".to_string(), None, good_dir(), 0)
            .unwrap();
    }
    let e = service
        .create_terminal(None, "/tmp".to_string(), None, good_dir(), 0)
        .unwrap_err();
    assert_eq!(e.kind, ErrorKind::ResourceExhausted);

    // A closed session still counts until cleaned up.
    let first = service.get_all_terminals()[0].id;
    service.close_terminal(first, 5).unwrap();
    let e = service
        .create_terminal(None, "/tmp".to_string(), None, good_dir(), 6)
        .unwrap_err();
    assert_eq!(e.kind, ErrorKind::ResourceExhausted);

    service.cleanup_closed_terminals();
    assert!(service
        .create_terminal(None, "/tmp".to_string(), None, good_dir(), 7)
        .is_ok());
}

#[test]
fn send_command_echoes_into_history_and_returns_the_line() {
    let mut service = TerminalService::new();
    let id = service
        .create_terminal(None, "/tmp".to_string(), None, good_dir(), 0)
        .unwrap();

    // Sending to a session that is not active is a conflict.
    let e = service.send_command(id, "ls", 1).unwrap_err();
    assert_eq!(e.kind, ErrorKind::Conflict);

    start(&mut service, id, 2);
    let line = service.send_command(id, "ls", 3).unwrap();
    assert_eq!(line, "ls\n");

    let history = service.get_terminal_history(id).unwrap();
    let last = history.last().unwrap();
    assert_eq!(last.content, "ls");
    assert_eq!(last.output_type, OutputType::Input);
}

#[test]
fn poll_output_drains_each_record_exactly_once_in_send_order() {
    let mut service = TerminalService::new();
    let id = service
        .create_terminal(None, "/tmp".to_string(), None, good_dir(), 0)
        .unwrap();
    start(&mut service, id, 1);

    // What the output pumps would push after the shell printed two lines.
    service
        .push_output(
            id,
            TerminalOutput {
                timestamp: 10,
                content: "one".to_string(),
                output_type: OutputType::Stdout,
            },
        )
        .unwrap();
    service
        .push_output(
            id,
            TerminalOutput {
                timestamp: 11,
                content: "two".to_string(),
                output_type: OutputType::Stderr,
            },
        )
        .unwrap();

    let drained = service.get_terminal_output(id, 12).unwrap();
    assert_eq!(drained.len(), 2);
    assert_eq!(drained[0].content, "one");
    assert_eq!(drained[1].content, "two");

    // Drained once: a second poll returns nothing new, without blocking.
    let again = service.get_terminal_output(id, 13).unwrap();
    assert!(again.is_empty());

    // But the history retains them.
    let history = service.get_terminal_history(id).unwrap();
    assert_eq!(history.last().unwrap().content, "two");
}

#[test]
fn interactive_session_keeps_input_and_output_in_send_order() {
    let mut service = TerminalService::new();
    let id = service
        .create_terminal(None, "/tmp".to_string(), None, good_dir(), 0)
        .unwrap();
    start(&mut service, id, 1);

    let line = service.send_command(id, "echo ready", 2).unwrap();
    assert_eq!(line, "echo ready\n");

    // The shell answers; the stdout pump hands the line over.
    service
        .push_output(
            id,
            TerminalOutput {
                timestamp: 3,
                content: "ready".to_string(),
                output_type: OutputType::Stdout,
            },
        )
        .unwrap();

    // Poll until the answer appears.
    let mut seen = false;
    for now in 4..8 {
        let drained = service.get_terminal_output(id, now).unwrap();
        if drained
            .iter()
            .any(|o| o.output_type == OutputType::Stdout && o.content.contains("ready"))
        {
            seen = true;
            break;
        }
    }
    assert!(seen);

    // History holds the input record and then the stdout record.
    let history = service.get_terminal_history(id).unwrap();
    let input_pos = history
        .iter()
        .position(|o| o.output_type == OutputType::Input && o.content == "echo ready")
        .unwrap();
    let stdout_pos = history
        .iter()
        .position(|o| o.output_type == OutputType::Stdout && o.content == "ready")
        .unwrap();
    assert!(input_pos < stdout_pos);
}

#[test]
fn history_evicts_the_oldest_hundred_in_one_batch() {
    let mut service = TerminalService::new();
    let id = service
        .create_terminal(None, "/tmp".to_string(), None, good_dir(), 0)
        .unwrap();
    start(&mut service, id, 1);
    // History now holds 1 system record.

    // Queue 1005 records, then drain them into history at once.
    for k in 0..1005u64 {
        service
            .push_output(
                id,
                TerminalOutput {
                    timestamp: 100 + k,
                    content: format!("line {}", k),
                    output_type: OutputType::Stdout,
                },
            )
            .unwrap();
    }
    let drained = service.get_terminal_output(id, 2_000).unwrap();
    assert_eq!(drained.len(), 1005);

    // 1 + 1005 = 1006 exceeds the cap of 1000: exactly the oldest 100 leave.
    let history = service.get_terminal_history(id).unwrap();
    assert_eq!(history.len(), 906);
    // The system record and the first 99 lines are gone; `line 99` leads.
    assert_eq!(history[0].content, "line 99");
    assert_eq!(history.last().unwrap().content, "line 1004");

    // Under the cap nothing is evicted: never a partial batch.
    service.send_command(id, "more", 3_000).unwrap();
    let history = service.get_terminal_history(id).unwrap();
    assert_eq!(history.len(), 907);
}

#[test]
fn rename_is_a_plain_metadata_edit() {
    let mut service = TerminalService::new();
    let id = service
        .create_terminal(None, "/tmp".to_string(), None, good_dir(), 0)
        .unwrap();
    service.set_terminal_name(id, "build shell".to_string(), 5).unwrap();
    let session = service.get_terminal_session(id).unwrap();
    assert_eq!(session.name, "build shell");
    assert_eq!(session.last_activity, 5);

    let e = service
        .set_terminal_name(77, "nope".to_string(), 6)
        .unwrap_err();
    assert_eq!(e.kind, ErrorKind::NotFound);
}

#[test]
fn failed_command_reports_its_standard_error() {
    let outcome = ProcessOutcome {
        success: false,
        exit_code: Some(2),
        stdout: "ignored".to_string(),
        stderr: "boom".to_string(),
    };
    let record = command_output_record(outcome, 9);
    assert_eq!(record.output_type, OutputType::Stderr);
    assert_eq!(record.content, "boom");
    assert_eq!(record.timestamp, 9);
}
