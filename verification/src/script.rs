use vstd::prelude::*;

use crate::dict::StrDict;
use crate::errors::{ErrorKind, ServiceError};
use crate::text;

verus! {

/// The largest script content accepted, in characters.
pub const MAX_SCRIPT_LENGTH: usize = 10000;

/// How many scripts may run at the same time.
pub const MAX_CONCURRENT_EXECUTIONS: usize = 5;

/// Lifecycle of one script execution. `Completed`, `Failed` and `Cancelled`
/// are terminal: no transition leaves them.
#[derive(Clone, Copy, Debug, PartialEq, Eq, Structural)]
pub enum ExecutionStatus {
    Pending,
    Running,
    Completed,
    Failed,
    Cancelled,
}

/// One tracked script execution.
#[derive(Debug)]
pub struct ScriptExecution {
    pub id: u64,
    pub script_content: String,
    pub working_directory: String,
    pub environment: StrDict,
    pub status: ExecutionStatus,
    pub start_time: Option<u64>,
    pub end_time: Option<u64>,
    pub exit_code: Option<i32>,
    pub stdout: String,
    pub stderr: String,
}

/// The mathematical content of one execution record.
pub ghost struct ScriptExecutionView {
    pub id: u64,
    pub script_content: Seq<char>,
    pub working_directory: Seq<char>,
    pub environment: Map<Seq<char>, Seq<char>>,
    pub status: ExecutionStatus,
    pub start_time: Option<u64>,
    pub end_time: Option<u64>,
    pub exit_code: Option<i32>,
    pub stdout: Seq<char>,
    pub stderr: Seq<char>,
}

impl View for ScriptExecution {
    type V = ScriptExecutionView;

    open spec fn view(&self) -> ScriptExecutionView {
        ScriptExecutionView {
            id: self.id,
            script_content: self.script_content@,
            working_directory: self.working_directory@,
            environment: self.environment@,
            status: self.status,
            start_time: self.start_time,
            end_time: self.end_time,
            exit_code: self.exit_code,
            stdout: self.stdout@,
            stderr: self.stderr@,
        }
    }
}

impl Clone for ScriptExecution {
    fn clone(&self) -> (r: Self)
        ensures
            r@ == self@,
            r.environment.wf() == self.environment.wf(),
    {
        ScriptExecution {
            id: self.id,
            script_content: self.script_content.clone(),
            working_directory: self.working_directory.clone(),
            environment: self.environment.clone(),
            status: self.status,
            start_time: self.start_time,
            end_time: self.end_time,
            exit_code: self.exit_code,
            stdout: self.stdout.clone(),
            stderr: self.stderr.clone(),
        }
    }
}

/// What a finished execution reports back to the caller.
#[derive(Debug)]
pub struct ScriptExecutionResult {
    pub id: u64,
    pub success: bool,
    pub exit_code: Option<i32>,
    pub stdout: String,
    pub stderr: String,
    pub duration_ms: u64,
}

/// What the filesystem says about a working directory; probed by the caller,
/// outside this library, immediately before the call that takes it.
#[derive(Clone, Copy, Debug, PartialEq, Eq, Structural)]
pub struct DirProbe {
    pub exists: bool,
    pub is_dir: bool,
}

impl DirProbe {
    /// The directory exists and is a directory.
    pub open spec fn ok(self) -> bool {
        self.exists && self.is_dir
    }
}

/// Everything the caller needs to run an admitted script as a child process:
/// write `script_content` to `temp_file_name` inside `working_directory`,
/// make it executable, run it under a shell with `environment` merged into
/// the process environment, and hand the outcome to `finish_execution`.
#[derive(Debug)]
pub struct RunRequest {
    pub execution_id: u64,
    pub script_content: String,
    pub working_directory: String,
    pub environment: StrDict,
    pub temp_file_name: String,
}

/// What actually happened when the child process ran.
#[derive(Debug)]
pub struct ProcessOutcome {
    pub success: bool,
    pub exit_code: Option<i32>,
    pub stdout: String,
    pub stderr: String,
}

// ---------------------------------------------------------------------------
// Content safety.
// ---------------------------------------------------------------------------

/// The fixed deny-list of destructive command substrings.
pub open spec fn spec_denied(s: Seq<char>) -> bool {
    ||| text::spec_contains(s, "rm -rf"@)
    ||| text::spec_contains(s, "sudo rm"@)
    ||| text::spec_contains(s, "format"@)
    ||| text::spec_contains(s, "del /f"@)
    ||| text::spec_contains(s, "shutdown"@)
    ||| text::spec_contains(s, "reboot"@)
    ||| text::spec_contains(s, "halt"@)
    ||| text::spec_contains(s, "poweroff"@)
    ||| text::spec_contains(s, "init 0"@)
    ||| text::spec_contains(s, "init 6"@)
    ||| text::spec_contains(s, "dd if="@)
    ||| text::spec_contains(s, "mkfs"@)
}

/// Script content is accepted when it is within the size cap and holds no
/// deny-listed substring.
pub open spec fn spec_script_safe(s: Seq<char>) -> bool {
    s.len() <= MAX_SCRIPT_LENGTH && !spec_denied(s)
}

/// Whether `content` holds any deny-listed destructive substring.
pub fn script_denied(content: &str) -> (r: bool)
    ensures
        r == spec_denied(content@),
{
    if text::contains_str(content, "rm -rf") {
        return true;
    }
    if text::contains_str(content, "sudo rm") {
        return true;
    }
    if text::contains_str(content, "format") {
        return true;
    }
    if text::contains_str(content, "del /f") {
        return true;
    }
    if text::contains_str(content, "shutdown") {
        return true;
    }
    if text::contains_str(content, "reboot") {
        return true;
    }
    if text::contains_str(content, "halt") {
        return true;
    }
    if text::contains_str(content, "poweroff") {
        return true;
    }
    if text::contains_str(content, "init 0") {
        return true;
    }
    if text::contains_str(content, "init 6") {
        return true;
    }
    if text::contains_str(content, "dd if=") {
        return true;
    }
    if text::contains_str(content, "mkfs") {
        return true;
    }
    false
}

// ---------------------------------------------------------------------------
// The executor.
// ---------------------------------------------------------------------------

/// An admission-controlled pool that tracks script executions. Registry
/// mutation is in-memory only; the caller owns all process and file work.
pub struct ScriptExecutor {
    executions: Vec<ScriptExecution>,
    max_concurrent_executions: usize,
    running_count: usize,
    next_id: u64,
}

/// The mathematical content of the executor.
pub ghost struct ScriptExecutorView {
    pub executions: Seq<ScriptExecutionView>,
    pub max_concurrent: usize,
    pub running_count: usize,
    pub next_id: u64,
}

impl View for ScriptExecutor {
    type V = ScriptExecutorView;

    closed spec fn view(&self) -> ScriptExecutorView {
        ScriptExecutorView {
            executions: self.executions@.map_values(|e: ScriptExecution| e@),
            max_concurrent: self.max_concurrent_executions,
            running_count: self.running_count,
            next_id: self.next_id,
        }
    }
}

/// A record is in a terminal state.
pub open spec fn is_terminal(e: ScriptExecutionView) -> bool {
    e.status is Completed || e.status is Failed || e.status is Cancelled
}

/// How many records are in `Running` state.
pub open spec fn count_running(s: Seq<ScriptExecutionView>) -> nat
    decreases s.len(),
{
    if s.len() == 0 {
        0
    } else {
        count_running(s.drop_last()) + (if s.last().status is Running {
            1nat
        } else {
            0nat
        })
    }
}

/// How many records are in a terminal state.
pub open spec fn count_terminal(s: Seq<ScriptExecutionView>) -> nat
    decreases s.len(),
{
    if s.len() == 0 {
        0
    } else {
        count_terminal(s.drop_last()) + (if is_terminal(s.last()) {
            1nat
        } else {
            0nat
        })
    }
}

/// A record with id `id` exists.
pub open spec fn has_execution(s: Seq<ScriptExecutionView>, id: u64) -> bool {
    exists|i: int| 0 <= i < s.len() && s[i].id == id
}

/// The index of the record with id `id`.
pub open spec fn index_of_execution(s: Seq<ScriptExecutionView>, id: u64) -> int {
    choose|i: int| 0 <= i < s.len() && s[i].id == id
}

/// The record with id `id`.
pub open spec fn execution_of(s: Seq<ScriptExecutionView>, id: u64) -> ScriptExecutionView {
    s[index_of_execution(s, id)]
}

/// The executor's invariant: ids are unique and below the allocation
/// counter, and the running counter counts exactly the `Running` records and
/// never exceeds the cap.
pub open spec fn executor_inv(v: ScriptExecutorView) -> bool {
    &&& forall|i: int, j: int|
        0 <= i < j < v.executions.len() ==> v.executions[i].id != v.executions[j].id
    &&& forall|i: int| 0 <= i < v.executions.len() ==> #[trigger] v.executions[i].id < v.next_id
    &&& v.running_count == count_running(v.executions)
    &&& v.running_count <= v.max_concurrent
}

proof fn lemma_count_running_update(s: Seq<ScriptExecutionView>, i: int, e: ScriptExecutionView)
    requires
        0 <= i < s.len(),
    ensures
        count_running(s.update(i, e)) + (if s[i].status is Running {
            1nat
        } else {
            0nat
        }) == count_running(s) + (if e.status is Running {
            1nat
        } else {
            0nat
        }),
    decreases s.len(),
{
    let t = s.update(i, e);
    if i == s.len() - 1 {
        assert(t.drop_last() =~= s.drop_last());
        assert(t.last() == e);
    } else {
        assert(t.drop_last() =~= s.drop_last().update(i, e));
        assert(t.last() == s.last());
        lemma_count_running_update(s.drop_last(), i, e);
    }
}

proof fn lemma_count_running_push(s: Seq<ScriptExecutionView>, e: ScriptExecutionView)
    ensures
        count_running(s.push(e)) == count_running(s) + (if e.status is Running {
            1nat
        } else {
            0nat
        }),
{
    assert(s.push(e).drop_last() =~= s);
    assert(s.push(e).last() == e);
}

/// However the executor has been driven, the number of records
/// simultaneously in `Running` state never exceeds the configured cap.
pub proof fn lemma_running_bounded_by_cap(e: &ScriptExecutor)
    requires
        e.wf(),
    ensures
        count_running(e@.executions) <= e@.max_concurrent,
{
}

impl ScriptExecutor {
    /// The registry is consistent: see [`executor_inv`], and every record's
    /// environment mapping is well formed.
    pub open spec fn wf(&self) -> bool {
        &&& executor_inv(self@)
        &&& self.reps_wf()
    }

    /// Representation well-formedness of the stored records.
    pub closed spec fn reps_wf(&self) -> bool {
        forall|i: int|
            0 <= i < self.executions@.len() ==> (#[trigger] self.executions@[i]).environment.wf()
    }

    /// A fresh executor with no tracked executions.
    pub fn new() -> (r: ScriptExecutor)
        ensures
            r.wf(),
            r@.executions.len() == 0,
            r@.max_concurrent == MAX_CONCURRENT_EXECUTIONS,
            r@.running_count == 0,
            r@.next_id == 1,
    {
        ScriptExecutor {
            executions: Vec::new(),
            max_concurrent_executions: MAX_CONCURRENT_EXECUTIONS,
            running_count: 0,
            next_id: 1,
        }
    }

    /// Rejects unsafe or oversized script content: accepted exactly when the
    /// content is within the size cap and holds no deny-listed substring.
    pub fn validate_script(&self, script_content: &str) -> (r: Result<(), ServiceError>)
        ensures
            r.is_ok() <==> spec_script_safe(script_content@),
            match r {
                Ok(_) => true,
                Err(e) => e.kind == ErrorKind::Validation,
            },
    {
        if script_denied(script_content) {
            return Err(ServiceError::validation(String::from_str(
                "script contains a potentially dangerous command",
            )));
        }
        if script_content.unicode_len() > MAX_SCRIPT_LENGTH {
            return Err(ServiceError::validation(String::from_str("script content too long")));
        }
        Ok(())
    }

    /// Accepts a working directory exactly when it exists and is a directory.
    pub fn prepare_environment(&self, workdir: DirProbe) -> (r: Result<(), ServiceError>)
        ensures
            r.is_ok() <==> workdir.ok(),
            match r {
                Ok(_) => true,
                Err(e) => e.kind == ErrorKind::Validation,
            },
    {
        if !workdir.exists {
            return Err(ServiceError::validation(String::from_str(
                "working directory does not exist",
            )));
        }
        if !workdir.is_dir {
            return Err(ServiceError::validation(String::from_str(
                "working path is not a directory",
            )));
        }
        Ok(())
    }

    /// Admits a new execution as `Pending` after validating the script
    /// content and the working directory. Admission never consults the
    /// running cap: the cap bounds running scripts, not pending ones, and is
    /// re-checked by `begin_execution`. On rejection nothing is stored.
    pub fn create_execution(
        &mut self,
        script_content: String,
        working_directory: String,
        environment: Option<StrDict>,
        workdir: DirProbe,
    ) -> (r: Result<u64, ServiceError>)
        requires
            old(self).wf(),
            match environment {
                Some(d) => d.wf(),
                None => true,
            },
            old(self)@.next_id < u64::MAX,
        ensures
            final(self).wf(),
            final(self)@.max_concurrent == old(self)@.max_concurrent,
            final(self)@.running_count == old(self)@.running_count,
            match r {
                Ok(id) => {
                    &&& spec_script_safe(script_content@) && workdir.ok()
                    &&& id == old(self)@.next_id
                    &&& final(self)@.next_id == old(self)@.next_id + 1
                    &&& final(self)@.executions == old(self)@.executions.push(
                        ScriptExecutionView {
                            id,
                            script_content: script_content@,
                            working_directory: working_directory@,
                            environment: match environment {
                                Some(d) => d@,
                                None => Map::empty(),
                            },
                            status: ExecutionStatus::Pending,
                            start_time: None,
                            end_time: None,
                            exit_code: None,
                            stdout: Seq::empty(),
                            stderr: Seq::empty(),
                        },
                    )
                },
                Err(e) => {
                    &&& final(self)@ == old(self)@
                    &&& e.kind == ErrorKind::Validation
                    &&& !(spec_script_safe(script_content@) && workdir.ok())
                },
            },
    {
        if let Err(e) = self.validate_script(script_content.as_str()) {
            return Err(e);
        }
        if let Err(e) = self.prepare_environment(workdir) {
            return Err(e);
        }
        let id = self.next_id;
        let env = match environment {
            Some(d) => d,
            None => StrDict::new(),
        };
        let record = ScriptExecution {
            id,
            script_content,
            working_directory,
            environment: env,
            status: ExecutionStatus::Pending,
            start_time: None,
            end_time: None,
            exit_code: None,
            stdout: String::new(),
            stderr: String::new(),
        };
        let ghost before = self@.executions;
        let ghost recv = record@;
        self.executions.push(record);
        self.next_id = id + 1;
        proof {
            assert(self@.executions =~= before.push(recv));
            lemma_count_running_push(before, recv);
        }
        Ok(id)
    }

    fn position_of_execution(&self, execution_id: u64) -> (r: Option<usize>)
        ensures
            match r {
                Some(i) => i < self@.executions.len() && self@.executions[i as int].id
                    == execution_id,
                None => !has_execution(self@.executions, execution_id),
            },
    {
        let mut i: usize = 0;
        while i < self.executions.len()
            invariant
                0 <= i <= self.executions@.len(),
                self@.executions.len() == self.executions@.len(),
                forall|j: int| 0 <= j < i ==> self@.executions[j].id != execution_id,
                forall|j: int|
                    0 <= j < self.executions@.len() ==> #[trigger] self@.executions[j].id
                        == self.executions@[j].id,
            decreases self.executions@.len() - i,
        {
            if self.executions[i].id == execution_id {
                return Some(i);
            }
            i += 1;
        }
        None
    }

    /// Admits a `Pending` execution to run: re-checks the running cap,
    /// marks the record `Running`, stamps its start time, counts it against
    /// the cap, and returns what the caller must do to actually run it.
    pub fn begin_execution(&mut self, execution_id: u64, now_ms: u64) -> (r: Result<
        RunRequest,
        ServiceError,
    >)
        requires
            old(self).wf(),
        ensures
            final(self).wf(),
            final(self)@.max_concurrent == old(self)@.max_concurrent,
            final(self)@.next_id == old(self)@.next_id,
            r.is_ok() <==> (has_execution(old(self)@.executions, execution_id) && execution_of(
                old(self)@.executions,
                execution_id,
            ).status is Pending && old(self)@.running_count < old(self)@.max_concurrent),
            match r {
                Ok(req) => {
                    let i = index_of_execution(old(self)@.executions, execution_id);
                    let rec = old(self)@.executions[i];
                    &&& final(self)@.executions == old(self)@.executions.update(
                        i,
                        ScriptExecutionView {
                            status: ExecutionStatus::Running,
                            start_time: Some(now_ms),
                            ..rec
                        },
                    )
                    &&& final(self)@.running_count == old(self)@.running_count + 1
                    &&& req.execution_id == execution_id
                    &&& req.script_content@ == rec.script_content
                    &&& req.working_directory@ == rec.working_directory
                    &&& req.environment@ == rec.environment
                    &&& req.environment.wf()
                    &&& req.temp_file_name@ == spec_temp_file_name(execution_id)
                },
                Err(e) => {
                    let has = has_execution(old(self)@.executions, execution_id);
                    &&& final(self)@ == old(self)@
                    &&& (e.kind == ErrorKind::NotFound <==> !has)
                    &&& (e.kind == ErrorKind::Conflict <==> has && !(execution_of(
                        old(self)@.executions,
                        execution_id,
                    ).status is Pending))
                    &&& (e.kind == ErrorKind::ResourceExhausted <==> has && execution_of(
                        old(self)@.executions,
                        execution_id,
                    ).status is Pending && old(self)@.running_count >= old(
                        self,
                    )@.max_concurrent)
                },
            },
    {
        let i = match self.position_of_execution(execution_id) {
            Some(i) => i,
            None => {
                return Err(ServiceError::not_found(String::from_str("execution not found")));
            },
        };
        proof {
            lemma_index_of_unique(self@.executions, i as int, execution_id);
        }
        if !matches!(self.executions[i].status, ExecutionStatus::Pending) {
            return Err(ServiceError::conflict(String::from_str(
                "execution is not pending",
            )));
        }
        if self.running_count >= self.max_concurrent_executions {
            return Err(ServiceError::resource_exhausted(String::from_str(
                "maximum concurrent executions reached",
            )));
        }
        let ghost oldseq = self@.executions;
        let ghost oldrec = self@.executions[i as int];
        let script_content = self.executions[i].script_content.clone();
        let working_directory = self.executions[i].working_directory.clone();
        let environment = self.executions[i].environment.clone();
        let e = &mut self.executions[i];
        e.status = ExecutionStatus::Running;
        e.start_time = Some(now_ms);
        self.running_count = self.running_count + 1;
        proof {
            assert(self@.executions =~= oldseq.update(
                i as int,
                ScriptExecutionView {
                    status: ExecutionStatus::Running,
                    start_time: Some(now_ms),
                    ..oldrec
                },
            ));
            lemma_count_running_update(
                oldseq,
                i as int,
                ScriptExecutionView {
                    status: ExecutionStatus::Running,
                    start_time: Some(now_ms),
                    ..oldrec
                },
            );
        }
        Ok(RunRequest {
            execution_id,
            script_content,
            working_directory,
            environment,
            temp_file_name: temp_file_name_for(execution_id),
        })
    }

    /// Commits the outcome of a run started by `begin_execution`: a record
    /// still `Running` turns `Completed` or `Failed` per the outcome and
    /// stops counting against the cap; a record cancelled while running is
    /// left as it is (terminal states are final). Either way the caller gets
    /// the result record of the run.
    pub fn finish_execution(
        &mut self,
        execution_id: u64,
        outcome: ProcessOutcome,
        end_ms: u64,
    ) -> (r: Result<ScriptExecutionResult, ServiceError>)
        requires
            old(self).wf(),
        ensures
            final(self).wf(),
            final(self)@.max_concurrent == old(self)@.max_concurrent,
            final(self)@.next_id == old(self)@.next_id,
            r.is_ok() <==> (has_execution(old(self)@.executions, execution_id) && (execution_of(
                old(self)@.executions,
                execution_id,
            ).status is Running || execution_of(
                old(self)@.executions,
                execution_id,
            ).status is Cancelled)),
            match r {
                Ok(res) => {
                    let i = index_of_execution(old(self)@.executions, execution_id);
                    let rec = old(self)@.executions[i];
                    &&& res.id == execution_id
                    &&& res.success == outcome.success
                    &&& res.exit_code == outcome.exit_code
                    &&& res.stdout@ == outcome.stdout@
                    &&& res.stderr@ == outcome.stderr@
                    &&& res.duration_ms == spec_duration(rec.start_time, end_ms)
                    &&& if rec.status is Running {
                        &&& final(self)@.executions == old(self)@.executions.update(
                            i,
                            ScriptExecutionView {
                                status: if outcome.success {
                                    ExecutionStatus::Completed
                                } else {
                                    ExecutionStatus::Failed
                                },
                                end_time: Some(end_ms),
                                exit_code: outcome.exit_code,
                                stdout: outcome.stdout@,
                                stderr: outcome.stderr@,
                                ..rec
                            },
                        )
                        &&& final(self)@.running_count == old(self)@.running_count - 1
                    } else {
                        final(self)@ == old(self)@
                    }
                },
                Err(e) => {
                    let has = has_execution(old(self)@.executions, execution_id);
                    &&& final(self)@ == old(self)@
                    &&& (e.kind == ErrorKind::NotFound <==> !has)
                    &&& (e.kind == ErrorKind::Conflict <==> has && !(execution_of(
                        old(self)@.executions,
                        execution_id,
                    ).status is Running || execution_of(
                        old(self)@.executions,
                        execution_id,
                    ).status is Cancelled))
                },
            },
    {
        let i = match self.position_of_execution(execution_id) {
            Some(i) => i,
            None => {
                return Err(ServiceError::not_found(String::from_str("execution not found")));
            },
        };
        proof {
            lemma_index_of_unique(self@.executions, i as int, execution_id);
        }
        let is_running = matches!(self.executions[i].status, ExecutionStatus::Running);
        let is_cancelled = matches!(self.executions[i].status, ExecutionStatus::Cancelled);
        if !is_running && !is_cancelled {
            return Err(ServiceError::conflict(String::from_str(
                "execution has not been started",
            )));
        }
        let start_time = self.executions[i].start_time;
        let duration_ms = match start_time {
            Some(s) => if s <= end_ms {
                end_ms - s
            } else {
                0
            },
            None => 0,
        };
        let result = ScriptExecutionResult {
            id: execution_id,
            success: outcome.success,
            exit_code: outcome.exit_code,
            stdout: outcome.stdout.clone(),
            stderr: outcome.stderr.clone(),
            duration_ms,
        };
        if is_running {
            let ghost oldseq = self@.executions;
            let ghost oldrec = self@.executions[i as int];
            let status = if outcome.success {
                ExecutionStatus::Completed
            } else {
                ExecutionStatus::Failed
            };
            let e = &mut self.executions[i];
            e.status = status;
            e.end_time = Some(end_ms);
            e.exit_code = outcome.exit_code;
            e.stdout = outcome.stdout;
            e.stderr = outcome.stderr;
            proof {
                lemma_count_running_at_least_one(oldseq, i as int);
            }
            self.running_count = self.running_count - 1;
            proof {
                let ghost newrec = ScriptExecutionView {
                    status,
                    end_time: Some(end_ms),
                    exit_code: outcome.exit_code,
                    stdout: outcome.stdout@,
                    stderr: outcome.stderr@,
                    ..oldrec
                };
                assert(self@.executions =~= oldseq.update(i as int, newrec));
                lemma_count_running_update(oldseq, i as int, newrec);
            }
        }
        Ok(result)
    }

    /// Marks a `Pending` or `Running` execution `Cancelled` and stamps its
    /// end time. This is a lifecycle-flag cancellation: it does not touch any
    /// child process the caller may have spawned.
    pub fn cancel_execution(&mut self, execution_id: u64, now_ms: u64) -> (r: Result<
        (),
        ServiceError,
    >)
        requires
            old(self).wf(),
        ensures
            final(self).wf(),
            final(self)@.max_concurrent == old(self)@.max_concurrent,
            final(self)@.next_id == old(self)@.next_id,
            r.is_ok() <==> (has_execution(old(self)@.executions, execution_id) && (execution_of(
                old(self)@.executions,
                execution_id,
            ).status is Pending || execution_of(
                old(self)@.executions,
                execution_id,
            ).status is Running)),
            match r {
                Ok(_) => {
                    let i = index_of_execution(old(self)@.executions, execution_id);
                    let rec = old(self)@.executions[i];
                    &&& final(self)@.executions == old(self)@.executions.update(
                        i,
                        ScriptExecutionView {
                            status: ExecutionStatus::Cancelled,
                            end_time: Some(now_ms),
                            ..rec
                        },
                    )
                    &&& final(self)@.running_count == old(self)@.running_count - (
                    if rec.status is Running {
                        1int
                    } else {
                        0int
                    })
                },
                Err(e) => {
                    let has = has_execution(old(self)@.executions, execution_id);
                    &&& final(self)@ == old(self)@
                    &&& (e.kind == ErrorKind::NotFound <==> !has)
                    &&& (e.kind == ErrorKind::Conflict <==> has && is_terminal(
                        execution_of(old(self)@.executions, execution_id),
                    ))
                },
            },
    {
        let i = match self.position_of_execution(execution_id) {
            Some(i) => i,
            None => {
                return Err(ServiceError::not_found(String::from_str("execution not found")));
            },
        };
        proof {
            lemma_index_of_unique(self@.executions, i as int, execution_id);
        }
        let was_running = matches!(self.executions[i].status, ExecutionStatus::Running);
        let was_pending = matches!(self.executions[i].status, ExecutionStatus::Pending);
        if !was_running && !was_pending {
            return Err(ServiceError::conflict(String::from_str(
                "cannot cancel execution in current status",
            )));
        }
        let ghost oldseq = self@.executions;
        let ghost oldrec = self@.executions[i as int];
        let e = &mut self.executions[i];
        e.status = ExecutionStatus::Cancelled;
        e.end_time = Some(now_ms);
        if was_running {
            proof {
                lemma_count_running_at_least_one(oldseq, i as int);
            }
            self.running_count = self.running_count - 1;
        }
        proof {
            let ghost newrec = ScriptExecutionView {
                status: ExecutionStatus::Cancelled,
                end_time: Some(now_ms),
                ..oldrec
            };
            assert(self@.executions =~= oldseq.update(i as int, newrec));
            lemma_count_running_update(oldseq, i as int, newrec);
        }
        Ok(())
    }
}

impl ScriptExecutor {
    /// The current record of one execution, if it exists.
    pub fn get_execution_status(&self, execution_id: u64) -> (r: Option<ScriptExecution>)
        requires
            self.wf(),
        ensures
            match r {
                Some(e) => {
                    &&& has_execution(self@.executions, execution_id)
                    &&& e@ == execution_of(self@.executions, execution_id)
                    &&& e.environment.wf()
                },
                None => !has_execution(self@.executions, execution_id),
            },
    {
        match self.position_of_execution(execution_id) {
            Some(i) => {
                proof {
                    lemma_index_of_unique(self@.executions, i as int, execution_id);
                }
                Some(self.executions[i].clone())
            },
            None => None,
        }
    }

    /// All tracked execution records.
    pub fn get_all_executions(&self) -> (r: Vec<ScriptExecution>)
        requires
            self.wf(),
        ensures
            r@.len() == self@.executions.len(),
            forall|i: int|
                0 <= i < r@.len() ==> #[trigger] r@[i]@ == self@.executions[i]
                    && r@[i].environment.wf(),
    {
        let mut r: Vec<ScriptExecution> = Vec::new();
        let mut i: usize = 0;
        while i < self.executions.len()
            invariant
                self.wf(),
                0 <= i <= self.executions@.len(),
                self@.executions.len() == self.executions@.len(),
                r@.len() == i,
                forall|j: int|
                    0 <= j < i ==> #[trigger] r@[j]@ == self@.executions[j]
                        && r@[j].environment.wf(),
            decreases self.executions@.len() - i,
        {
            let ghost before = r@;
            let c = self.executions[i].clone();
            r.push(c);
            proof {
                assert(r@ == before.push(c));
            }
            i += 1;
        }
        r
    }

    fn count_terminal_now(&self) -> (r: usize)
        ensures
            r == count_terminal(self@.executions),
    {
        let mut cnt: usize = 0;
        let mut i: usize = 0;
        proof {
            assert(self@.executions.take(0) =~= Seq::empty());
        }
        while i < self.executions.len()
            invariant
                0 <= i <= self.executions@.len(),
                self@.executions.len() == self.executions@.len(),
                cnt <= i,
                cnt == count_terminal(self@.executions.take(i as int)),
            decreases self.executions@.len() - i,
        {
            let t = matches!(
                self.executions[i].status,
                ExecutionStatus::Completed | ExecutionStatus::Failed | ExecutionStatus::Cancelled
            );
            proof {
                assert(self@.executions.take(i + 1).drop_last() =~= self@.executions.take(i as int));
                assert(self@.executions.take(i + 1).last() == self@.executions[i as int]);
            }
            if t {
                cnt += 1;
            }
            i += 1;
        }
        proof {
            assert(self@.executions.take(self.executions@.len() as int) =~= self@.executions);
        }
        cnt
    }

    /// Evicts terminal-state records, keeping only the `keep_count` with the
    /// latest end times (a missing end time counts as oldest). Records that
    /// are still `Pending` or `Running` are never touched.
    pub fn cleanup_completed_executions(&mut self, keep_count: usize)
        requires
            old(self).wf(),
        ensures
            final(self).wf(),
            final(self)@.max_concurrent == old(self)@.max_concurrent,
            final(self)@.next_id == old(self)@.next_id,
            final(self)@.running_count == old(self)@.running_count,
            count_terminal(final(self)@.executions) == if count_terminal(old(self)@.executions)
                > keep_count {
                keep_count as nat
            } else {
                count_terminal(old(self)@.executions)
            },
            forall|id: u64|
                has_execution(final(self)@.executions, id) ==> has_execution(
                    old(self)@.executions,
                    id,
                ) && execution_of(final(self)@.executions, id) == execution_of(
                    old(self)@.executions,
                    id,
                ),
            forall|id: u64|
                has_execution(old(self)@.executions, id) && !is_terminal(
                    execution_of(old(self)@.executions, id),
                ) ==> has_execution(final(self)@.executions, id),
            forall|id1: u64, id2: u64|
                has_execution(final(self)@.executions, id1) && is_terminal(
                    execution_of(final(self)@.executions, id1),
                ) && has_execution(old(self)@.executions, id2) && !has_execution(
                    final(self)@.executions,
                    id2,
                ) ==> end_or_zero(execution_of(old(self)@.executions, id2)) <= end_or_zero(
                    execution_of(final(self)@.executions, id1),
                ),
    {
        let ghost orig = self@.executions;
        let mut terminal_count = self.count_terminal_now();
        while terminal_count > keep_count
            invariant
                self.wf(),
                self@.max_concurrent == old(self)@.max_concurrent,
                self@.next_id == old(self)@.next_id,
                self@.running_count == old(self)@.running_count,
                terminal_count == count_terminal(self@.executions),
                count_terminal(orig) > keep_count ==> terminal_count >= keep_count,
                count_terminal(orig) <= keep_count ==> self@.executions == orig,
                forall|id: u64|
                    has_execution(self@.executions, id) ==> has_execution(orig, id)
                        && execution_of(self@.executions, id) == execution_of(orig, id),
                forall|id: u64|
                    has_execution(orig, id) && !is_terminal(execution_of(orig, id))
                        ==> has_execution(self@.executions, id),
                forall|id1: u64, id2: u64|
                    has_execution(self@.executions, id1) && is_terminal(
                        execution_of(self@.executions, id1),
                    ) && has_execution(orig, id2) && !has_execution(self@.executions, id2)
                        ==> end_or_zero(execution_of(orig, id2)) <= end_or_zero(
                        execution_of(self@.executions, id1),
                    ),
            decreases terminal_count,
        {
            let b = self.argmin_terminal();
            let ghost cur = self@.executions;
            let ghost victim = self@.executions[b as int];
            proof {
                lemma_count_terminal_remove(cur, b as int);
                lemma_count_running_remove(cur, b as int);
                lemma_remove_preserves(cur, b as int);
            }
            self.executions.remove(b);
            proof {
                assert(self@.executions =~= cur.remove(b as int));
                assert forall|id1: u64, id2: u64|
                    has_execution(self@.executions, id1) && is_terminal(
                        execution_of(self@.executions, id1),
                    ) && has_execution(orig, id2) && !has_execution(self@.executions, id2)
                        implies end_or_zero(execution_of(orig, id2)) <= end_or_zero(
                        execution_of(self@.executions, id1),
                    ) by {
                    assert(has_execution(cur, id1));
                    assert(execution_of(self@.executions, id1) == execution_of(cur, id1));
                    let j = index_of_execution(cur, id1);
                    assert(0 <= j < cur.len() && cur[j].id == id1);
                    assert(is_terminal(cur[j]));
                    if has_execution(cur, id2) {
                        assert(id2 == victim.id) by {
                            if id2 != cur[b as int].id {
                                assert(has_execution(self@.executions, id2));
                            }
                        }
                        assert(execution_of(cur, id2) == execution_of(orig, id2));
                        lemma_index_of_unique(cur, b as int, id2);
                        assert(end_or_zero(cur[b as int]) <= end_or_zero(cur[j]));
                    } else {
                        assert(end_or_zero(execution_of(orig, id2)) <= end_or_zero(
                            execution_of(cur, id1),
                        ));
                    }
                }
            }
            terminal_count = terminal_count - 1;
        }
    }

    /// The index of the terminal record with the smallest end time. May only
    /// be called when a terminal record exists.
    fn argmin_terminal(&self) -> (r: usize)
        requires
            count_terminal(self@.executions) > 0,
        ensures
            r < self@.executions.len(),
            is_terminal(self@.executions[r as int]),
            forall|j: int|
                0 <= j < self@.executions.len() && is_terminal(#[trigger] self@.executions[j])
                    ==> end_or_zero(self@.executions[r as int]) <= end_or_zero(self@.executions[j]),
    {
        proof {
            lemma_count_terminal_witness(self@.executions);
        }
        let n = self.executions.len();
        let mut best: usize = 0;
        let mut found = false;
        let mut best_end: u64 = 0;
        let mut i: usize = 0;
        while i < n
            invariant
                n == self.executions@.len(),
                self@.executions.len() == n,
                0 <= i <= n,
                !found ==> forall|j: int| 0 <= j < i ==> !is_terminal(self@.executions[j]),
                found ==> best < i && is_terminal(self@.executions[best as int]) && best_end
                    == end_or_zero(self@.executions[best as int]),
                found ==> forall|j: int|
                    0 <= j < i && is_terminal(#[trigger] self@.executions[j]) ==> best_end
                        <= end_or_zero(self@.executions[j]),
            decreases n - i,
        {
            let t = matches!(
                self.executions[i].status,
                ExecutionStatus::Completed | ExecutionStatus::Failed | ExecutionStatus::Cancelled
            );
            if t {
                let e = match self.executions[i].end_time {
                    Some(v) => v,
                    None => 0,
                };
                if !found || e < best_end {
                    best = i;
                    best_end = e;
                    found = true;
                }
            }
            i += 1;
        }
        proof {
            if !found {
                let w = choose|j: int|
                    0 <= j < self@.executions.len() && is_terminal(self@.executions[j]);
                assert(!is_terminal(self@.executions[w]));
            }
        }
        best
    }
}

/// A record's end time, with a missing end time treated as oldest.
pub open spec fn end_or_zero(e: ScriptExecutionView) -> u64 {
    match e.end_time {
        Some(t) => t,
        None => 0,
    }
}

proof fn lemma_count_terminal_remove(s: Seq<ScriptExecutionView>, i: int)
    requires
        0 <= i < s.len(),
    ensures
        count_terminal(s.remove(i)) + (if is_terminal(s[i]) {
            1nat
        } else {
            0nat
        }) == count_terminal(s),
    decreases s.len(),
{
    let t = s.remove(i);
    if i == s.len() - 1 {
        assert(t =~= s.drop_last());
    } else {
        assert(t.drop_last() =~= s.drop_last().remove(i));
        assert(t.last() == s.last());
        lemma_count_terminal_remove(s.drop_last(), i);
    }
}

proof fn lemma_count_running_remove(s: Seq<ScriptExecutionView>, i: int)
    requires
        0 <= i < s.len(),
    ensures
        count_running(s.remove(i)) + (if s[i].status is Running {
            1nat
        } else {
            0nat
        }) == count_running(s),
    decreases s.len(),
{
    let t = s.remove(i);
    if i == s.len() - 1 {
        assert(t =~= s.drop_last());
    } else {
        assert(t.drop_last() =~= s.drop_last().remove(i));
        assert(t.last() == s.last());
        lemma_count_running_remove(s.drop_last(), i);
    }
}

proof fn lemma_count_terminal_witness(s: Seq<ScriptExecutionView>)
    requires
        count_terminal(s) > 0,
    ensures
        exists|j: int| 0 <= j < s.len() && is_terminal(s[j]),
    decreases s.len(),
{
    if s.len() > 0 {
        if is_terminal(s.last()) {
            assert(is_terminal(s[s.len() - 1]));
        } else {
            lemma_count_terminal_witness(s.drop_last());
            let j = choose|j: int| 0 <= j < s.drop_last().len() && is_terminal(s.drop_last()[j]);
            assert(is_terminal(s[j]));
        }
    }
}

/// Removing the record at `b` keeps every other record findable under its id
/// and unchanged, and keeps ids pairwise distinct.
proof fn lemma_remove_preserves(s: Seq<ScriptExecutionView>, b: int)
    requires
        forall|a: int, c: int| 0 <= a < c < s.len() ==> s[a].id != s[c].id,
        0 <= b < s.len(),
    ensures
        forall|a: int, c: int|
            0 <= a < c < s.remove(b).len() ==> s.remove(b)[a].id != s.remove(b)[c].id,
        !has_execution(s.remove(b), s[b].id),
        forall|id: u64|
            has_execution(s.remove(b), id) ==> has_execution(s, id) && execution_of(
                s.remove(b),
                id,
            ) == execution_of(s, id),
        forall|id: u64|
            id != s[b].id && has_execution(s, id) ==> has_execution(s.remove(b), id),
{
    let t = s.remove(b);
    assert forall|a: int, c: int| 0 <= a < c < t.len() implies t[a].id != t[c].id by {
        let x: int = if a < b {
            a
        } else {
            a + 1
        };
        let y: int = if c < b {
            c
        } else {
            c + 1
        };
        assert(t[a] == s[x]);
        assert(t[c] == s[y]);
        assert(s[x].id != s[y].id);
    }
    assert(!has_execution(t, s[b].id)) by {
        if has_execution(t, s[b].id) {
            let i = choose|i: int| 0 <= i < t.len() && t[i].id == s[b].id;
            let x: int = if i < b {
                i
            } else {
                i + 1
            };
            assert(t[i] == s[x]);
            if x < b {
                assert(s[x].id != s[b].id);
            } else {
                assert(s[b].id != s[x].id);
            }
        }
    }
    assert forall|id: u64| has_execution(t, id) implies has_execution(s, id) && execution_of(
        t,
        id,
    ) == execution_of(s, id) by {
        let i = choose|i: int| 0 <= i < t.len() && t[i].id == id;
        let x: int = if i < b {
            i
        } else {
            i + 1
        };
        assert(t[i] == s[x]);
        lemma_index_of_unique(s, x, id);
        assert forall|a: int, c: int| 0 <= a < c < t.len() implies t[a].id != t[c].id by {
            let xx: int = if a < b {
                a
            } else {
                a + 1
            };
            let yy: int = if c < b {
                c
            } else {
                c + 1
            };
            assert(t[a] == s[xx]);
            assert(t[c] == s[yy]);
            assert(s[xx].id != s[yy].id);
        }
        lemma_index_of_unique(t, i, id);
    }
    assert forall|id: u64| id != s[b].id && has_execution(s, id) implies has_execution(
        t,
        id,
    ) by {
        let i = choose|i: int| 0 <= i < s.len() && s[i].id == id;
        if i < b {
            assert(t[i] == s[i]);
        } else {
            assert(i > b);
            assert(t[i - 1] == s[i]);
        }
    }
}

/// The start-to-end wall-clock duration of a run, zero when the record never
/// started or the clock ran backwards.
pub open spec fn spec_duration(start: Option<u64>, end_ms: u64) -> u64 {
    match start {
        Some(s) => if s <= end_ms {
            (end_ms - s) as u64
        } else {
            0
        },
        None => 0,
    }
}

/// The unique name of the temporary script file of one execution.
pub open spec fn spec_temp_file_name(id: u64) -> Seq<char> {
    "temp_script_"@ + text::spec_dec(id as nat) + ".sh"@
}

/// Builds the temporary script file name of one execution.
pub fn temp_file_name_for(id: u64) -> (r: String)
    ensures
        r@ == spec_temp_file_name(id),
{
    let mut s = String::from_str("temp_script_");
    let dec = text::to_decimal(id);
    s.append(dec.as_str());
    s.append(".sh");
    s
}

/// With pairwise-distinct ids, the chosen index of an id is the index where
/// it stands.
pub proof fn lemma_index_of_unique(s: Seq<ScriptExecutionView>, i: int, id: u64)
    requires
        forall|a: int, b: int| 0 <= a < b < s.len() ==> s[a].id != s[b].id,
        0 <= i < s.len(),
        s[i].id == id,
    ensures
        index_of_execution(s, id) == i,
        has_execution(s, id),
        execution_of(s, id) == s[i],
{
    assert(has_execution(s, id));
    let j = index_of_execution(s, id);
    if j != i {
        if j < i {
            assert(s[j].id != s[i].id);
        } else {
            assert(s[i].id != s[j].id);
        }
    }
}

/// A sequence whose `i`-th record is `Running` has a positive running count.
proof fn lemma_count_running_at_least_one(s: Seq<ScriptExecutionView>, i: int)
    requires
        0 <= i < s.len(),
        s[i].status is Running,
    ensures
        count_running(s) >= 1,
    decreases s.len(),
{
    if i == s.len() - 1 {
    } else {
        lemma_count_running_at_least_one(s.drop_last(), i);
    }
}

} // verus!
