use vstd::prelude::*;

use crate::dict::StrDict;
use crate::errors::{ErrorKind, ServiceError};
use crate::script::{DirProbe, ProcessOutcome};
use crate::text;

verus! {

/// How many sessions may be tracked at once; closed sessions count against
/// the cap until cleaned up.
pub const MAX_TERMINALS: usize = 10;

/// The longest retained scrollback.
pub const MAX_HISTORY_SIZE: usize = 1000;

/// How many of the oldest records one eviction removes, in one batch.
pub const HISTORY_EVICTION_BATCH: usize = 100;

/// Lifecycle of one session. `Error` is reserved for unrecoverable I/O
/// failure reported from outside; no transition here produces it.
#[derive(Clone, Copy, Debug, PartialEq, Eq, Structural)]
pub enum TerminalStatus {
    Active,
    Inactive,
    Closed,
    Error,
}

/// Which stream a scrollback record came from.
#[derive(Clone, Copy, Debug, PartialEq, Eq, Structural)]
pub enum OutputType {
    Stdout,
    Stderr,
    Input,
    System,
}

/// One line of retained terminal output.
#[derive(Debug)]
pub struct TerminalOutput {
    pub timestamp: u64,
    pub content: String,
    pub output_type: OutputType,
}

/// The mathematical content of one output record.
pub ghost struct TerminalOutputView {
    pub timestamp: u64,
    pub content: Seq<char>,
    pub output_type: OutputType,
}

impl View for TerminalOutput {
    type V = TerminalOutputView;

    open spec fn view(&self) -> TerminalOutputView {
        TerminalOutputView {
            timestamp: self.timestamp,
            content: self.content@,
            output_type: self.output_type,
        }
    }
}

impl Clone for TerminalOutput {
    fn clone(&self) -> (r: Self)
        ensures
            r@ == self@,
    {
        TerminalOutput {
            timestamp: self.timestamp,
            content: self.content.clone(),
            output_type: self.output_type,
        }
    }
}

/// One session's metadata and scrollback.
#[derive(Debug)]
pub struct TerminalSession {
    pub id: u64,
    pub name: String,
    pub working_directory: String,
    pub environment: StrDict,
    pub status: TerminalStatus,
    pub created_at: u64,
    pub last_activity: u64,
    pub output_history: Vec<TerminalOutput>,
}

/// The mathematical content of one session.
pub ghost struct TerminalSessionView {
    pub id: u64,
    pub name: Seq<char>,
    pub working_directory: Seq<char>,
    pub environment: Map<Seq<char>, Seq<char>>,
    pub status: TerminalStatus,
    pub created_at: u64,
    pub last_activity: u64,
    pub output_history: Seq<TerminalOutputView>,
}

/// The views of a sequence of output records.
pub open spec fn outputs_view(s: Seq<TerminalOutput>) -> Seq<TerminalOutputView> {
    s.map_values(|o: TerminalOutput| o@)
}

impl View for TerminalSession {
    type V = TerminalSessionView;

    open spec fn view(&self) -> TerminalSessionView {
        TerminalSessionView {
            id: self.id,
            name: self.name@,
            working_directory: self.working_directory@,
            environment: self.environment@,
            status: self.status,
            created_at: self.created_at,
            last_activity: self.last_activity,
            output_history: outputs_view(self.output_history@),
        }
    }
}

impl Clone for TerminalSession {
    fn clone(&self) -> (r: Self)
        ensures
            r@ == self@,
            r.environment.wf() == self.environment.wf(),
    {
        let r = TerminalSession {
            id: self.id,
            name: self.name.clone(),
            working_directory: self.working_directory.clone(),
            environment: self.environment.clone(),
            status: self.status,
            created_at: self.created_at,
            last_activity: self.last_activity,
            output_history: clone_outputs(&self.output_history),
        };
        proof {
            assert(r@.output_history =~= self@.output_history);
        }
        r
    }
}

/// Copies a list of scrollback records.
fn clone_outputs(v: &Vec<TerminalOutput>) -> (r: Vec<TerminalOutput>)
    ensures
        outputs_view(r@) == outputs_view(v@),
{
    let mut r: Vec<TerminalOutput> = Vec::new();
    let mut i: usize = 0;
    while i < v.len()
        invariant
            0 <= i <= v@.len(),
            r@.len() == i,
            forall|j: int| 0 <= j < i ==> #[trigger] r@[j]@ == v@[j]@,
        decreases v@.len() - i,
    {
        let ghost before = r@;
        let c = v[i].clone();
        r.push(c);
        proof {
            assert(r@ == before.push(c));
        }
        i += 1;
    }
    proof {
        assert(outputs_view(r@) =~= outputs_view(v@));
    }
    r
}

/// A one-shot command: program, arguments, directory and environment.
#[derive(Debug)]
pub struct CommandExecution {
    pub command: String,
    pub args: Vec<String>,
    pub working_directory: String,
    pub environment: StrDict,
}

/// One tracked session together with what it owns: at most one child
/// process, at most one input channel, and the queue of output records read
/// from the child but not yet drained by a caller. The process and the
/// channels live outside this library; here each is a flag or a queue.
#[derive(Debug)]
pub struct TerminalInstance {
    pub session: TerminalSession,
    pub has_process: bool,
    pub has_input: bool,
    pub pending_output: Vec<TerminalOutput>,
}

/// The mathematical content of one tracked session.
pub ghost struct TerminalInstanceView {
    pub session: TerminalSessionView,
    pub has_process: bool,
    pub has_input: bool,
    pub pending_output: Seq<TerminalOutputView>,
}

impl View for TerminalInstance {
    type V = TerminalInstanceView;

    open spec fn view(&self) -> TerminalInstanceView {
        TerminalInstanceView {
            session: self.session@,
            has_process: self.has_process,
            has_input: self.has_input,
            pending_output: outputs_view(self.pending_output@),
        }
    }
}

impl Clone for TerminalInstance {
    fn clone(&self) -> (r: Self)
        ensures
            r@ == self@,
            r.session.environment.wf() == self.session.environment.wf(),
    {
        let r = TerminalInstance {
            session: self.session.clone(),
            has_process: self.has_process,
            has_input: self.has_input,
            pending_output: clone_outputs(&self.pending_output),
        };
        proof {
            assert(r@.pending_output =~= self@.pending_output);
        }
        r
    }
}

/// What the caller must spawn to start a session: an interactive shell
/// rooted at the working directory with this environment, wired to an input
/// pump feeding `send_command` lines to the child's standard input and one
/// output pump per stream handing each read line to `push_output`.
#[derive(Debug)]
pub struct SpawnRequest {
    pub terminal_id: u64,
    pub working_directory: String,
    pub environment: StrDict,
}

/// What `close_terminal` asks the caller to do afterwards: terminate the
/// child process, if the session still owned one.
#[derive(Debug)]
pub struct CloseAction {
    pub kill_process: bool,
}

// ---------------------------------------------------------------------------
// The session manager.
// ---------------------------------------------------------------------------

/// The pool of interactive sessions. Registry mutation is in-memory only;
/// the caller owns all process and channel work.
pub struct TerminalService {
    terminals: Vec<TerminalInstance>,
    max_terminals: usize,
    max_history_size: usize,
    next_id: u64,
}

/// The mathematical content of the session manager.
pub ghost struct TerminalServiceView {
    pub terminals: Seq<TerminalInstanceView>,
    pub max_terminals: usize,
    pub max_history_size: usize,
    pub next_id: u64,
}

impl View for TerminalService {
    type V = TerminalServiceView;

    closed spec fn view(&self) -> TerminalServiceView {
        TerminalServiceView {
            terminals: self.terminals@.map_values(|t: TerminalInstance| t@),
            max_terminals: self.max_terminals,
            max_history_size: self.max_history_size,
            next_id: self.next_id,
        }
    }
}

/// A session with id `id` exists.
pub open spec fn has_terminal(s: Seq<TerminalInstanceView>, id: u64) -> bool {
    exists|i: int| 0 <= i < s.len() && s[i].session.id == id
}

/// The index of the session with id `id`.
pub open spec fn index_of_terminal(s: Seq<TerminalInstanceView>, id: u64) -> int {
    choose|i: int| 0 <= i < s.len() && s[i].session.id == id
}

/// The session with id `id`.
pub open spec fn terminal_of(s: Seq<TerminalInstanceView>, id: u64) -> TerminalInstanceView {
    s[index_of_terminal(s, id)]
}

/// The manager's invariant: ids unique and below the allocation counter, and
/// the history cap leaves room for batch eviction.
pub open spec fn terminal_service_inv(v: TerminalServiceView) -> bool {
    &&& forall|i: int, j: int|
        0 <= i < j < v.terminals.len() ==> v.terminals[i].session.id != v.terminals[j].session.id
    &&& forall|i: int|
        0 <= i < v.terminals.len() ==> #[trigger] v.terminals[i].session.id < v.next_id
    &&& v.max_history_size >= HISTORY_EVICTION_BATCH
}

/// Scrollback retention: when an append pushes the history over the cap, the
/// oldest `HISTORY_EVICTION_BATCH` records leave in one batch, never one by
/// one and never partially.
pub open spec fn spec_cap_history(h: Seq<TerminalOutputView>, max: nat) -> Seq<TerminalOutputView> {
    if h.len() > max {
        h.skip(HISTORY_EVICTION_BATCH as int)
    } else {
        h
    }
}

/// What one eviction does: beyond the cap, exactly the oldest batch leaves
/// at once; within the cap, nothing moves.
pub proof fn lemma_history_eviction(h: Seq<TerminalOutputView>, max: nat)
    requires
        max >= HISTORY_EVICTION_BATCH,
    ensures
        h.len() > max ==> spec_cap_history(h, max) == h.subrange(
            HISTORY_EVICTION_BATCH as int,
            h.len() as int,
        ) && spec_cap_history(h, max).len() == h.len() - HISTORY_EVICTION_BATCH,
        h.len() <= max ==> spec_cap_history(h, max) == h,
{
}

/// Trims `history` to the retention rule.
fn enforce_history_cap(history: &mut Vec<TerminalOutput>, max: usize)
    requires
        max >= HISTORY_EVICTION_BATCH,
    ensures
        outputs_view(final(history)@) == spec_cap_history(outputs_view(old(history)@), max as nat),
{
    if history.len() > max {
        let tail = history.split_off(HISTORY_EVICTION_BATCH);
        let ghost head = history@;
        *history = tail;
        proof {
            assert(outputs_view(history@) =~= spec_cap_history(
                outputs_view(old(history)@),
                max as nat,
            ));
        }
    } else {
        proof {
            assert(outputs_view(history@) =~= spec_cap_history(
                outputs_view(old(history)@),
                max as nat,
            ));
        }
    }
}

/// The display title of a session: `Terminal` and its id.
pub open spec fn spec_terminal_title(id: u64) -> Seq<char> {
    "Terminal "@ + text::spec_dec(id as nat)
}

/// The system record noting a started session.
pub open spec fn spec_start_message(id: u64) -> Seq<char> {
    spec_terminal_title(id) + " started"@
}

/// The system record noting a closed session.
pub open spec fn spec_close_message(id: u64) -> Seq<char> {
    spec_terminal_title(id) + " closed"@
}

fn terminal_title(id: u64) -> (r: String)
    ensures
        r@ == spec_terminal_title(id),
{
    let mut s = String::from_str("Terminal ");
    let dec = text::to_decimal(id);
    s.append(dec.as_str());
    s
}

fn start_message(id: u64) -> (r: String)
    ensures
        r@ == spec_start_message(id),
{
    let mut s = terminal_title(id);
    s.append(" started");
    s
}

fn close_message(id: u64) -> (r: String)
    ensures
        r@ == spec_close_message(id),
{
    let mut s = terminal_title(id);
    s.append(" closed");
    s
}

/// With pairwise-distinct ids, the chosen index of an id is the index where
/// it stands.
pub proof fn lemma_terminal_index_unique(s: Seq<TerminalInstanceView>, i: int, id: u64)
    requires
        forall|a: int, b: int| 0 <= a < b < s.len() ==> s[a].session.id != s[b].session.id,
        0 <= i < s.len(),
        s[i].session.id == id,
    ensures
        index_of_terminal(s, id) == i,
        has_terminal(s, id),
        terminal_of(s, id) == s[i],
{
    assert(has_terminal(s, id));
    let j = index_of_terminal(s, id);
    if j != i {
        if j < i {
            assert(s[j].session.id != s[i].session.id);
        } else {
            assert(s[i].session.id != s[j].session.id);
        }
    }
}

impl TerminalService {
    /// The registry is consistent: see [`terminal_service_inv`], and every
    /// session's environment mapping is well formed.
    pub open spec fn wf(&self) -> bool {
        &&& terminal_service_inv(self@)
        &&& self.reps_wf()
    }

    /// Representation well-formedness of the stored sessions.
    pub closed spec fn reps_wf(&self) -> bool {
        forall|i: int|
            0 <= i < self.terminals@.len() ==> (
            #[trigger] self.terminals@[i]).session.environment.wf()
    }

    /// A fresh manager with no tracked sessions.
    pub fn new() -> (r: TerminalService)
        ensures
            r.wf(),
            r@.terminals.len() == 0,
            r@.max_terminals == MAX_TERMINALS,
            r@.max_history_size == MAX_HISTORY_SIZE,
            r@.next_id == 1,
    {
        TerminalService {
            terminals: Vec::new(),
            max_terminals: MAX_TERMINALS,
            max_history_size: MAX_HISTORY_SIZE,
            next_id: 1,
        }
    }

    fn position_of_terminal(&self, terminal_id: u64) -> (r: Option<usize>)
        ensures
            match r {
                Some(i) => i < self@.terminals.len() && self@.terminals[i as int].session.id
                    == terminal_id,
                None => !has_terminal(self@.terminals, terminal_id),
            },
    {
        let mut i: usize = 0;
        while i < self.terminals.len()
            invariant
                0 <= i <= self.terminals@.len(),
                self@.terminals.len() == self.terminals@.len(),
                forall|j: int| 0 <= j < i ==> self@.terminals[j].session.id != terminal_id,
                forall|j: int|
                    0 <= j < self.terminals@.len() ==> #[trigger] self@.terminals[j].session.id
                        == self.terminals@[j].session.id,
            decreases self.terminals@.len() - i,
        {
            if self.terminals[i].session.id == terminal_id {
                return Some(i);
            }
            i += 1;
        }
        None
    }

    /// Tracks a new `Inactive` session with empty scrollback, under the hard
    /// cap on total tracked sessions; no process work happens here. The cap
    /// is checked before the working directory, as the admission order.
    pub fn create_terminal(
        &mut self,
        name: Option<String>,
        working_directory: String,
        environment: Option<StrDict>,
        workdir: DirProbe,
        now_ms: u64,
    ) -> (r: Result<u64, ServiceError>)
        requires
            old(self).wf(),
            match environment {
                Some(d) => d.wf(),
                None => true,
            },
            old(self)@.next_id < u64::MAX,
        ensures
            final(self).wf(),
            final(self)@.max_terminals == old(self)@.max_terminals,
            final(self)@.max_history_size == old(self)@.max_history_size,
            r.is_ok() <==> (old(self)@.terminals.len() < old(self)@.max_terminals
                && workdir.ok()),
            match r {
                Ok(id) => {
                    &&& id == old(self)@.next_id
                    &&& final(self)@.next_id == old(self)@.next_id + 1
                    &&& final(self)@.terminals == old(self)@.terminals.push(
                        TerminalInstanceView {
                            session: TerminalSessionView {
                                id,
                                name: match name {
                                    Some(n) => n@,
                                    None => spec_terminal_title(id),
                                },
                                working_directory: working_directory@,
                                environment: match environment {
                                    Some(d) => d@,
                                    None => Map::empty(),
                                },
                                status: TerminalStatus::Inactive,
                                created_at: now_ms,
                                last_activity: now_ms,
                                output_history: Seq::empty(),
                            },
                            has_process: false,
                            has_input: false,
                            pending_output: Seq::empty(),
                        },
                    )
                },
                Err(e) => {
                    &&& final(self)@ == old(self)@
                    &&& (e.kind == ErrorKind::ResourceExhausted <==> old(self)@.terminals.len()
                        >= old(self)@.max_terminals)
                    &&& (e.kind == ErrorKind::Validation <==> old(self)@.terminals.len() < old(
                        self,
                    )@.max_terminals && !workdir.ok())
                },
            },
    {
        if self.terminals.len() >= self.max_terminals {
            return Err(ServiceError::resource_exhausted(String::from_str(
                "maximum number of terminals reached",
            )));
        }
        if !workdir.exists || !workdir.is_dir {
            return Err(ServiceError::validation(String::from_str("invalid working directory")));
        }
        let id = self.next_id;
        let session_name = match name {
            Some(n) => n,
            None => terminal_title(id),
        };
        let env = match environment {
            Some(d) => d,
            None => StrDict::new(),
        };
        let instance = TerminalInstance {
            session: TerminalSession {
                id,
                name: session_name,
                working_directory,
                environment: env,
                status: TerminalStatus::Inactive,
                created_at: now_ms,
                last_activity: now_ms,
                output_history: Vec::new(),
            },
            has_process: false,
            has_input: false,
            pending_output: Vec::new(),
        };
        let ghost before = self@.terminals;
        let ghost iv = instance@;
        self.terminals.push(instance);
        self.next_id = id + 1;
        proof {
            assert(self@.terminals =~= before.push(iv));
            assert(iv.session.output_history =~= Seq::<TerminalOutputView>::empty());
            assert(iv.pending_output =~= Seq::<TerminalOutputView>::empty());
        }
        Ok(id)
    }

    /// First half of starting a session: checks that the session exists and
    /// is not already `Active`, and returns what to spawn. Nothing changes
    /// until `complete_start` commits a successful spawn; a failed spawn
    /// leaves the session as it was.
    pub fn prepare_start(&self, terminal_id: u64) -> (r: Result<SpawnRequest, ServiceError>)
        requires
            self.wf(),
        ensures
            r.is_ok() <==> (has_terminal(self@.terminals, terminal_id) && !(terminal_of(
                self@.terminals,
                terminal_id,
            ).session.status is Active)),
            match r {
                Ok(req) => {
                    let t = terminal_of(self@.terminals, terminal_id);
                    &&& req.terminal_id == terminal_id
                    &&& req.working_directory@ == t.session.working_directory
                    &&& req.environment@ == t.session.environment
                    &&& req.environment.wf()
                },
                Err(e) => {
                    let has = has_terminal(self@.terminals, terminal_id);
                    &&& (e.kind == ErrorKind::NotFound <==> !has)
                    &&& (e.kind == ErrorKind::Conflict <==> has && terminal_of(
                        self@.terminals,
                        terminal_id,
                    ).session.status is Active)
                },
            },
    {
        let i = match self.position_of_terminal(terminal_id) {
            Some(i) => i,
            None => {
                return Err(ServiceError::not_found(String::from_str("terminal not found")));
            },
        };
        proof {
            lemma_terminal_index_unique(self@.terminals, i as int, terminal_id);
        }
        if matches!(self.terminals[i].session.status, TerminalStatus::Active) {
            return Err(ServiceError::conflict(String::from_str("terminal is already active")));
        }
        Ok(SpawnRequest {
            terminal_id,
            working_directory: self.terminals[i].session.working_directory.clone(),
            environment: self.terminals[i].session.environment.clone(),
        })
    }

    /// Second half of starting a session, called once the shell process and
    /// its pumps are up: marks the session `Active`, records that it owns a
    /// process and an input channel, stamps activity, and appends a `System`
    /// record noting the start directly to history.
    pub fn complete_start(&mut self, terminal_id: u64, now_ms: u64) -> (r: Result<
        (),
        ServiceError,
    >)
        requires
            old(self).wf(),
        ensures
            final(self).wf(),
            final(self)@.max_terminals == old(self)@.max_terminals,
            final(self)@.max_history_size == old(self)@.max_history_size,
            final(self)@.next_id == old(self)@.next_id,
            r.is_ok() <==> (has_terminal(old(self)@.terminals, terminal_id) && !(terminal_of(
                old(self)@.terminals,
                terminal_id,
            ).session.status is Active)),
            match r {
                Ok(_) => {
                    let i = index_of_terminal(old(self)@.terminals, terminal_id);
                    let t = old(self)@.terminals[i];
                    final(self)@.terminals == old(self)@.terminals.update(
                        i,
                        TerminalInstanceView {
                            session: TerminalSessionView {
                                status: TerminalStatus::Active,
                                last_activity: now_ms,
                                output_history: t.session.output_history.push(
                                    TerminalOutputView {
                                        timestamp: now_ms,
                                        content: spec_start_message(terminal_id),
                                        output_type: OutputType::System,
                                    },
                                ),
                                ..t.session
                            },
                            has_process: true,
                            has_input: true,
                            ..t
                        },
                    )
                },
                Err(e) => {
                    let has = has_terminal(old(self)@.terminals, terminal_id);
                    &&& final(self)@ == old(self)@
                    &&& (e.kind == ErrorKind::NotFound <==> !has)
                    &&& (e.kind == ErrorKind::Conflict <==> has && terminal_of(
                        old(self)@.terminals,
                        terminal_id,
                    ).session.status is Active)
                },
            },
    {
        let i = match self.position_of_terminal(terminal_id) {
            Some(i) => i,
            None => {
                return Err(ServiceError::not_found(String::from_str("terminal not found")));
            },
        };
        proof {
            lemma_terminal_index_unique(self@.terminals, i as int, terminal_id);
        }
        if matches!(self.terminals[i].session.status, TerminalStatus::Active) {
            return Err(ServiceError::conflict(String::from_str("terminal is already active")));
        }
        let ghost oldseq = self@.terminals;
        let ghost oldinst = self@.terminals[i as int];
        let msg = TerminalOutput {
            timestamp: now_ms,
            content: start_message(terminal_id),
            output_type: OutputType::System,
        };
        let ghost msgv = msg@;
        let t = &mut self.terminals[i];
        t.session.status = TerminalStatus::Active;
        t.session.last_activity = now_ms;
        t.has_process = true;
        t.has_input = true;
        let ghost histbefore = t.session.output_history@;
        t.session.output_history.push(msg);
        proof {
            assert(outputs_view(t.session.output_history@) =~= outputs_view(histbefore).push(
                msgv,
            ));
        }
        proof {
            assert(self@.terminals =~= oldseq.update(
                i as int,
                TerminalInstanceView {
                    session: TerminalSessionView {
                        status: TerminalStatus::Active,
                        last_activity: now_ms,
                        output_history: oldinst.session.output_history.push(
                            TerminalOutputView {
                                timestamp: now_ms,
                                content: spec_start_message(terminal_id),
                                output_type: OutputType::System,
                            },
                        ),
                        ..oldinst.session
                    },
                    has_process: true,
                    has_input: true,
                    ..oldinst
                },
            ));
        }
        Ok(())
    }

    /// Accepts one command line for an `Active` session with a live input
    /// channel: returns the line to enqueue (the command plus a newline),
    /// appends an `Input` record to history, stamps activity, and enforces
    /// the history cap.
    pub fn send_command(&mut self, terminal_id: u64, command: &str, now_ms: u64) -> (r: Result<
        String,
        ServiceError,
    >)
        requires
            old(self).wf(),
        ensures
            final(self).wf(),
            final(self)@.max_terminals == old(self)@.max_terminals,
            final(self)@.max_history_size == old(self)@.max_history_size,
            final(self)@.next_id == old(self)@.next_id,
            r.is_ok() <==> (has_terminal(old(self)@.terminals, terminal_id) && terminal_of(
                old(self)@.terminals,
                terminal_id,
            ).session.status is Active && terminal_of(
                old(self)@.terminals,
                terminal_id,
            ).has_input),
            match r {
                Ok(line) => {
                    let i = index_of_terminal(old(self)@.terminals, terminal_id);
                    let t = old(self)@.terminals[i];
                    &&& line@ == command@ + seq!['\n']
                    &&& final(self)@.terminals == old(self)@.terminals.update(
                        i,
                        TerminalInstanceView {
                            session: TerminalSessionView {
                                last_activity: now_ms,
                                output_history: spec_cap_history(
                                    t.session.output_history.push(
                                        TerminalOutputView {
                                            timestamp: now_ms,
                                            content: command@,
                                            output_type: OutputType::Input,
                                        },
                                    ),
                                    old(self)@.max_history_size as nat,
                                ),
                                ..t.session
                            },
                            ..t
                        },
                    )
                },
                Err(e) => {
                    let has = has_terminal(old(self)@.terminals, terminal_id);
                    let t = terminal_of(old(self)@.terminals, terminal_id);
                    &&& final(self)@ == old(self)@
                    &&& (e.kind == ErrorKind::NotFound <==> !has)
                    &&& (e.kind == ErrorKind::Conflict <==> has && !(t.session.status is Active))
                    &&& (e.kind == ErrorKind::BackingStore <==> has
                        && t.session.status is Active && !t.has_input)
                },
            },
    {
        let i = match self.position_of_terminal(terminal_id) {
            Some(i) => i,
            None => {
                return Err(ServiceError::not_found(String::from_str("terminal not found")));
            },
        };
        proof {
            lemma_terminal_index_unique(self@.terminals, i as int, terminal_id);
        }
        if !matches!(self.terminals[i].session.status, TerminalStatus::Active) {
            return Err(ServiceError::conflict(String::from_str("terminal is not active")));
        }
        if !self.terminals[i].has_input {
            return Err(ServiceError::backing_store(String::from_str(
                "terminal input channel not available",
            )));
        }
        proof {
            reveal_strlit("\n");
            assert("\n"@ =~= seq!['\n']);
        }
        let mut line = String::from_str(command);
        line.append("\n");
        let record = TerminalOutput {
            timestamp: now_ms,
            content: String::from_str(command),
            output_type: OutputType::Input,
        };
        let ghost recv = record@;
        let ghost oldseq = self@.terminals;
        let ghost oldinst = self@.terminals[i as int];
        let max = self.max_history_size;
        let t = &mut self.terminals[i];
        t.session.last_activity = now_ms;
        let ghost histbefore = t.session.output_history@;
        t.session.output_history.push(record);
        proof {
            assert(outputs_view(t.session.output_history@) =~= outputs_view(histbefore).push(
                recv,
            ));
        }
        enforce_history_cap(&mut t.session.output_history, max);
        proof {
            assert(self@.terminals =~= oldseq.update(
                i as int,
                TerminalInstanceView {
                    session: TerminalSessionView {
                        last_activity: now_ms,
                        output_history: spec_cap_history(
                            oldinst.session.output_history.push(
                                TerminalOutputView {
                                    timestamp: now_ms,
                                    content: command@,
                                    output_type: OutputType::Input,
                                },
                            ),
                            old(self)@.max_history_size as nat,
                        ),
                        ..oldinst.session
                    },
                    ..oldinst
                },
            ));
        }
        Ok(line)
    }

    /// Hands one record read from the child process to the session's output
    /// queue. The caller's output pumps call this, one record per read line;
    /// each record is later delivered to exactly one `get_terminal_output`
    /// caller.
    pub fn push_output(&mut self, terminal_id: u64, output: TerminalOutput) -> (r: Result<
        (),
        ServiceError,
    >)
        requires
            old(self).wf(),
        ensures
            final(self).wf(),
            final(self)@.max_terminals == old(self)@.max_terminals,
            final(self)@.max_history_size == old(self)@.max_history_size,
            final(self)@.next_id == old(self)@.next_id,
            r.is_ok() <==> has_terminal(old(self)@.terminals, terminal_id),
            match r {
                Ok(_) => {
                    let i = index_of_terminal(old(self)@.terminals, terminal_id);
                    let t = old(self)@.terminals[i];
                    final(self)@.terminals == old(self)@.terminals.update(
                        i,
                        TerminalInstanceView {
                            pending_output: t.pending_output.push(output@),
                            ..t
                        },
                    )
                },
                Err(e) => final(self)@ == old(self)@ && e.kind == ErrorKind::NotFound,
            },
    {
        let i = match self.position_of_terminal(terminal_id) {
            Some(i) => i,
            None => {
                return Err(ServiceError::not_found(String::from_str("terminal not found")));
            },
        };
        proof {
            lemma_terminal_index_unique(self@.terminals, i as int, terminal_id);
        }
        let ghost oldseq = self@.terminals;
        let ghost oldinst = self@.terminals[i as int];
        let ghost ov = output@;
        let t = &mut self.terminals[i];
        let ghost pendbefore = t.pending_output@;
        t.pending_output.push(output);
        proof {
            assert(outputs_view(t.pending_output@) =~= outputs_view(pendbefore).push(ov));
            assert(self@.terminals =~= oldseq.update(
                i as int,
                TerminalInstanceView { pending_output: oldinst.pending_output.push(ov), ..oldinst },
            ));
        }
        Ok(())
    }

    /// Drains everything currently queued for the session, without waiting:
    /// the drained records are appended to history (under the cap), activity
    /// is stamped only when something arrived, and exactly the newly drained
    /// records are returned — not the full history.
    pub fn get_terminal_output(&mut self, terminal_id: u64, now_ms: u64) -> (r: Result<
        Vec<TerminalOutput>,
        ServiceError,
    >)
        requires
            old(self).wf(),
        ensures
            final(self).wf(),
            final(self)@.max_terminals == old(self)@.max_terminals,
            final(self)@.max_history_size == old(self)@.max_history_size,
            final(self)@.next_id == old(self)@.next_id,
            r.is_ok() <==> has_terminal(old(self)@.terminals, terminal_id),
            match r {
                Ok(drained) => {
                    let i = index_of_terminal(old(self)@.terminals, terminal_id);
                    let t = old(self)@.terminals[i];
                    &&& outputs_view(drained@) == t.pending_output
                    &&& final(self)@.terminals == old(self)@.terminals.update(
                        i,
                        TerminalInstanceView {
                            session: TerminalSessionView {
                                last_activity: if t.pending_output.len() > 0 {
                                    now_ms
                                } else {
                                    t.session.last_activity
                                },
                                output_history: spec_cap_history(
                                    t.session.output_history + t.pending_output,
                                    old(self)@.max_history_size as nat,
                                ),
                                ..t.session
                            },
                            pending_output: Seq::empty(),
                            ..t
                        },
                    )
                },
                Err(e) => final(self)@ == old(self)@ && e.kind == ErrorKind::NotFound,
            },
    {
        let i = match self.position_of_terminal(terminal_id) {
            Some(i) => i,
            None => {
                return Err(ServiceError::not_found(String::from_str("terminal not found")));
            },
        };
        proof {
            lemma_terminal_index_unique(self@.terminals, i as int, terminal_id);
        }
        let ghost oldseq = self@.terminals;
        let ghost oldinst = self@.terminals[i as int];
        let max = self.max_history_size;
        let t = &mut self.terminals[i];
        let drained = t.pending_output.split_off(0);
        proof {
            assert(outputs_view(drained@) =~= oldinst.pending_output);
            assert(outputs_view(t.pending_output@) =~= Seq::<TerminalOutputView>::empty());
        }
        if drained.len() > 0 {
            t.session.last_activity = now_ms;
        }
        let mut copied = clone_outputs(&drained);
        let ghost histbefore = t.session.output_history@;
        t.session.output_history.append(&mut copied);
        proof {
            assert(outputs_view(t.session.output_history@) =~= outputs_view(histbefore)
                + oldinst.pending_output);
        }
        enforce_history_cap(&mut t.session.output_history, max);
        proof {
            assert(self@.terminals =~= oldseq.update(
                i as int,
                TerminalInstanceView {
                    session: TerminalSessionView {
                        last_activity: if oldinst.pending_output.len() > 0 {
                            now_ms
                        } else {
                            oldinst.session.last_activity
                        },
                        output_history: spec_cap_history(
                            oldinst.session.output_history + oldinst.pending_output,
                            old(self)@.max_history_size as nat,
                        ),
                        ..oldinst.session
                    },
                    pending_output: Seq::empty(),
                    ..oldinst
                },
            ));
        }
        Ok(drained)
    }

    /// The full retained scrollback of a session, unmodified.
    pub fn get_terminal_history(&self, terminal_id: u64) -> (r: Result<
        Vec<TerminalOutput>,
        ServiceError,
    >)
        requires
            self.wf(),
        ensures
            r.is_ok() <==> has_terminal(self@.terminals, terminal_id),
            match r {
                Ok(h) => outputs_view(h@) == terminal_of(
                    self@.terminals,
                    terminal_id,
                ).session.output_history,
                Err(e) => e.kind == ErrorKind::NotFound,
            },
    {
        let i = match self.position_of_terminal(terminal_id) {
            Some(i) => i,
            None => {
                return Err(ServiceError::not_found(String::from_str("terminal not found")));
            },
        };
        proof {
            lemma_terminal_index_unique(self@.terminals, i as int, terminal_id);
        }
        Ok(clone_outputs(&self.terminals[i].session.output_history))
    }

    /// Closes a session: marks it `Closed`, stamps activity, appends a
    /// `System` record noting the close, gives up ownership of the child
    /// process and asks the caller to terminate it (outside any lock).
    /// Idempotent: closing an already-`Closed` session succeeds again and
    /// leaves it `Closed`, with no process left to kill.
    pub fn close_terminal(&mut self, terminal_id: u64, now_ms: u64) -> (r: Result<
        CloseAction,
        ServiceError,
    >)
        requires
            old(self).wf(),
        ensures
            final(self).wf(),
            final(self)@.max_terminals == old(self)@.max_terminals,
            final(self)@.max_history_size == old(self)@.max_history_size,
            final(self)@.next_id == old(self)@.next_id,
            r.is_ok() <==> has_terminal(old(self)@.terminals, terminal_id),
            match r {
                Ok(a) => {
                    let i = index_of_terminal(old(self)@.terminals, terminal_id);
                    let t = old(self)@.terminals[i];
                    &&& a.kill_process == t.has_process
                    &&& final(self)@.terminals == old(self)@.terminals.update(
                        i,
                        TerminalInstanceView {
                            session: TerminalSessionView {
                                status: TerminalStatus::Closed,
                                last_activity: now_ms,
                                output_history: t.session.output_history.push(
                                    TerminalOutputView {
                                        timestamp: now_ms,
                                        content: spec_close_message(terminal_id),
                                        output_type: OutputType::System,
                                    },
                                ),
                                ..t.session
                            },
                            has_process: false,
                            ..t
                        },
                    )
                },
                Err(e) => final(self)@ == old(self)@ && e.kind == ErrorKind::NotFound,
            },
    {
        let i = match self.position_of_terminal(terminal_id) {
            Some(i) => i,
            None => {
                return Err(ServiceError::not_found(String::from_str("terminal not found")));
            },
        };
        proof {
            lemma_terminal_index_unique(self@.terminals, i as int, terminal_id);
        }
        let ghost oldseq = self@.terminals;
        let ghost oldinst = self@.terminals[i as int];
        let msg = TerminalOutput {
            timestamp: now_ms,
            content: close_message(terminal_id),
            output_type: OutputType::System,
        };
        let ghost msgv = msg@;
        let t = &mut self.terminals[i];
        let kill_process = t.has_process;
        t.has_process = false;
        t.session.status = TerminalStatus::Closed;
        t.session.last_activity = now_ms;
        let ghost histbefore = t.session.output_history@;
        t.session.output_history.push(msg);
        proof {
            assert(outputs_view(t.session.output_history@) =~= outputs_view(histbefore).push(
                msgv,
            ));
            assert(self@.terminals =~= oldseq.update(
                i as int,
                TerminalInstanceView {
                    session: TerminalSessionView {
                        status: TerminalStatus::Closed,
                        last_activity: now_ms,
                        output_history: oldinst.session.output_history.push(
                            TerminalOutputView {
                                timestamp: now_ms,
                                content: spec_close_message(terminal_id),
                                output_type: OutputType::System,
                            },
                        ),
                        ..oldinst.session
                    },
                    has_process: false,
                    ..oldinst
                },
            ));
        }
        Ok(CloseAction { kill_process })
    }

    /// The session record of one session, if tracked.
    pub fn get_terminal_session(&self, terminal_id: u64) -> (r: Option<TerminalSession>)
        requires
            self.wf(),
        ensures
            match r {
                Some(s) => {
                    &&& has_terminal(self@.terminals, terminal_id)
                    &&& s@ == terminal_of(self@.terminals, terminal_id).session
                    &&& s.environment.wf()
                },
                None => !has_terminal(self@.terminals, terminal_id),
            },
    {
        match self.position_of_terminal(terminal_id) {
            Some(i) => {
                proof {
                    lemma_terminal_index_unique(self@.terminals, i as int, terminal_id);
                }
                Some(self.terminals[i].session.clone())
            },
            None => None,
        }
    }

    /// The session records of all tracked sessions, in tracking order.
    pub fn get_all_terminals(&self) -> (r: Vec<TerminalSession>)
        requires
            self.wf(),
        ensures
            r@.len() == self@.terminals.len(),
            forall|i: int|
                0 <= i < r@.len() ==> #[trigger] r@[i]@ == self@.terminals[i].session
                    && r@[i].environment.wf(),
    {
        let mut r: Vec<TerminalSession> = Vec::new();
        let mut i: usize = 0;
        while i < self.terminals.len()
            invariant
                self.wf(),
                0 <= i <= self.terminals@.len(),
                self@.terminals.len() == self.terminals@.len(),
                r@.len() == i,
                forall|j: int|
                    0 <= j < i ==> #[trigger] r@[j]@ == self@.terminals[j].session
                        && r@[j].environment.wf(),
            decreases self.terminals@.len() - i,
        {
            let ghost before = r@;
            let c = self.terminals[i].session.clone();
            r.push(c);
            proof {
                assert(r@ == before.push(c));
            }
            i += 1;
        }
        r
    }

    /// Purges every `Closed` session from the registry, making room under
    /// the session cap; all other sessions stay, in order.
    pub fn cleanup_closed_terminals(&mut self)
        requires
            old(self).wf(),
        ensures
            final(self).wf(),
            final(self)@.max_terminals == old(self)@.max_terminals,
            final(self)@.max_history_size == old(self)@.max_history_size,
            final(self)@.next_id == old(self)@.next_id,
            final(self)@.terminals == retained_terminals(old(self)@.terminals),
    {
        let ghost orig = self@.terminals;
        let mut kept: Vec<TerminalInstance> = Vec::new();
        let mut i: usize = 0;
        while i < self.terminals.len()
            invariant
                old(self).wf(),
                self@ == old(self)@,
                0 <= i <= self.terminals@.len(),
                self@.terminals.len() == self.terminals@.len(),
                outputs_view(Seq::<TerminalOutput>::empty()) == Seq::<
                    TerminalOutputView,
                >::empty(),
                kept@.map_values(|t: TerminalInstance| t@) == retained_terminals(
                    self@.terminals.take(i as int),
                ),
                forall|j: int|
                    0 <= j < kept@.len() ==> (#[trigger] kept@[j]).session.environment.wf(),
            decreases self.terminals@.len() - i,
        {
            proof {
                assert(self@.terminals.take(i + 1).drop_last() =~= self@.terminals.take(i as int));
                assert(self@.terminals.take(i + 1).last() == self@.terminals[i as int]);
            }
            if !matches!(self.terminals[i].session.status, TerminalStatus::Closed) {
                let ghost before = kept@;
                let c = self.terminals[i].clone();
                kept.push(c);
                proof {
                    assert(kept@ == before.push(c));
                    assert(kept@.map_values(|t: TerminalInstance| t@) =~= retained_terminals(
                        self@.terminals.take(i + 1),
                    ));
                }
            }
            i += 1;
        }
        proof {
            assert(self@.terminals.take(self.terminals@.len() as int) =~= self@.terminals);
            lemma_retained_terminals_props(old(self)@.terminals);
        }
        self.terminals = kept;
        proof {
            assert(self@.terminals == retained_terminals(old(self)@.terminals));
            assert forall|i: int|
                0 <= i < self@.terminals.len() implies #[trigger] self@.terminals[i].session.id
                < self@.next_id by {
                let j = choose|j: int|
                    0 <= j < old(self)@.terminals.len() && old(self)@.terminals[j]
                        == retained_terminals(old(self)@.terminals)[i];
                assert(old(self)@.terminals[j].session.id < old(self)@.next_id);
            }
        }
    }

    /// Renames a session; a plain metadata edit that also stamps activity.
    pub fn set_terminal_name(&mut self, terminal_id: u64, name: String, now_ms: u64) -> (r: Result<
        (),
        ServiceError,
    >)
        requires
            old(self).wf(),
        ensures
            final(self).wf(),
            final(self)@.max_terminals == old(self)@.max_terminals,
            final(self)@.max_history_size == old(self)@.max_history_size,
            final(self)@.next_id == old(self)@.next_id,
            r.is_ok() <==> has_terminal(old(self)@.terminals, terminal_id),
            match r {
                Ok(_) => {
                    let i = index_of_terminal(old(self)@.terminals, terminal_id);
                    let t = old(self)@.terminals[i];
                    final(self)@.terminals == old(self)@.terminals.update(
                        i,
                        TerminalInstanceView {
                            session: TerminalSessionView {
                                name: name@,
                                last_activity: now_ms,
                                ..t.session
                            },
                            ..t
                        },
                    )
                },
                Err(e) => final(self)@ == old(self)@ && e.kind == ErrorKind::NotFound,
            },
    {
        let i = match self.position_of_terminal(terminal_id) {
            Some(i) => i,
            None => {
                return Err(ServiceError::not_found(String::from_str("terminal not found")));
            },
        };
        proof {
            lemma_terminal_index_unique(self@.terminals, i as int, terminal_id);
        }
        let ghost oldseq = self@.terminals;
        let ghost oldinst = self@.terminals[i as int];
        let t = &mut self.terminals[i];
        t.session.name = name;
        t.session.last_activity = now_ms;
        proof {
            assert(self@.terminals =~= oldseq.update(
                i as int,
                TerminalInstanceView {
                    session: TerminalSessionView {
                        name: final(t).session.name@,
                        last_activity: now_ms,
                        ..oldinst.session
                    },
                    ..oldinst
                },
            ));
        }
        Ok(())
    }
}

/// The sessions that survive a cleanup: everything not `Closed`, in order.
pub open spec fn retained_terminals(s: Seq<TerminalInstanceView>) -> Seq<TerminalInstanceView>
    decreases s.len(),
{
    if s.len() == 0 {
        Seq::empty()
    } else {
        retained_terminals(s.drop_last()) + (if s.last().session.status is Closed {
            Seq::empty()
        } else {
            seq![s.last()]
        })
    }
}

/// What survives a cleanup is a subsequence of what was tracked: every
/// survivor was tracked, and distinct ids stay distinct.
proof fn lemma_retained_terminals_props(s: Seq<TerminalInstanceView>)
    ensures
        retained_terminals(s).len() <= s.len(),
        forall|i: int|
            #![trigger retained_terminals(s)[i]]
            0 <= i < retained_terminals(s).len() ==> exists|j: int|
                0 <= j < s.len() && s[j] == retained_terminals(s)[i],
        (forall|a: int, b: int| 0 <= a < b < s.len() ==> s[a].session.id != s[b].session.id)
            ==> (forall|a: int, b: int|
            0 <= a < b < retained_terminals(s).len() ==> retained_terminals(s)[a].session.id
                != retained_terminals(s)[b].session.id),
    decreases s.len(),
{
    if s.len() > 0 {
        let d = s.drop_last();
        lemma_retained_terminals_props(d);
        let r = retained_terminals(s);
        let rd = retained_terminals(d);
        assert forall|i: int|
            #![trigger r[i]]
            0 <= i < r.len() implies exists|j: int| 0 <= j < s.len() && s[j] == r[i] by {
            if i < rd.len() {
                assert(r[i] == rd[i]);
                let j = choose|j: int| 0 <= j < d.len() && d[j] == rd[i];
                assert(s[j] == r[i]);
            } else {
                assert(r[i] == s.last());
                assert(s[s.len() - 1] == r[i]);
            }
        }
        if forall|a: int, b: int| 0 <= a < b < s.len() ==> s[a].session.id != s[b].session.id {
            assert forall|a: int, b: int| 0 <= a < b < d.len() implies d[a].session.id
                != d[b].session.id by {
                assert(d[a] == s[a]);
                assert(d[b] == s[b]);
            }
            assert forall|a: int, b: int| 0 <= a < b < r.len() implies r[a].session.id
                != r[b].session.id by {
                if b < rd.len() {
                    assert(rd[a].session.id != rd[b].session.id);
                } else {
                    assert(r[b] == s.last());
                    let j = choose|j: int| 0 <= j < d.len() && d[j] == rd[a];
                    assert(r[a] == s[j]);
                    assert(s[j].session.id != s[s.len() - 1].session.id);
                }
            }
        }
    }
}

/// Accepts a one-shot command exactly when its working directory exists and
/// is a directory; checked before any process is spawned.
pub fn validate_command(execution: &CommandExecution, workdir: DirProbe) -> (r: Result<
    (),
    ServiceError,
>)
    ensures
        r.is_ok() <==> workdir.ok(),
        match r {
            Ok(_) => true,
            Err(e) => e.kind == ErrorKind::Validation,
        },
{
    if !workdir.exists || !workdir.is_dir {
        return Err(ServiceError::validation(String::from_str("invalid working directory")));
    }
    Ok(())
}

/// The single record a one-shot command reports: its captured standard
/// output tagged `Stdout` on success, else its captured standard error
/// tagged `Stderr`.
pub fn command_output_record(outcome: ProcessOutcome, now_ms: u64) -> (r: TerminalOutput)
    ensures
        r@.timestamp == now_ms,
        outcome.success ==> r@.output_type == OutputType::Stdout && r@.content == outcome.stdout@,
        !outcome.success ==> r@.output_type == OutputType::Stderr && r@.content == outcome.stderr@,
{
    if outcome.success {
        TerminalOutput {
            timestamp: now_ms,
            content: outcome.stdout,
            output_type: OutputType::Stdout,
        }
    } else {
        TerminalOutput {
            timestamp: now_ms,
            content: outcome.stderr,
            output_type: OutputType::Stderr,
        }
    }
}

} // verus!
