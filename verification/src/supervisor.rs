//! Engine processes: which ones are tracked, what they printed last and how they end.
use vstd::prelude::*;
use vstd::string::*;
use vstd::utf8::{decode_utf8, valid_utf8};

use crate::duplicate::{duplicate_list, duplicate_option, lemma_views_push, optional, views, Duplicate};
use crate::outside::{is_hyphenated, lossy_text, random_identifier, text_from_utf8_lossy};
use crate::table::{ordered, Table};
use crate::text::{cat2, cat3, chars_of, decimal, decimal_text, join, joined, text_between};

verus! {

/// How many of its last lines are kept of a process.
pub const LOG_TAIL_LINES: usize = 80;

/// How many bytes of a line are kept.
pub const LOG_LINE_LIMIT: usize = 4096;

/// How long a process may take to end by itself, in milliseconds.
pub const DEFAULT_TERMINATION_TIMEOUT: u64 = 8000;

/// What went wrong in an engine.
#[derive(Debug)]
pub enum EngineError {
    Operation(String),
    TimedOut(String),
    BackendUnavailable(String),
    InvalidGenerationSettings(String),
    Other(String),
}

#[verifier::ext_equal]
pub enum EngineErrorView {
    Operation(Seq<char>),
    TimedOut(Seq<char>),
    BackendUnavailable(Seq<char>),
    InvalidGenerationSettings(Seq<char>),
    Other(Seq<char>),
}

impl View for EngineError {
    type V = EngineErrorView;

    open spec fn view(&self) -> EngineErrorView {
        match self {
            EngineError::Operation(detail) => EngineErrorView::Operation(detail@),
            EngineError::TimedOut(detail) => EngineErrorView::TimedOut(detail@),
            EngineError::BackendUnavailable(detail) => EngineErrorView::BackendUnavailable(detail@),
            EngineError::InvalidGenerationSettings(detail) => {
                EngineErrorView::InvalidGenerationSettings(detail@)
            },
            EngineError::Other(detail) => EngineErrorView::Other(detail@),
        }
    }
}

impl EngineErrorView {
    pub open spec fn text(self) -> Seq<char> {
        match self {
            EngineErrorView::Operation(detail) => detail,
            EngineErrorView::TimedOut(detail) => detail,
            EngineErrorView::BackendUnavailable(detail) => detail,
            EngineErrorView::InvalidGenerationSettings(detail) => detail,
            EngineErrorView::Other(detail) => detail,
        }
    }
}

impl EngineError {
    pub fn message(&self) -> (result: String)
        ensures
            result@ == self@.text(),
    {
        match self {
            EngineError::Operation(detail) => detail.clone(),
            EngineError::TimedOut(detail) => detail.clone(),
            EngineError::BackendUnavailable(detail) => detail.clone(),
            EngineError::InvalidGenerationSettings(detail) => detail.clone(),
            EngineError::Other(detail) => detail.clone(),
        }
    }
}

/// What a short-lived engine command did.
#[derive(Debug)]
pub struct CapturedCommand {
    pub success: bool,
    pub code: Option<i32>,
    pub stdout: String,
    pub stderr: String,
}

/// The result of a command from its exit and its raw output, which is read as text and trimmed.
pub fn captured_command(success: bool, code: Option<i32>, stdout: &[u8], stderr: &[u8]) -> (result:
    CapturedCommand)
    ensures
        result.success == success,
        result.code == code,
        result.stdout@ == crate::text::trimmed(lossy_text(stdout@)),
        result.stderr@ == crate::text::trimmed(lossy_text(stderr@)),
{
    let out = text_from_utf8_lossy(stdout);
    let err = text_from_utf8_lossy(stderr);
    CapturedCommand {
        success,
        code,
        stdout: crate::text::trim(out.as_str()),
        stderr: crate::text::trim(err.as_str()),
    }
}

/// A process that was started, and what it was started for.
#[derive(Debug)]
pub struct ProcessDescriptor {
    pub supervisor_id: String,
    pub process_id: u32,
    pub engine_id: String,
    pub runtime_id: String,
    pub runtime_version: String,
    pub runtime_variant: String,
    pub runtime_executable_sha256: String,
    pub model_id: String,
    pub endpoint: Option<String>,
    pub launched_at_unix: i64,
}

#[verifier::ext_equal]
pub struct ProcessView {
    pub supervisor_id: Seq<char>,
    pub process_id: u32,
    pub engine_id: Seq<char>,
    pub runtime_id: Seq<char>,
    pub runtime_version: Seq<char>,
    pub runtime_variant: Seq<char>,
    pub runtime_executable_sha256: Seq<char>,
    pub model_id: Seq<char>,
    pub endpoint: Option<Seq<char>>,
    pub launched_at_unix: i64,
}

impl View for ProcessDescriptor {
    type V = ProcessView;

    open spec fn view(&self) -> ProcessView {
        ProcessView {
            supervisor_id: self.supervisor_id@,
            process_id: self.process_id,
            engine_id: self.engine_id@,
            runtime_id: self.runtime_id@,
            runtime_version: self.runtime_version@,
            runtime_variant: self.runtime_variant@,
            runtime_executable_sha256: self.runtime_executable_sha256@,
            model_id: self.model_id@,
            endpoint: optional(self.endpoint),
            launched_at_unix: self.launched_at_unix,
        }
    }
}

impl Duplicate for ProcessDescriptor {
    fn duplicate(&self) -> (result: ProcessDescriptor) {
        ProcessDescriptor {
            supervisor_id: self.supervisor_id.clone(),
            process_id: self.process_id,
            engine_id: self.engine_id.clone(),
            runtime_id: self.runtime_id.clone(),
            runtime_version: self.runtime_version.clone(),
            runtime_variant: self.runtime_variant.clone(),
            runtime_executable_sha256: self.runtime_executable_sha256.clone(),
            model_id: self.model_id.clone(),
            endpoint: duplicate_option(&self.endpoint),
            launched_at_unix: self.launched_at_unix,
        }
    }
}

impl ProcessDescriptor {
    /// The descriptor of a new process under a fresh identifier. Which identifier is chance.
    pub fn identified(self) -> (result: ProcessDescriptor)
        ensures
            is_hyphenated(result.supervisor_id@),
            result@ == (ProcessView { supervisor_id: result.supervisor_id@, ..self@ }),
    {
        let mut result = self;
        result.supervisor_id = random_identifier();
        result
    }
}

/// How a process ended.
#[derive(Debug)]
pub struct ProcessExit {
    pub process_id: u32,
    pub success: bool,
    pub code: Option<i32>,
    pub expected: bool,
    pub detail: String,
    pub stderr_tail: Vec<String>,
}

#[verifier::ext_equal]
pub struct ExitView {
    pub process_id: u32,
    pub success: bool,
    pub code: Option<i32>,
    pub expected: bool,
    pub detail: Seq<char>,
    pub stderr_tail: Seq<Seq<char>>,
}

impl View for ProcessExit {
    type V = ExitView;

    open spec fn view(&self) -> ExitView {
        ExitView {
            process_id: self.process_id,
            success: self.success,
            code: self.code,
            expected: self.expected,
            detail: self.detail@,
            stderr_tail: views(self.stderr_tail@),
        }
    }
}

/// A signed number in decimal.
pub open spec fn signed_decimal(n: int) -> Seq<char> {
    if n < 0 {
        "-"@ + decimal((-n) as nat)
    } else {
        decimal(n as nat)
    }
}

pub fn signed_text(n: i64) -> (result: String)
    ensures
        result@ == signed_decimal(n as int),
{
    if n < 0 {
        let size: u64 = if n == i64::MIN {
            9_223_372_036_854_775_808
        } else {
            (-n) as u64
        };
        let digits = decimal_text(size);
        cat2("-", digits.as_str())
    } else {
        decimal_text(n as u64)
    }
}

/// What waiting for a process gave.
pub enum WaitOutcome {
    Exited { success: bool, code: Option<i32> },
    Failed(String),
}

impl WaitOutcome {
    pub open spec fn detail_text(self) -> Seq<char> {
        match self {
            WaitOutcome::Exited { code: Some(code), .. } => "process exited with code "@
                + signed_decimal(code as int),
            WaitOutcome::Exited { code: None, .. } => "process exited without an exit code"@,
            WaitOutcome::Failed(error) => "could not wait for process exit: "@ + error@,
        }
    }
}

/// The record of an end, and what whoever asked for it is told: an error only where an end was
/// asked for and waiting for it failed.
pub fn exit_record(
    process_id: u32,
    outcome: WaitOutcome,
    expected: bool,
    stderr_tail: Vec<String>,
) -> (result: (ProcessExit, Result<(), String>))
    ensures
        result.0@ == (ExitView {
            process_id,
            success: outcome matches WaitOutcome::Exited { success, .. } && success,
            code: match outcome {
                WaitOutcome::Exited { code, .. } => code,
                WaitOutcome::Failed(_) => None,
            },
            expected,
            detail: outcome.detail_text(),
            stderr_tail: views(stderr_tail@),
        }),
        match result.1 {
            Ok(()) => !(expected && outcome is Failed),
            Err(detail) => expected && outcome is Failed && detail@ == outcome.detail_text(),
        },
{
    let (failed, success, code, detail) = match outcome {
        WaitOutcome::Exited { success, code } => {
            let detail = match code {
                Some(code) => {
                    let number = signed_text(code as i64);
                    cat2("process exited with code ", number.as_str())
                },
                None => "process exited without an exit code".to_owned(),
            };
            (false, success, code, detail)
        },
        WaitOutcome::Failed(error) => (
            true,
            false,
            None,
            cat2("could not wait for process exit: ", error.as_str()),
        ),
    };
    let told = if expected && failed {
        Err(detail.clone())
    } else {
        Ok(())
    };
    (ProcessExit { process_id, success, code, expected, detail, stderr_tail }, told)
}

/// The text of an end: its detail, with the last lines of the error output behind it.
pub open spec fn exit_text(exit: ExitView) -> Seq<char> {
    if exit.stderr_tail.len() == 0 {
        exit.detail
    } else {
        exit.detail + "; "@ + joined(exit.stderr_tail, " | "@)
    }
}

pub fn exit_detail(exit: &ProcessExit) -> (result: String)
    ensures
        result@ == exit_text(exit@),
{
    if exit.stderr_tail.len() == 0 {
        exit.detail.clone()
    } else {
        let tail = join(&exit.stderr_tail, " | ");
        cat3(exit.detail.as_str(), "; ", tail.as_str())
    }
}

/// A text without the carriage returns at its end.
pub open spec fn without_returns(text: Seq<char>) -> Seq<char>
    decreases text.len(),
{
    if text.len() > 0 && text.last() == '\r' {
        without_returns(text.drop_last())
    } else {
        text
    }
}

pub fn trim_returns(text: &str) -> (result: String)
    ensures
        result@ == without_returns(text@),
{
    let x = chars_of(text);
    let mut to: usize = x.len();
    proof {
        assert(x@.subrange(0, to as int) =~= x@);
    }
    while to > 0 && x[to - 1] == '\r'
        invariant
            to <= x.len(),
            x@ == text@,
            without_returns(text@) == without_returns(x@.subrange(0, to as int)),
        decreases to,
    {
        proof {
            assert(x@.subrange(0, to as int).drop_last() =~= x@.subrange(0, to - 1));
        }
        to -= 1;
    }
    text_between(&x, 0, to)
}

/// Lines with one more behind them, the oldest gone where there would be too many.
pub open spec fn with_line(tail: Seq<Seq<char>>, line: Seq<char>) -> Seq<Seq<char>> {
    if tail.len() == LOG_TAIL_LINES {
        tail.skip(1).push(line)
    } else {
        tail.push(line)
    }
}

/// Takes a line of raw output into the tail.
pub fn record_log_line(tail: &mut Vec<String>, bytes: &[u8])
    ensures
        views(final(tail)@) == with_line(
            views(old(tail)@),
            without_returns(lossy_text(bytes@)),
        ),
{
    let raw = text_from_utf8_lossy(bytes);
    let line = trim_returns(raw.as_str());
    let ghost before = tail@;
    if tail.len() == LOG_TAIL_LINES {
        let _ = tail.remove(0);
        proof {
            assert(views(tail@) =~= views(before).skip(1));
        }
    }
    let ghost middle = tail@;
    tail.push(line);
    proof {
        assert(views(tail@) =~= views(middle).push(line@));
    }
}

/// The lines that some bytes complete, and the bytes of the line that is not complete yet. Of a
/// line no more than its first bytes are kept.
pub open spec fn drained(pending: Seq<u8>, bytes: Seq<u8>) -> (Seq<Seq<u8>>, Seq<u8>)
    decreases bytes.len(),
{
    if bytes.len() == 0 {
        (Seq::empty(), pending)
    } else if bytes[0] == 10 {
        let rest = drained(Seq::empty(), bytes.skip(1));
        (seq![pending] + rest.0, rest.1)
    } else if pending.len() < LOG_LINE_LIMIT {
        drained(pending.push(bytes[0]), bytes.skip(1))
    } else {
        drained(pending, bytes.skip(1))
    }
}

/// A tail after some raw lines.
pub open spec fn with_lines(tail: Seq<Seq<char>>, lines: Seq<Seq<u8>>) -> Seq<Seq<char>>
    decreases lines.len(),
{
    if lines.len() == 0 {
        tail
    } else {
        with_lines(with_line(tail, without_returns(lossy_text(lines[0]))), lines.skip(1))
    }
}

/// Output of one stream on its way into lines.
pub struct LineDrain {
    pending: Vec<u8>,
    tail: Vec<String>,
}

impl LineDrain {
    pub closed spec fn pending_bytes(&self) -> Seq<u8> {
        self.pending@
    }

    pub closed spec fn lines(&self) -> Seq<Seq<char>> {
        views(self.tail@)
    }

    /// Neither more lines nor longer ones than are kept.
    pub open spec fn wf(&self) -> bool {
        self.lines().len() <= LOG_TAIL_LINES && self.pending_bytes().len() <= LOG_LINE_LIMIT
    }

    pub fn new() -> (result: LineDrain)
        ensures
            result.wf(),
            result.pending_bytes() == Seq::<u8>::empty(),
            result.lines() == Seq::<Seq<char>>::empty(),
    {
        let result = LineDrain { pending: Vec::new(), tail: Vec::new() };
        proof {
            assert(views(result.tail@) =~= Seq::<Seq<char>>::empty());
        }
        result
    }

    /// Takes in a piece of output.
    pub fn feed(&mut self, bytes: &[u8])
        requires
            old(self).wf(),
        ensures
            final(self).wf(),
            final(self).pending_bytes() == drained(old(self).pending_bytes(), bytes@).1,
            final(self).lines() == with_lines(
                old(self).lines(),
                drained(old(self).pending_bytes(), bytes@).0,
            ),
    {
        let mut i: usize = 0;
        let ghost all = drained(self.pending_bytes(), bytes@);
        let ghost start = self.lines();
        proof {
            assert(bytes@.skip(0) =~= bytes@);
        }
        while i < bytes.len()
            invariant
                i <= bytes.len(),
                self.wf(),
                all.1 == drained(self.pending_bytes(), bytes@.skip(i as int)).1,
                with_lines(start, all.0) == with_lines(
                    self.lines(),
                    drained(self.pending_bytes(), bytes@.skip(i as int)).0,
                ),
            decreases bytes.len() - i,
        {
            let byte: u8 = bytes[i];
            proof {
                assert(bytes@.skip(i as int).skip(1) =~= bytes@.skip(i + 1));
            }
            if byte == 10 {
                let ghost rest = drained(Seq::empty(), bytes@.skip(i + 1));
                let ghost whole = drained(self.pending_bytes(), bytes@.skip(i as int));
                proof {
                    assert(whole.0 =~= seq![self.pending@] + rest.0);
                    assert(whole.0.skip(1) =~= rest.0);
                }
                record_log_line(&mut self.tail, self.pending.as_slice());
                self.pending.clear();
            } else if self.pending.len() < LOG_LINE_LIMIT {
                self.pending.push(byte);
            }
            i += 1;
        }
        proof {
            assert(bytes@.skip(i as int) =~= Seq::<u8>::empty());
        }
    }

    /// The stream has ended: what is pending is its last line.
    pub fn finish(&mut self)
        requires
            old(self).wf(),
        ensures
            final(self).wf(),
            final(self).pending_bytes() == Seq::<u8>::empty(),
            final(self).lines() == if old(self).pending_bytes().len() == 0 {
                old(self).lines()
            } else {
                with_line(old(self).lines(), without_returns(lossy_text(old(self).pending_bytes())))
            },
    {
        if self.pending.len() != 0 {
            record_log_line(&mut self.tail, self.pending.as_slice());
            self.pending.clear();
        } else {
            proof {
                assert(self.pending@ =~= Seq::<u8>::empty());
            }
        }
    }

    /// The last lines, oldest first.
    pub fn snapshot(&self) -> (result: Vec<String>)
        ensures
            views(result@) == self.lines(),
    {
        duplicate_list(&self.tail)
    }
}

/// Feeding output in two pieces is feeding it at once.
pub proof fn law_drain_in_pieces(pending: Seq<u8>, a: Seq<u8>, b: Seq<u8>)
    ensures
        drained(pending, a + b).1 == drained(drained(pending, a).1, b).1,
        drained(pending, a + b).0 == drained(pending, a).0 + drained(drained(pending, a).1, b).0,
    decreases a.len(),
{
    if a.len() == 0 {
        assert(a + b =~= b);
        assert(drained(pending, a).0 + drained(pending, b).0 =~= drained(pending, b).0);
    } else {
        assert((a + b).skip(1) =~= a.skip(1) + b);
        assert((a + b)[0] == a[0]);
        if a[0] == 10 {
            law_drain_in_pieces(Seq::empty(), a.skip(1), b);
            let rest = drained(Seq::empty(), a.skip(1));
            assert(seq![pending] + (rest.0 + drained(rest.1, b).0) =~= (seq![pending] + rest.0)
                + drained(rest.1, b).0);
        } else if pending.len() < LOG_LINE_LIMIT {
            law_drain_in_pieces(pending.push(a[0]), a.skip(1), b);
        } else {
            law_drain_in_pieces(pending, a.skip(1), b);
        }
    }
}

/// A process that the supervisor tracks.
pub struct ManagedProcess {
    pub descriptor: ProcessDescriptor,
    pub exited: bool,
}

#[verifier::ext_equal]
pub struct ManagedProcessView {
    pub descriptor: ProcessView,
    pub exited: bool,
}

impl View for ManagedProcess {
    type V = ManagedProcessView;

    open spec fn view(&self) -> ManagedProcessView {
        ManagedProcessView { descriptor: self.descriptor@, exited: self.exited }
    }
}

/// The processes that are tracked, by their supervisor identifiers.
pub struct ProcessTable {
    processes: Table<ManagedProcess>,
}

impl View for ProcessTable {
    type V = Map<Seq<char>, ManagedProcessView>;

    closed spec fn view(&self) -> Map<Seq<char>, ManagedProcessView> {
        self.processes@
    }
}

/// The processes that have not exited.
pub open spec fn alive(processes: Map<Seq<char>, ManagedProcessView>) -> Map<
    Seq<char>,
    ManagedProcessView,
> {
    Map::new(
        |id: Seq<char>| processes.dom().contains(id) && !processes[id].exited,
        |id: Seq<char>| processes[id],
    )
}

/// Whether a descriptor names a tracked process: same identifier and same process number.
pub open spec fn names_tracked(
    processes: Map<Seq<char>, ManagedProcessView>,
    process: ProcessView,
) -> bool {
    processes.dom().contains(process.supervisor_id)
        && processes[process.supervisor_id].descriptor.process_id == process.process_id
}

impl ProcessTable {
    pub fn new() -> (result: ProcessTable)
        ensures
            result@ == Map::<Seq<char>, ManagedProcessView>::empty(),
    {
        ProcessTable { processes: Table::new() }
    }

    /// Forgets the processes that have exited.
    pub fn forget_exited(&mut self)
        ensures
            final(self)@ == alive(old(self)@),
    {
        let ghost before = self@;
        let mut kept: Table<ManagedProcess> = Table::new();
        let mut i: usize = 0;
        let count: usize = self.processes.len();
        let ghost keys = self.processes.keys();
        proof {
            assert(kept@ =~= Map::new(
                |id: Seq<char>| keys.take(0).contains(id) && !before[id].exited,
                |id: Seq<char>| before[id],
            ));
        }
        while i < count
            invariant
                i <= count,
                count == keys.len(),
                keys == self.processes.keys(),
                before == self.processes@,
                keys.to_set() == before.dom(),
                kept@ == Map::new(
                    |id: Seq<char>| keys.take(i as int).contains(id) && !before[id].exited,
                    |id: Seq<char>| before[id],
                ),
            decreases keys.len() - i,
        {
            let process = self.processes.value_at(i);
            proof {
                assert(keys.take(i + 1) =~= keys.take(i as int).push(keys[i as int]));
                assert forall|id: Seq<char>| keys.take(i + 1).contains(id) == (keys.take(
                    i as int,
                ).contains(id) || id == keys[i as int]) by {
                    if keys.take(i as int).contains(id) {
                        let k = keys.take(i as int).index_of(id);
                        assert(keys.take(i + 1)[k] == id);
                    }
                    if id == keys[i as int] {
                        assert(keys.take(i + 1)[i as int] == id);
                    }
                    if keys.take(i + 1).contains(id) && id != keys[i as int] {
                        let k = keys.take(i + 1).index_of(id);
                        assert(keys.take(i as int)[k] == id);
                    }
                }
            }
            let ghost was = kept@;
            if !process.exited {
                let id = self.processes.key_at(i).clone();
                let copy = ManagedProcess {
                    descriptor: process.descriptor.duplicate(),
                    exited: process.exited,
                };
                kept.insert(id, copy);
            }
            proof {
                assert(kept@ =~= Map::new(
                    |id: Seq<char>| keys.take(i + 1).contains(id) && !before[id].exited,
                    |id: Seq<char>| before[id],
                ));
            }
            i += 1;
        }
        proof {
            assert(keys.take(i as int) =~= keys);
            assert forall|id: Seq<char>| keys.contains(id) == before.dom().contains(id) by {
                assert(keys.to_set().contains(id) == keys.contains(id));
            }
            assert(kept@ =~= alive(before));
        }
        self.processes = kept;
    }

    /// Tracks a process that was just started.
    pub fn track(&mut self, descriptor: &ProcessDescriptor)
        ensures
            final(self)@ == old(self)@.insert(
                descriptor.supervisor_id@,
                ManagedProcessView { descriptor: descriptor@, exited: false },
            ),
    {
        let process = ManagedProcess { descriptor: descriptor.duplicate(), exited: false };
        self.processes.insert(descriptor.supervisor_id.clone(), process);
    }

    /// Records that a process has exited.
    pub fn record_exit(&mut self, supervisor_id: &str)
        ensures
            final(self)@ == if old(self)@.dom().contains(supervisor_id@) {
                old(self)@.insert(
                    supervisor_id@,
                    ManagedProcessView { exited: true, ..old(self)@[supervisor_id@] },
                )
            } else {
                old(self)@
            },
    {
        let ghost before = self@;
        match self.processes.remove(supervisor_id) {
            Some(mut process) => {
                process.exited = true;
                self.processes.insert(supervisor_id.to_owned(), process);
                proof {
                    assert(self@ =~= before.insert(
                        supervisor_id@,
                        ManagedProcessView { exited: true, ..before[supervisor_id@] },
                    ));
                }
            },
            None => {
                proof {
                    assert(self@ =~= before);
                }
            },
        }
    }

    /// Whether a process that is to be ended or watched is the one that is tracked, and whether it
    /// has exited already.
    pub fn find(&self, process: &ProcessDescriptor) -> (result: Result<bool, EngineError>)
        ensures
            match result {
                Ok(exited) => names_tracked(self@, process@)
                    && exited == self@[process.supervisor_id@].exited,
                Err(error) => !names_tracked(self@, process@) && error@
                    == if self@.dom().contains(process.supervisor_id@) {
                    EngineErrorView::Operation(
                        "managed process identity does not match the requested process"@,
                    )
                } else {
                    EngineErrorView::Operation("managed process is not tracked"@)
                },
            },
    {
        match self.processes.get(process.supervisor_id.as_str()) {
            None => Err(EngineError::Operation("managed process is not tracked".to_owned())),
            Some(managed) => if managed.descriptor.process_id != process.process_id {
                Err(
                    EngineError::Operation(
                        "managed process identity does not match the requested process".to_owned(),
                    ),
                )
            } else {
                Ok(managed.exited)
            },
        }
    }

    /// The same for a process that is to be ended at once, whose errors read differently.
    pub fn find_to_end(&self, process: &ProcessDescriptor) -> (result: Result<bool, EngineError>)
        ensures
            match result {
                Ok(exited) => names_tracked(self@, process@)
                    && exited == self@[process.supervisor_id@].exited,
                Err(error) => !names_tracked(self@, process@) && error@
                    == if self@.dom().contains(process.supervisor_id@) {
                    EngineErrorView::Operation("managed process identity mismatch"@)
                } else {
                    EngineErrorView::Operation("managed process is not tracked"@)
                },
            },
    {
        match self.processes.get(process.supervisor_id.as_str()) {
            None => Err(EngineError::Operation("managed process is not tracked".to_owned())),
            Some(managed) => if managed.descriptor.process_id != process.process_id {
                Err(EngineError::Operation("managed process identity mismatch".to_owned()))
            } else {
                Ok(managed.exited)
            },
        }
    }

    /// Whether what a process wrote can be read: it must be the one that is tracked.
    pub fn find_to_read(&self, process: &ProcessDescriptor) -> (result: Result<(), EngineError>)
        ensures
            match result {
                Ok(_) => names_tracked(self@, process@),
                Err(error) => !names_tracked(self@, process@) && error@
                    == EngineErrorView::Operation("managed process is not tracked"@),
            },
    {
        match self.processes.get(process.supervisor_id.as_str()) {
            Some(managed) => if managed.descriptor.process_id == process.process_id {
                Ok(())
            } else {
                Err(EngineError::Operation("managed process is not tracked".to_owned()))
            },
            None => Err(EngineError::Operation("managed process is not tracked".to_owned())),
        }
    }

    /// The processes to end when the supervisor shuts down, in the order of their identifiers. None is
    /// tracked afterwards.
    pub fn shut_down(&mut self) -> (result: Vec<ProcessDescriptor>)
        ensures
            views(result@) == ordered(old(self)@.dom()).map_values(
                |id: Seq<char>| old(self)@[id].descriptor,
            ),
            final(self)@ == Map::<Seq<char>, ManagedProcessView>::empty(),
    {
        let ghost before = self@;
        let count: usize = self.processes.len();
        let ghost keys = self.processes.keys();
        let ghost expected = keys.map_values(|id: Seq<char>| before[id].descriptor);
        let mut result: Vec<ProcessDescriptor> = Vec::new();
        let mut i: usize = 0;
        proof {
            assert(views(result@) =~= expected.take(0));
        }
        while i < count
            invariant
                i <= count,
                count == keys.len(),
                keys == self.processes.keys(),
                before == self.processes@,
                expected == keys.map_values(|id: Seq<char>| before[id].descriptor),
                views(result@) == expected.take(i as int),
            decreases count - i,
        {
            let descriptor = self.processes.value_at(i).descriptor.duplicate();
            proof {
                lemma_views_push(result@, descriptor);
                assert(expected.take(i + 1) =~= expected.take(i as int).push(expected[i as int]));
            }
            result.push(descriptor);
            i += 1;
        }
        proof {
            assert(expected.take(expected.len() as int) =~= expected);
        }
        self.processes = Table::new();
        result
    }
}

/// What came back from asking a process to end.
pub enum TerminationReply {
    /// The request could not be delivered.
    ChannelClosed,
    /// The process has ended.
    Ended,
    /// The process was not ended, for this reason.
    Refused(String),
    /// Nobody is left to answer.
    Abandoned,
    /// No answer came in time.
    Silent,
}

/// Whether asking a process to end succeeded: it did if it was answered so, or if the process was
/// seen to exit anyway.
pub fn termination_outcome(reply: TerminationReply, seen_to_exit: bool) -> (result: Result<
    (),
    EngineError,
>)
    ensures
        result is Ok <==> reply is Ended || seen_to_exit,
        result matches Err(error) ==> error@ == match reply {
            TerminationReply::ChannelClosed => EngineErrorView::Operation(
                "managed process termination channel closed unexpectedly"@,
            ),
            TerminationReply::Refused(detail) => EngineErrorView::Operation(detail@),
            TerminationReply::Silent => EngineErrorView::TimedOut(
                "managed process termination did not complete"@,
            ),
            _ => EngineErrorView::Operation(
                "managed process termination task ended unexpectedly"@,
            ),
        },
{
    if seen_to_exit {
        return Ok(());
    }
    match reply {
        TerminationReply::Ended => Ok(()),
        TerminationReply::ChannelClosed => Err(
            EngineError::Operation(
                "managed process termination channel closed unexpectedly".to_owned(),
            ),
        ),
        TerminationReply::Refused(detail) => Err(EngineError::Operation(detail)),
        TerminationReply::Abandoned => Err(
            EngineError::Operation("managed process termination task ended unexpectedly".to_owned()),
        ),
        TerminationReply::Silent => Err(
            EngineError::TimedOut("managed process termination did not complete".to_owned()),
        ),
    }
}

/// The same for a process that is to be ended at once, whose answers read differently.
pub fn immediate_termination_outcome(reply: TerminationReply, exited: bool) -> (result: Result<
    (),
    EngineError,
>)
    ensures
        match reply {
            TerminationReply::Ended => result is Ok,
            TerminationReply::ChannelClosed => if exited {
                result is Ok
            } else {
                result matches Err(error) && error@ == EngineErrorView::Operation(
                    "managed cancellation channel closed"@,
                )
            },
            TerminationReply::Refused(detail) => if exited {
                result is Ok
            } else {
                result matches Err(error) && error@ == EngineErrorView::Operation(detail@)
            },
            TerminationReply::Abandoned => result matches Err(error) && error@
                == EngineErrorView::Operation("managed cancellation response closed"@),
            TerminationReply::Silent => result matches Err(error) && error@
                == EngineErrorView::TimedOut("managed immediate termination"@),
        },
{
    match reply {
        TerminationReply::Ended => Ok(()),
        TerminationReply::ChannelClosed => if exited {
            Ok(())
        } else {
            Err(EngineError::Operation("managed cancellation channel closed".to_owned()))
        },
        TerminationReply::Refused(detail) => if exited {
            Ok(())
        } else {
            Err(EngineError::Operation(detail))
        },
        TerminationReply::Abandoned => Err(
            EngineError::Operation("managed cancellation response closed".to_owned()),
        ),
        TerminationReply::Silent => Err(
            EngineError::TimedOut("managed immediate termination".to_owned()),
        ),
    }
}

/// A line is what stands before a line feed: a line that is no longer than is kept comes out whole, in
/// its order, and what has no line feed yet stays pending.
pub proof fn law_lines_end_at_line_feeds(pending: Seq<u8>, line: Seq<u8>, rest: Seq<u8>)
    requires
        forall|i: int| 0 <= i < line.len() ==> #[trigger] line[i] != 10,
        pending.len() + line.len() <= LOG_LINE_LIMIT,
    ensures
        drained(pending, line) == (Seq::<Seq<u8>>::empty(), pending + line),
        drained(pending, line + seq![10u8] + rest).0 == seq![pending + line] + drained(
            Seq::empty(),
            rest,
        ).0,
        drained(pending, line + seq![10u8] + rest).1 == drained(Seq::empty(), rest).1,
{
    lemma_pending(pending, line);
    let end = seq![10u8] + rest;
    assert(line + seq![10u8] + rest =~= line + end);
    law_drain_in_pieces(pending, line, end);
    assert(end.skip(1) =~= rest);
    assert(end[0] == 10);
    assert(Seq::<Seq<u8>>::empty() + drained(pending + line, end).0 =~= drained(
        pending + line,
        end,
    ).0);
}

proof fn lemma_pending(pending: Seq<u8>, line: Seq<u8>)
    requires
        forall|i: int| 0 <= i < line.len() ==> #[trigger] line[i] != 10,
        pending.len() + line.len() <= LOG_LINE_LIMIT,
    ensures
        drained(pending, line) == (Seq::<Seq<u8>>::empty(), pending + line),
    decreases line.len(),
{
    if line.len() == 0 {
        assert(pending + line =~= pending);
    } else {
        assert(line[0] != 10);
        assert forall|i: int| 0 <= i < line.skip(1).len() implies #[trigger] line.skip(1)[i]
            != 10 by {
            assert(line.skip(1)[i] == line[i + 1]);
        }
        lemma_pending(pending.push(line[0]), line.skip(1));
        assert(pending.push(line[0]) + line.skip(1) =~= pending + line);
    }
}

/// Of a line that is too long the first bytes are kept.
pub proof fn law_long_lines_are_cut(pending: Seq<u8>, line: Seq<u8>)
    requires
        forall|i: int| 0 <= i < line.len() ==> #[trigger] line[i] != 10,
        pending.len() == LOG_LINE_LIMIT,
    ensures
        drained(pending, line) == (Seq::<Seq<u8>>::empty(), pending),
    decreases line.len(),
{
    if line.len() > 0 {
        assert(line[0] != 10);
        assert forall|i: int| 0 <= i < line.skip(1).len() implies #[trigger] line.skip(1)[i]
            != 10 by {
            assert(line.skip(1)[i] == line[i + 1]);
        }
        law_long_lines_are_cut(pending, line.skip(1));
    }
}

/// The tail holds the newest lines: the last is the one that came last, the order is kept, and where there
/// would be too many the oldest goes.
pub proof fn law_newest_lines_are_kept(tail: Seq<Seq<char>>, line: Seq<char>)
    requires
        tail.len() <= LOG_TAIL_LINES,
    ensures
        with_line(tail, line).last() == line,
        tail.len() < LOG_TAIL_LINES ==> with_line(tail, line) == tail.push(line),
        tail.len() == LOG_TAIL_LINES ==> with_line(tail, line).len() == tail.len() && forall|i: int|
            0 <= i < tail.len() - 1 ==> #[trigger] with_line(tail, line)[i] == tail[i + 1],
{
}

/// Only the carriage returns at the end of a line are taken off.
pub proof fn law_only_returns_are_taken_off(text: Seq<char>)
    ensures
        without_returns(text.push('\r')) == without_returns(text),
        text.len() == 0 || text.last() != '\r' ==> without_returns(text) == text,
{
    assert(text.push('\r').drop_last() =~= text);
}

/// The end of a process tells of its code, and then of what it last wrote to its error output.
pub proof fn law_ends_are_told(exit: ExitView, code: i32)
    ensures
        exit.stderr_tail.len() == 0 ==> exit_text(exit) == exit.detail,
        exit.stderr_tail.len() > 0 ==> exit_text(exit) == exit.detail + "; "@ + joined(
            exit.stderr_tail,
            " | "@,
        ),
        code >= 0 ==> signed_decimal(code as int) == decimal(code as nat),
        code < 0 ==> signed_decimal(code as int) == "-"@ + decimal((-code) as nat),
{
}

/// A process is alive where it is tracked and has not exited; a descriptor names a tracked one only where
/// both its identifier and its process number are those of it.
pub proof fn law_exited_processes_are_not_alive(
    processes: Map<Seq<char>, ManagedProcessView>,
    id: Seq<char>,
    process: ProcessView,
)
    ensures
        alive(processes).contains_key(id) <==> processes.contains_key(id) && !processes[id].exited,
        alive(processes).contains_key(id) ==> alive(processes)[id] == processes[id],
        names_tracked(processes, process) <==> processes.contains_key(process.supervisor_id)
            && processes[process.supervisor_id].descriptor.process_id == process.process_id,
{
}

} // verus!
