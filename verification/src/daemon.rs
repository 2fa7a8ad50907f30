//! Starting and stopping the background daemon, as state machines: the
//! caller performs each step (probing a port, reading a file, spawning or
//! signalling a process) and hands back what came of it.
use vstd::prelude::*;
use vstd::utf8::*;
use crate::paths::{file_name, path_file_name, bytes_eq_str};
use crate::text::{
    chars_of, lossy_string, parse_i32, parse_i32_chars, parse_u16, parse_u16_chars, string_of,
    trim, trim_chars, utf8_lossy,
};

verus! {

/// How many times the launcher waits for a freshly spawned daemon.
pub const LAUNCH_ATTEMPTS: u32 = 30;

/// The port recorded in the port file, if its text (white space trimmed) is
/// a port number.
pub open spec fn recorded_port(text: Seq<char>) -> Option<u16> {
    parse_u16(trim(text))
}

/// Where the launcher stands.
#[derive(Debug, Clone, Copy, PartialEq, Eq)]
pub enum LaunchPhase {
    /// Waiting to hear whether a daemon answers on the requested port.
    CheckingRequested,
    /// Waiting for the text of the port file.
    ReadingRecorded,
    /// Waiting to hear whether a daemon answers on the recorded port.
    CheckingRecorded(u16),
    /// Waiting to hear whether the daemon process was spawned.
    Spawning,
    /// Waiting after the given number of probes of the spawned daemon.
    Waiting(u32),
    /// Finished.
    Done,
}

/// Why a daemon could not be made to listen.
#[derive(Debug, Clone, Copy, PartialEq, Eq)]
pub enum LaunchError {
    /// Another daemon answers on the port recorded in the port file.
    AlreadyRunning(u16),
    /// The daemon process could not be spawned.
    SpawnFailed,
    /// The spawned daemon never answered.
    TimedOut,
}

/// What the caller is to do next.
#[derive(Debug, Clone, Copy, PartialEq, Eq)]
pub enum LaunchStep {
    /// Find out whether a daemon answers on the port.
    Probe(u16),
    /// Read the port file.
    ReadRecordedPort,
    /// Spawn the daemon process for the port.
    Spawn(u16),
    /// Wait a moment, then find out whether a daemon answers on the port.
    WaitThenProbe(u16),
    /// Stop: the daemon listens, or it could not be made to.
    Finish(Result<(), LaunchError>),
}

/// What came of a step.
#[derive(Debug, Clone, PartialEq, Eq)]
pub enum LaunchEvent {
    /// Whether a daemon answered on the port probed.
    Answered(bool),
    /// The text of the port file, when it could be read.
    RecordedPort(Option<String>),
    /// Whether the daemon process was spawned.
    Spawned(bool),
}

/// Makes sure that a daemon listens on `port`.
#[derive(Debug, Clone, Copy, PartialEq, Eq)]
pub struct DaemonLauncher {
    pub port: u16,
    pub phase: LaunchPhase,
}

/// The step that a phase waits on the outcome of.
pub open spec fn pending_step(port: u16, phase: LaunchPhase) -> LaunchStep {
    match phase {
        LaunchPhase::CheckingRequested => LaunchStep::Probe(port),
        LaunchPhase::ReadingRecorded => LaunchStep::ReadRecordedPort,
        LaunchPhase::CheckingRecorded(other) => LaunchStep::Probe(other),
        LaunchPhase::Spawning => LaunchStep::Spawn(port),
        LaunchPhase::Waiting(_) => LaunchStep::WaitThenProbe(port),
        LaunchPhase::Done => LaunchStep::Finish(Ok(())),
    }
}

/// The launcher's next phase and step, given the outcome of the last step.
/// If no daemon answers on the port, the one recorded in the port file is
/// probed: a daemon there is an error; else the daemon is spawned and probed
/// up to `LAUNCH_ATTEMPTS` times. An event that does not fit the phase
/// leaves it as it is and asks again for its step.
pub open spec fn launch_next(port: u16, phase: LaunchPhase, event: LaunchEvent) -> (LaunchPhase, LaunchStep) {
    match (phase, event) {
        (LaunchPhase::CheckingRequested, LaunchEvent::Answered(true)) => (LaunchPhase::Done, LaunchStep::Finish(Ok(()))),
        (LaunchPhase::CheckingRequested, LaunchEvent::Answered(false)) => (LaunchPhase::ReadingRecorded, LaunchStep::ReadRecordedPort),
        (LaunchPhase::ReadingRecorded, LaunchEvent::RecordedPort(text)) => match text {
            Some(t) => match recorded_port(t@) {
                Some(other) => (LaunchPhase::CheckingRecorded(other), LaunchStep::Probe(other)),
                None => (LaunchPhase::Spawning, LaunchStep::Spawn(port)),
            },
            None => (LaunchPhase::Spawning, LaunchStep::Spawn(port)),
        },
        (LaunchPhase::CheckingRecorded(other), LaunchEvent::Answered(true)) => (
            LaunchPhase::Done,
            LaunchStep::Finish(Err(LaunchError::AlreadyRunning(other))),
        ),
        (LaunchPhase::CheckingRecorded(_), LaunchEvent::Answered(false)) => (LaunchPhase::Spawning, LaunchStep::Spawn(port)),
        (LaunchPhase::Spawning, LaunchEvent::Spawned(false)) => (LaunchPhase::Done, LaunchStep::Finish(Err(LaunchError::SpawnFailed))),
        (LaunchPhase::Spawning, LaunchEvent::Spawned(true)) => (LaunchPhase::Waiting(1), LaunchStep::WaitThenProbe(port)),
        (LaunchPhase::Waiting(_), LaunchEvent::Answered(true)) => (LaunchPhase::Done, LaunchStep::Finish(Ok(()))),
        (LaunchPhase::Waiting(n), LaunchEvent::Answered(false)) => if n < LAUNCH_ATTEMPTS {
            (LaunchPhase::Waiting((n + 1) as u32), LaunchStep::WaitThenProbe(port))
        } else {
            (LaunchPhase::Done, LaunchStep::Finish(Err(LaunchError::TimedOut)))
        },
        _ => (phase, pending_step(port, phase)),
    }
}

/// A launcher's phase is one it can reach: it has probed the spawned
/// daemon from one to `LAUNCH_ATTEMPTS` times.
pub open spec fn launch_phase_ok(phase: LaunchPhase) -> bool {
    match phase {
        LaunchPhase::Waiting(n) => 1 <= n <= LAUNCH_ATTEMPTS,
        _ => true,
    }
}

/// The port number in the text of the port file.
pub fn parse_recorded_port(text: &str) -> (r: Option<u16>)
    ensures
        r == recorded_port(text@),
{
    let cs = chars_of(text);
    let t = trim_chars(cs.as_slice());
    parse_u16_chars(t.as_slice())
}

impl DaemonLauncher {
    /// A launcher for `port`, and its first step: probing the port.
    pub fn new(port: u16) -> (r: (DaemonLauncher, LaunchStep))
        ensures
            r.0.port == port,
            r.0.phase == LaunchPhase::CheckingRequested,
            r.1 == LaunchStep::Probe(port),
    {
        (DaemonLauncher { port, phase: LaunchPhase::CheckingRequested }, LaunchStep::Probe(port))
    }

    /// Takes the outcome of the last step and gives the next one.
    pub fn step(&mut self, event: &LaunchEvent) -> (r: LaunchStep)
        ensures
            final(self).port == old(self).port,
            (final(self).phase, r) == launch_next(old(self).port, old(self).phase, *event),
            launch_phase_ok(old(self).phase) ==> launch_phase_ok(final(self).phase),
    {
        let port = self.port;
        match (self.phase, event) {
            (LaunchPhase::CheckingRequested, LaunchEvent::Answered(true)) => {
                self.phase = LaunchPhase::Done;
                LaunchStep::Finish(Ok(()))
            },
            (LaunchPhase::CheckingRequested, LaunchEvent::Answered(false)) => {
                self.phase = LaunchPhase::ReadingRecorded;
                LaunchStep::ReadRecordedPort
            },
            (LaunchPhase::ReadingRecorded, LaunchEvent::RecordedPort(text)) => {
                let recorded = match text {
                    Some(t) => parse_recorded_port(t.as_str()),
                    None => None,
                };
                match recorded {
                    Some(other) => {
                        self.phase = LaunchPhase::CheckingRecorded(other);
                        LaunchStep::Probe(other)
                    },
                    None => {
                        self.phase = LaunchPhase::Spawning;
                        LaunchStep::Spawn(port)
                    },
                }
            },
            (LaunchPhase::CheckingRecorded(other), LaunchEvent::Answered(true)) => {
                self.phase = LaunchPhase::Done;
                LaunchStep::Finish(Err(LaunchError::AlreadyRunning(other)))
            },
            (LaunchPhase::CheckingRecorded(_), LaunchEvent::Answered(false)) => {
                self.phase = LaunchPhase::Spawning;
                LaunchStep::Spawn(port)
            },
            (LaunchPhase::Spawning, LaunchEvent::Spawned(false)) => {
                self.phase = LaunchPhase::Done;
                LaunchStep::Finish(Err(LaunchError::SpawnFailed))
            },
            (LaunchPhase::Spawning, LaunchEvent::Spawned(true)) => {
                self.phase = LaunchPhase::Waiting(1);
                LaunchStep::WaitThenProbe(port)
            },
            (LaunchPhase::Waiting(_), LaunchEvent::Answered(true)) => {
                self.phase = LaunchPhase::Done;
                LaunchStep::Finish(Ok(()))
            },
            (LaunchPhase::Waiting(n), LaunchEvent::Answered(false)) => {
                if n < LAUNCH_ATTEMPTS {
                    self.phase = LaunchPhase::Waiting(n + 1);
                    LaunchStep::WaitThenProbe(port)
                } else {
                    self.phase = LaunchPhase::Done;
                    LaunchStep::Finish(Err(LaunchError::TimedOut))
                }
            },
            (phase, _) => match phase {
                LaunchPhase::CheckingRequested => LaunchStep::Probe(port),
                LaunchPhase::ReadingRecorded => LaunchStep::ReadRecordedPort,
                LaunchPhase::CheckingRecorded(other) => LaunchStep::Probe(other),
                LaunchPhase::Spawning => LaunchStep::Spawn(port),
                LaunchPhase::Waiting(_) => LaunchStep::WaitThenProbe(port),
                LaunchPhase::Done => LaunchStep::Finish(Ok(())),
            },
        }
    }
}

impl LaunchError {
    pub open spec fn message_spec(self) -> Option<Seq<char>> {
        match self {
            LaunchError::AlreadyRunning(p) => Some(
                "mdv daemon is already running on port "@ + crate::text::decimal(p as nat),
            ),
            LaunchError::TimedOut => Some("daemon did not start"@),
            LaunchError::SpawnFailed => None,
        }
    }

    /// The text the error is reported with; a failed spawn is reported with
    /// the error of the spawn itself.
    pub fn message(&self) -> (r: Option<String>)
        ensures
            match r {
                Some(m) => self.message_spec() == Some(m@),
                None => self.message_spec() is None,
            },
    {
        match self {
            LaunchError::AlreadyRunning(p) => {
                let mut m = String::from_str("mdv daemon is already running on port ");
                let digits = crate::text::decimal_string(*p as u64);
                m.append(digits.as_str());
                Some(m)
            },
            LaunchError::TimedOut => Some(String::from_str("daemon did not start")),
            LaunchError::SpawnFailed => None,
        }
    }
}

} // verus!

verus! {

/// A launch ends well only when a daemon answered on the requested port,
/// either at once or after the spawn.
pub proof fn lemma_launch_ok_only_when_answered(port: u16, phase: LaunchPhase, event: LaunchEvent)
    requires
        phase != LaunchPhase::Done,
        launch_next(port, phase, event).1 == LaunchStep::Finish(Ok(())),
    ensures
        event == LaunchEvent::Answered(true),
        phase == LaunchPhase::CheckingRequested || phase is Waiting,
{
}

/// A launch reports another daemon only when one answered on the port that
/// the port file records.
pub proof fn lemma_launch_already_running(port: u16, phase: LaunchPhase, event: LaunchEvent, other: u16)
    requires
        launch_next(port, phase, event).1 == LaunchStep::Finish(Err(LaunchError::AlreadyRunning(other))),
    ensures
        phase == LaunchPhase::CheckingRecorded(other),
        event == LaunchEvent::Answered(true),
{
}

/// A daemon is spawned only for the requested port, and only after no
/// daemon answered on it.
pub proof fn lemma_launch_spawns_requested_port(port: u16, phase: LaunchPhase, event: LaunchEvent, p: u16)
    requires
        launch_next(port, phase, event).1 == LaunchStep::Spawn(p),
    ensures
        p == port,
        phase != LaunchPhase::CheckingRequested,
{
}

/// Waiting for the spawned daemon starts at its first probe, each probe
/// that finds no daemon counts one more, and after `LAUNCH_ATTEMPTS` of
/// them the launch gives up: there are never more waits than that.
pub proof fn lemma_launch_waits_bounded(port: u16, phase: LaunchPhase, event: LaunchEvent)
    requires
        launch_phase_ok(phase),
        launch_next(port, phase, event).1 is WaitThenProbe,
    ensures
        launch_next(port, phase, event).0 matches LaunchPhase::Waiting(m) && 1 <= m
            <= LAUNCH_ATTEMPTS,
        phase == LaunchPhase::Spawning && event == LaunchEvent::Spawned(true) ==> launch_next(
            port,
            phase,
            event,
        ).0 == LaunchPhase::Waiting(1),
        phase matches LaunchPhase::Waiting(n) ==> (event == LaunchEvent::Answered(false) ==> n
            < LAUNCH_ATTEMPTS && launch_next(port, phase, event).0 == LaunchPhase::Waiting(
            (n + 1) as u32,
        )),
{
}

/// Where the stopper stands.
#[derive(Debug, Clone, Copy, PartialEq, Eq)]
pub enum StopPhase {
    /// Waiting for the text of the PID file.
    ReadingPid,
    /// Waiting for what `ps` says of the process.
    QueryingProcess(i32),
    /// Waiting for the outcome of the termination signal.
    Signalling(i32),
    /// Waiting for the daemon's files to be removed.
    Removing,
    /// Finished.
    Done,
}

/// Why the daemon could not be stopped.
#[derive(Debug, Clone, Copy, PartialEq, Eq)]
pub enum StopError {
    /// The PID file could not be read.
    PidFileUnreadable,
    /// The PID file does not hold a process id.
    InvalidPid,
    /// The PID file names process 1 or lower.
    RefusedPid,
    /// `ps` could not be run.
    QueryFailed,
    /// No `mdv` process has the recorded id.
    NotRunning,
    /// The signal could not be sent.
    SignalFailed,
}

/// What the caller is to do next.
#[derive(Debug, Clone, Copy, PartialEq, Eq)]
pub enum StopStep {
    /// Read the PID file.
    ReadPidFile,
    /// Ask `ps` for the command name of the process.
    QueryProcess(i32),
    /// Send the termination signal to the process.
    Signal(i32),
    /// Remove the PID and port files.
    RemoveFiles,
    /// Stop: the daemon was stopped, or it could not be.
    Finish(Result<(), StopError>),
}

/// What `ps` said of a process.
#[derive(Debug, Clone, PartialEq, Eq)]
pub struct ProcessInfo {
    /// Whether `ps` exited successfully.
    pub success: bool,
    /// What `ps` wrote.
    pub output: Vec<u8>,
}

/// What came of a step.
#[derive(Debug, Clone, PartialEq, Eq)]
pub enum StopEvent {
    /// The text of the PID file, when it could be read.
    PidFile(Option<String>),
    /// What `ps` said, when it could be run.
    Process(Option<ProcessInfo>),
    /// Whether the signal was sent, and whether it failed only because the
    /// process no longer exists.
    Signalled { sent: bool, no_such_process: bool },
    /// The files were removed (or were not there).
    Removed,
}

/// The process id recorded in the PID file, if its text (white space
/// trimmed) is a number.
pub open spec fn recorded_pid(text: Seq<char>) -> Option<i32> {
    parse_i32(trim(text))
}

/// Whether the output of `ps -o comm=` names an `mdv` executable: the file
/// name of the trimmed output is `mdv`.
pub open spec fn names_mdv(output: Seq<u8>) -> bool {
    file_name(encode_utf8(trim(utf8_lossy(output)))) == Some(encode_utf8("mdv"@))
}

/// The stopper's next phase and step, given the outcome of the last step.
/// The PID file must hold a process id above 1 of a running `mdv`; then the
/// process is signalled (a process already gone counts as stopped) and the
/// daemon's files removed. An event that does not fit the phase leaves it as
/// it is and asks again for its step.
pub open spec fn stop_next(phase: StopPhase, event: StopEvent) -> (StopPhase, StopStep) {
    match (phase, event) {
        (StopPhase::ReadingPid, StopEvent::PidFile(text)) => match text {
            None => (StopPhase::Done, StopStep::Finish(Err(StopError::PidFileUnreadable))),
            Some(t) => match recorded_pid(t@) {
                None => (StopPhase::Done, StopStep::Finish(Err(StopError::InvalidPid))),
                Some(pid) => if pid <= 1 {
                    (StopPhase::Done, StopStep::Finish(Err(StopError::RefusedPid)))
                } else {
                    (StopPhase::QueryingProcess(pid), StopStep::QueryProcess(pid))
                },
            },
        },
        (StopPhase::QueryingProcess(pid), StopEvent::Process(info)) => match info {
            None => (StopPhase::Done, StopStep::Finish(Err(StopError::QueryFailed))),
            Some(i) => if i.success && names_mdv(i.output@) {
                (StopPhase::Signalling(pid), StopStep::Signal(pid))
            } else {
                (StopPhase::Done, StopStep::Finish(Err(StopError::NotRunning)))
            },
        },
        (StopPhase::Signalling(_), StopEvent::Signalled { sent, no_such_process }) => if sent
            || no_such_process {
            (StopPhase::Removing, StopStep::RemoveFiles)
        } else {
            (StopPhase::Done, StopStep::Finish(Err(StopError::SignalFailed)))
        },
        (StopPhase::Removing, StopEvent::Removed) => (StopPhase::Done, StopStep::Finish(Ok(()))),
        _ => (phase, stop_pending_step(phase)),
    }
}

/// The step that a phase waits on the outcome of.
pub open spec fn stop_pending_step(phase: StopPhase) -> StopStep {
    match phase {
        StopPhase::ReadingPid => StopStep::ReadPidFile,
        StopPhase::QueryingProcess(pid) => StopStep::QueryProcess(pid),
        StopPhase::Signalling(pid) => StopStep::Signal(pid),
        StopPhase::Removing => StopStep::RemoveFiles,
        StopPhase::Done => StopStep::Finish(Ok(())),
    }
}

/// A stopper's phase is one it can reach: the process it deals with has an
/// id above 1.
pub open spec fn stop_phase_ok(phase: StopPhase) -> bool {
    match phase {
        StopPhase::QueryingProcess(pid) => pid > 1,
        StopPhase::Signalling(pid) => pid > 1,
        _ => true,
    }
}

/// The process id in the text of the PID file.
pub fn parse_recorded_pid(text: &str) -> (r: Option<i32>)
    ensures
        r == recorded_pid(text@),
{
    let cs = chars_of(text);
    let t = trim_chars(cs.as_slice());
    parse_i32_chars(t.as_slice())
}

/// Whether the output of `ps -o comm=` names an `mdv` executable.
pub fn output_names_mdv(output: &[u8]) -> (r: bool)
    ensures
        r == names_mdv(output@),
{
    let text = lossy_string(output);
    let cs = chars_of(text.as_str());
    let t = trim_chars(cs.as_slice());
    let trimmed = string_of(t.as_slice());
    let bytes = trimmed.as_str().as_bytes();
    match path_file_name(bytes) {
        Some(name) => bytes_eq_str(name.as_slice(), "mdv"),
        None => false,
    }
}

/// Stops the running daemon.
#[derive(Debug, Clone, Copy, PartialEq, Eq)]
pub struct DaemonStopper {
    pub phase: StopPhase,
}

impl DaemonStopper {
    /// A stopper, and its first step: reading the PID file.
    pub fn new() -> (r: (DaemonStopper, StopStep))
        ensures
            r.0.phase == StopPhase::ReadingPid,
            r.1 == StopStep::ReadPidFile,
    {
        (DaemonStopper { phase: StopPhase::ReadingPid }, StopStep::ReadPidFile)
    }

    /// Takes the outcome of the last step and gives the next one.
    pub fn step(&mut self, event: &StopEvent) -> (r: StopStep)
        ensures
            (final(self).phase, r) == stop_next(old(self).phase, *event),
            stop_phase_ok(old(self).phase) ==> stop_phase_ok(final(self).phase),
    {
        match (self.phase, event) {
            (StopPhase::ReadingPid, StopEvent::PidFile(text)) => match text {
                None => {
                    self.phase = StopPhase::Done;
                    StopStep::Finish(Err(StopError::PidFileUnreadable))
                },
                Some(t) => match parse_recorded_pid(t.as_str()) {
                    None => {
                        self.phase = StopPhase::Done;
                        StopStep::Finish(Err(StopError::InvalidPid))
                    },
                    Some(pid) => {
                        if pid <= 1 {
                            self.phase = StopPhase::Done;
                            StopStep::Finish(Err(StopError::RefusedPid))
                        } else {
                            self.phase = StopPhase::QueryingProcess(pid);
                            StopStep::QueryProcess(pid)
                        }
                    },
                },
            },
            (StopPhase::QueryingProcess(pid), StopEvent::Process(info)) => match info {
                None => {
                    self.phase = StopPhase::Done;
                    StopStep::Finish(Err(StopError::QueryFailed))
                },
                Some(i) => {
                    if i.success && output_names_mdv(i.output.as_slice()) {
                        self.phase = StopPhase::Signalling(pid);
                        StopStep::Signal(pid)
                    } else {
                        self.phase = StopPhase::Done;
                        StopStep::Finish(Err(StopError::NotRunning))
                    }
                },
            },
            (StopPhase::Signalling(_), StopEvent::Signalled { sent, no_such_process }) => {
                if *sent || *no_such_process {
                    self.phase = StopPhase::Removing;
                    StopStep::RemoveFiles
                } else {
                    self.phase = StopPhase::Done;
                    StopStep::Finish(Err(StopError::SignalFailed))
                }
            },
            (StopPhase::Removing, StopEvent::Removed) => {
                self.phase = StopPhase::Done;
                StopStep::Finish(Ok(()))
            },
            (phase, _) => match phase {
                StopPhase::ReadingPid => StopStep::ReadPidFile,
                StopPhase::QueryingProcess(pid) => StopStep::QueryProcess(pid),
                StopPhase::Signalling(pid) => StopStep::Signal(pid),
                StopPhase::Removing => StopStep::RemoveFiles,
                StopPhase::Done => StopStep::Finish(Ok(())),
            },
        }
    }
}

impl StopError {
    pub open spec fn message_spec(self) -> Option<Seq<char>> {
        match self {
            StopError::InvalidPid => Some("invalid daemon PID"@),
            StopError::RefusedPid => Some("refusing invalid daemon PID"@),
            StopError::NotRunning => Some("stale daemon PID file; no mdv process found"@),
            _ => None,
        }
    }

    /// The text the error is reported with; an error of reading, running
    /// `ps` or signalling is reported with that error itself.
    pub fn message(&self) -> (r: Option<String>)
        ensures
            match r {
                Some(m) => self.message_spec() == Some(m@),
                None => self.message_spec() is None,
            },
    {
        match self {
            StopError::InvalidPid => Some(String::from_str("invalid daemon PID")),
            StopError::RefusedPid => Some(String::from_str("refusing invalid daemon PID")),
            StopError::NotRunning => Some(
                String::from_str("stale daemon PID file; no mdv process found"),
            ),
            _ => None,
        }
    }
}

/// A signal is sent only to the process recorded in the PID file, only when
/// its id is above 1 and `ps` says that it is an `mdv`.
pub proof fn lemma_stop_signals_only_mdv(phase: StopPhase, event: StopEvent, pid: i32)
    requires
        stop_phase_ok(phase),
        phase != StopPhase::Signalling(pid),
        stop_next(phase, event).1 == StopStep::Signal(pid),
    ensures
        phase == StopPhase::QueryingProcess(pid),
        pid > 1,
        event matches StopEvent::Process(Some(i)) && i.success && names_mdv(i.output@),
{
}

/// The daemon counts as stopped only once its files were removed after the
/// signal.
pub proof fn lemma_stop_ok_only_after_removal(phase: StopPhase, event: StopEvent)
    requires
        phase != StopPhase::Done,
        stop_next(phase, event).1 == StopStep::Finish(Ok(())),
    ensures
        phase == StopPhase::Removing,
        event == StopEvent::Removed,
{
}

} // verus!

verus! {

/// The stopper's phase after it was handed `events` in turn, from its start.
pub open spec fn stop_phase_after(events: Seq<StopEvent>) -> StopPhase
    decreases events.len(),
{
    if events.len() == 0 {
        StopPhase::ReadingPid
    } else {
        stop_next(stop_phase_after(events.drop_last()), events.last()).0
    }
}

/// The step the stopper asks for on the last of `events`, handed in turn
/// from its start.
pub open spec fn stop_last_step(events: Seq<StopEvent>) -> StopStep
    recommends
        events.len() > 0,
{
    stop_next(stop_phase_after(events.drop_last()), events.last()).1
}

/// Whether an event is the PID file's text, recording `pid`.
pub open spec fn records_pid(e: StopEvent, pid: i32) -> bool {
    e matches StopEvent::PidFile(Some(t)) && recorded_pid(t@) == Some(pid)
}

/// Whether an event is `ps` succeeding and naming an `mdv`.
pub open spec fn names_running_mdv(e: StopEvent) -> bool {
    e matches StopEvent::Process(Some(i)) && i.success && names_mdv(i.output@)
}

/// Whether an event says the signal was sent or the process already gone.
pub open spec fn answers_signal(e: StopEvent) -> bool {
    e matches StopEvent::Signalled { sent, no_such_process } && (sent || no_such_process)
}

/// Among `events`, the PID file was read and recorded `pid`, above 1.
pub open spec fn pid_recorded(events: Seq<StopEvent>, pid: i32) -> bool {
    pid > 1 && exists|j: int|
        0 <= j < events.len() && records_pid(#[trigger] events[j], pid)
}

/// Among `events`, the PID file recorded `pid`, above 1, and later `ps`
/// succeeded and named an `mdv`.
pub open spec fn pid_checked(events: Seq<StopEvent>, pid: i32) -> bool {
    pid > 1 && exists|j: int, k: int|
        0 <= j < k < events.len() && records_pid(#[trigger] events[j], pid) && names_running_mdv(#[trigger] events[k])
}

/// Among `events`, the signal was sent, or the process was already gone.
pub open spec fn signal_answered(events: Seq<StopEvent>) -> bool {
    exists|j: int|
        0 <= j < events.len() && answers_signal(#[trigger] events[j])
}

/// What the stopper's phase tells of the events it was handed.
proof fn lemma_stop_history(events: Seq<StopEvent>)
    ensures
        stop_phase_after(events) matches StopPhase::QueryingProcess(pid) ==> pid_recorded(
            events,
            pid,
        ),
        stop_phase_after(events) matches StopPhase::Signalling(pid) ==> pid_checked(events, pid),
        stop_phase_after(events) is Removing ==> signal_answered(events) && exists|pid: i32|
            pid_checked(events, pid),
    decreases events.len(),
{
    if events.len() > 0 {
        let prev = events.drop_last();
        let e = events.last();
        let n = prev.len() as int;
        lemma_stop_history(prev);
        assert(events[n] == e);
        assert forall|j: int| 0 <= j < n implies #[trigger] events[j] == prev[j] by {}
        let before = stop_phase_after(prev);
        match (before, e) {
            (StopPhase::ReadingPid, StopEvent::PidFile(Some(t))) => {
                if let Some(pid) = recorded_pid(t@) {
                    if pid > 1 {
                        assert(events[n] matches StopEvent::PidFile(Some(t)) && recorded_pid(t@)
                            == Some(pid));
                    }
                }
            },
            (StopPhase::QueryingProcess(pid), StopEvent::Process(Some(i))) => {
                let j = choose|j: int|
                    0 <= j < prev.len() && records_pid(#[trigger] prev[j], pid);
                assert(events[j] == prev[j]);
                assert(events[n] == e);
            },
            (StopPhase::Signalling(pid), StopEvent::Signalled { sent, no_such_process }) => {
                let (j, k) = choose|j: int, k: int|
                    0 <= j < k < prev.len() && records_pid(#[trigger] prev[j], pid) && names_running_mdv(#[trigger] prev[k]);
                assert(events[j] == prev[j]);
                assert(events[k] == prev[k]);
                assert(pid_checked(events, pid));
                assert(events[n] == e);
            },
            _ => {
                if stop_phase_after(events) == before {
                    match before {
                        StopPhase::QueryingProcess(pid) => {
                            let j = choose|j: int|
                                0 <= j < prev.len() && records_pid(#[trigger] prev[j], pid);
                            assert(events[j] == prev[j]);
                        },
                        StopPhase::Signalling(pid) => {
                            let (j, k) = choose|j: int, k: int|
                                0 <= j < k < prev.len() && records_pid(#[trigger] prev[j], pid)
                                    && names_running_mdv(#[trigger] prev[k]);
                            assert(events[j] == prev[j]);
                            assert(events[k] == prev[k]);
                        },
                        StopPhase::Removing => {
                            let j = choose|j: int|
                                0 <= j < prev.len() && answers_signal(#[trigger] prev[j]);
                            assert(events[j] == prev[j]);
                            let pid = choose|pid: i32| pid_checked(prev, pid);
                            let (j1, k1) = choose|j: int, k: int|
                                0 <= j < k < prev.len() && records_pid(#[trigger] prev[j], pid)
                                    && names_running_mdv(#[trigger] prev[k]);
                            assert(events[j1] == prev[j1]);
                            assert(events[k1] == prev[k1]);
                            assert(pid_checked(events, pid));
                        },
                        _ => {},
                    }
                }
            },
        }
    }
}

/// Stopping, over any events handed to the stopper from its start: the
/// termination signal goes only to the process whose id, above 1, the PID
/// file recorded and that `ps` then named an `mdv`; the daemon's files are
/// removed, and stopping succeeds, only after those checks passed and the
/// signal was sent (or the process was already gone). Any other outcome is
/// an error, with no file removed.
pub proof fn lemma_stop_protocol(events: Seq<StopEvent>)
    requires
        events.len() > 0,
    ensures
        stop_last_step(events) matches StopStep::Signal(pid) ==> pid_checked(events, pid),
        stop_last_step(events) is RemoveFiles ==> exists|pid: i32|
            pid_checked(events, pid) && signal_answered(events),
        stop_phase_after(events.drop_last()) != StopPhase::Done && stop_last_step(events)
            == StopStep::Finish(Ok(())) ==> exists|pid: i32|
            pid_checked(events, pid) && signal_answered(events),
{
    lemma_stop_history(events);
    lemma_stop_history(events.drop_last());
    let prev = events.drop_last();
    let n = prev.len() as int;
    assert forall|j: int| 0 <= j < n implies #[trigger] events[j] == prev[j] by {}
    assert(events[n] == events.last());
    let before = stop_phase_after(prev);
    match before {
        StopPhase::QueryingProcess(pid) => {
            let j = choose|j: int|
                0 <= j < prev.len() && records_pid(#[trigger] prev[j], pid);
            assert(events[j] == prev[j]);
        },
        StopPhase::Signalling(pid) => {
            let (j, k) = choose|j: int, k: int|
                0 <= j < k < prev.len() && records_pid(#[trigger] prev[j], pid) && names_running_mdv(#[trigger] prev[k]);
            assert(events[j] == prev[j]);
            assert(events[k] == prev[k]);
            assert(pid_checked(events, pid));
        },
        StopPhase::Removing => {
            let j = choose|j: int|
                0 <= j < prev.len() && answers_signal(#[trigger] prev[j]);
            assert(events[j] == prev[j]);
            let pid = choose|pid: i32| pid_checked(prev, pid);
            let (j1, k1) = choose|j: int, k: int|
                0 <= j < k < prev.len() && records_pid(#[trigger] prev[j], pid) && names_running_mdv(#[trigger] prev[k]);
            assert(events[j1] == prev[j1]);
            assert(events[k1] == prev[k1]);
            assert(pid_checked(events, pid));
        },
        _ => {},
    }
}

} // verus!

verus! {

/// Once the signal was sent, the daemon's files are removed next, whether
/// or not the process was already gone; stopping fails for the signal only
/// when it was not sent and the process is still there.
pub proof fn lemma_stop_after_signal(pid: i32, sent: bool, no_such_process: bool)
    ensures
        sent ==> stop_next(
            StopPhase::Signalling(pid),
            StopEvent::Signalled { sent, no_such_process },
        ) == (StopPhase::Removing, StopStep::RemoveFiles),
        no_such_process ==> stop_next(
            StopPhase::Signalling(pid),
            StopEvent::Signalled { sent, no_such_process },
        ) == (StopPhase::Removing, StopStep::RemoveFiles),
{
}

/// Stopping fails for the signal only right after a signal that was not
/// sent to a process that is still there.
pub proof fn lemma_signal_failure_cause(phase: StopPhase, event: StopEvent)
    requires
        stop_next(phase, event).1 == StopStep::Finish(Err(StopError::SignalFailed)),
    ensures
        phase is Signalling,
        event == (StopEvent::Signalled { sent: false, no_such_process: false }),
{
}

/// A plain stop: the PID file records a process above 1, `ps` says it is an
/// `mdv`, the signal is sent (whether or not the process was already gone)
/// and the files are removed; the stopper asks for exactly these steps in
/// turn and then reports success.
pub proof fn lemma_stop_run(text: String, info: ProcessInfo, no_such_process: bool)
    requires
        recorded_pid(text@) matches Some(pid) && pid > 1,
        info.success,
        names_mdv(info.output@),
    ensures
        ({
            let pid = recorded_pid(text@)->0;
            let events = seq![
                StopEvent::PidFile(Some(text)),
                StopEvent::Process(Some(info)),
                StopEvent::Signalled { sent: true, no_such_process },
                StopEvent::Removed,
            ];
            &&& stop_last_step(events.take(1)) == StopStep::QueryProcess(pid)
            &&& stop_last_step(events.take(2)) == StopStep::Signal(pid)
            &&& stop_last_step(events.take(3)) == StopStep::RemoveFiles
            &&& stop_last_step(events) == StopStep::Finish(Ok(()))
            &&& stop_phase_after(events) == StopPhase::Done
        }),
{
    let events = seq![
        StopEvent::PidFile(Some(text)),
        StopEvent::Process(Some(info)),
        StopEvent::Signalled { sent: true, no_such_process },
        StopEvent::Removed,
    ];
    let pid = recorded_pid(text@)->0;
    assert(events.take(0) =~= Seq::<StopEvent>::empty());
    assert(events.take(1).drop_last() =~= events.take(0));
    assert(events.take(2).drop_last() =~= events.take(1));
    assert(events.take(3).drop_last() =~= events.take(2));
    assert(events.drop_last() =~= events.take(3));
    assert(stop_phase_after(events.take(1)) == StopPhase::QueryingProcess(pid));
    assert(stop_phase_after(events.take(2)) == StopPhase::Signalling(pid));
    assert(stop_phase_after(events.take(3)) == StopPhase::Removing);
}

/// The launcher's phase after it was handed `events` in turn, from its
/// start.
pub open spec fn launch_phase_after(port: u16, events: Seq<LaunchEvent>) -> LaunchPhase
    decreases events.len(),
{
    if events.len() == 0 {
        LaunchPhase::CheckingRequested
    } else {
        launch_next(port, launch_phase_after(port, events.drop_last()), events.last()).0
    }
}

/// The step the launcher asks for on the last of `events`.
pub open spec fn launch_last_step(port: u16, events: Seq<LaunchEvent>) -> LaunchStep
    recommends
        events.len() > 0,
{
    launch_next(port, launch_phase_after(port, events.drop_last()), events.last()).1
}

/// While the spawned daemon is awaited, an answer ends the launch with
/// success, however many probes came before; the launcher probes again only
/// when the daemon did not answer.
pub proof fn lemma_launch_answer_while_waiting(port: u16, n: u32, answered: bool)
    ensures
        launch_next(port, LaunchPhase::Waiting(n), LaunchEvent::Answered(true)) == (
            LaunchPhase::Done,
            LaunchStep::Finish(Ok(())),
        ),
        launch_next(port, LaunchPhase::Waiting(n), LaunchEvent::Answered(answered)).1 is WaitThenProbe
            ==> !answered,
{
}

/// A first launch: no daemon answers on the port, no port is recorded, the
/// daemon is spawned and does not answer the first `misses` probes (fewer
/// than `LAUNCH_ATTEMPTS`), then answers: the launch succeeds.
pub proof fn lemma_first_launch(port: u16, misses: nat)
    requires
        misses < LAUNCH_ATTEMPTS,
    ensures
        ({
            let events = seq![
                LaunchEvent::Answered(false),
                LaunchEvent::RecordedPort(None),
                LaunchEvent::Spawned(true),
            ] + Seq::new(misses, |i: int| LaunchEvent::Answered(false)) + seq![
                LaunchEvent::Answered(true),
            ];
            &&& launch_last_step(port, events) == LaunchStep::Finish(Ok(()))
            &&& launch_phase_after(port, events) == LaunchPhase::Done
        }),
{
    let start = seq![
        LaunchEvent::Answered(false),
        LaunchEvent::RecordedPort(None),
        LaunchEvent::Spawned(true),
    ];
    assert(start.take(0) =~= Seq::<LaunchEvent>::empty());
    assert(start.take(1).drop_last() =~= start.take(0));
    assert(start.take(2).drop_last() =~= start.take(1));
    assert(start.drop_last() =~= start.take(2));
    assert(start.take(1).last() == LaunchEvent::Answered(false));
    assert(start.take(2).last() == LaunchEvent::RecordedPort(None));
    assert(launch_phase_after(port, Seq::<LaunchEvent>::empty()) == LaunchPhase::CheckingRequested);
    assert(launch_phase_after(port, start.take(1)) == LaunchPhase::ReadingRecorded);
    assert(launch_phase_after(port, start.take(2)) == LaunchPhase::Spawning);
    assert(launch_phase_after(port, start) == LaunchPhase::Waiting(1));
    lemma_launch_misses(port, start, misses);
    let waited = start + Seq::new(misses, |i: int| LaunchEvent::Answered(false));
    let events = waited + seq![LaunchEvent::Answered(true)];
    assert(events.drop_last() =~= waited);
}

proof fn lemma_launch_misses(port: u16, start: Seq<LaunchEvent>, k: nat)
    requires
        launch_phase_after(port, start) == LaunchPhase::Waiting(1),
        k < LAUNCH_ATTEMPTS,
    ensures
        launch_phase_after(port, start + Seq::new(k, |i: int| LaunchEvent::Answered(false)))
            == LaunchPhase::Waiting((k + 1) as u32),
    decreases k,
{
    if k == 0 {
        assert(start + Seq::new(0, |i: int| LaunchEvent::Answered(false)) =~= start);
    } else {
        lemma_launch_misses(port, start, (k - 1) as nat);
        let prev = start + Seq::new((k - 1) as nat, |i: int| LaunchEvent::Answered(false));
        let cur = start + Seq::new(k, |i: int| LaunchEvent::Answered(false));
        assert(cur.drop_last() =~= prev);
        assert(cur.last() == LaunchEvent::Answered(false));
    }
}

} // verus!

verus! {

/// What each check of the stopper answers: an unreadable PID file, text
/// that is no process id, an id of 1 or lower, `ps` failing to run, and a
/// process that is not an `mdv` each end stopping with their own error, and
/// nothing is signalled or removed.
pub proof fn lemma_stop_refusals(text: Option<String>, info: Option<ProcessInfo>, pid: i32)
    ensures
        text is None ==> stop_next(StopPhase::ReadingPid, StopEvent::PidFile(text)) == (
            StopPhase::Done,
            StopStep::Finish(Err(StopError::PidFileUnreadable)),
        ),
        text matches Some(t) && recorded_pid(t@) is None ==> stop_next(
            StopPhase::ReadingPid,
            StopEvent::PidFile(text),
        ) == (StopPhase::Done, StopStep::Finish(Err(StopError::InvalidPid))),
        text matches Some(t) && recorded_pid(t@) matches Some(p) && p <= 1 ==> stop_next(
            StopPhase::ReadingPid,
            StopEvent::PidFile(text),
        ) == (StopPhase::Done, StopStep::Finish(Err(StopError::RefusedPid))),
        text matches Some(t) && recorded_pid(t@) == Some(pid) && pid > 1 ==> stop_next(
            StopPhase::ReadingPid,
            StopEvent::PidFile(text),
        ) == (StopPhase::QueryingProcess(pid), StopStep::QueryProcess(pid)),
        info is None ==> stop_next(StopPhase::QueryingProcess(pid), StopEvent::Process(info)) == (
            StopPhase::Done,
            StopStep::Finish(Err(StopError::QueryFailed)),
        ),
        info matches Some(i) && !(i.success && names_mdv(i.output@)) ==> stop_next(
            StopPhase::QueryingProcess(pid),
            StopEvent::Process(info),
        ) == (StopPhase::Done, StopStep::Finish(Err(StopError::NotRunning))),
{
}

/// A launch where a daemon already answers on the port ends at once with
/// success; one where another daemon answers on the recorded port is
/// refused with that port; one where the recorded port does not answer
/// spawns a daemon on the requested port.
pub proof fn lemma_launch_reuse_and_refuse(port: u16, text: String, answers: bool)
    requires
        recorded_port(text@) is Some,
    ensures
        launch_last_step(port, seq![LaunchEvent::Answered(true)]) == LaunchStep::Finish(Ok(())),
        ({
            let other = recorded_port(text@)->0;
            let events = seq![
                LaunchEvent::Answered(false),
                LaunchEvent::RecordedPort(Some(text)),
                LaunchEvent::Answered(answers),
            ];
            &&& launch_last_step(port, events.take(2)) == LaunchStep::Probe(other)
            &&& answers ==> launch_last_step(port, events) == LaunchStep::Finish(
                Err(LaunchError::AlreadyRunning(other)),
            )
            &&& !answers ==> launch_last_step(port, events) == LaunchStep::Spawn(port)
        }),
{
    let events = seq![
        LaunchEvent::Answered(false),
        LaunchEvent::RecordedPort(Some(text)),
        LaunchEvent::Answered(answers),
    ];
    assert(seq![LaunchEvent::Answered(true)].drop_last() =~= Seq::<LaunchEvent>::empty());
    assert(events.take(1).drop_last() =~= Seq::<LaunchEvent>::empty());
    assert(events.take(2).drop_last() =~= events.take(1));
    assert(events.drop_last() =~= events.take(2));
    assert(events.take(1).last() == LaunchEvent::Answered(false));
    assert(launch_phase_after(port, events.take(1)) == LaunchPhase::ReadingRecorded);
}

/// A spawned daemon that answers none of `LAUNCH_ATTEMPTS` probes makes the
/// launch give up with `TimedOut`.
pub proof fn lemma_launch_times_out(port: u16)
    ensures
        ({
            let events = seq![
                LaunchEvent::Answered(false),
                LaunchEvent::RecordedPort(None),
                LaunchEvent::Spawned(true),
            ] + Seq::new(LAUNCH_ATTEMPTS as nat, |i: int| LaunchEvent::Answered(false));
            launch_last_step(port, events) == LaunchStep::Finish(Err(LaunchError::TimedOut))
        }),
{
    let start = seq![
        LaunchEvent::Answered(false),
        LaunchEvent::RecordedPort(None),
        LaunchEvent::Spawned(true),
    ];
    assert(start.take(0) =~= Seq::<LaunchEvent>::empty());
    assert(start.take(1).drop_last() =~= start.take(0));
    assert(start.take(2).drop_last() =~= start.take(1));
    assert(start.drop_last() =~= start.take(2));
    assert(start.take(1).last() == LaunchEvent::Answered(false));
    assert(start.take(2).last() == LaunchEvent::RecordedPort(None));
    assert(launch_phase_after(port, Seq::<LaunchEvent>::empty()) == LaunchPhase::CheckingRequested);
    assert(launch_phase_after(port, start.take(1)) == LaunchPhase::ReadingRecorded);
    assert(launch_phase_after(port, start.take(2)) == LaunchPhase::Spawning);
    assert(launch_phase_after(port, start) == LaunchPhase::Waiting(1));
    let k = (LAUNCH_ATTEMPTS - 1) as nat;
    lemma_launch_misses(port, start, k);
    let events = start + Seq::new(LAUNCH_ATTEMPTS as nat, |i: int| LaunchEvent::Answered(false));
    assert(events.drop_last() =~= start + Seq::new(k, |i: int| LaunchEvent::Answered(false)));
    assert(events.last() == LaunchEvent::Answered(false));
}

} // verus!
