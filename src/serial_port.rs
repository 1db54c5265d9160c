use vstd::prelude::*;

use std::sync::mpsc::{Receiver, Sender, SyncSender};

use crate::framer::{extract_lines, framed_lines, leftover, lossy_text};
use crate::settings::{LineEnding, Settings};

verus! {

/// A request from the controller to the serial worker.
pub enum SerialCommand {
    Send(Vec<u8>),
    Disconnect,
}

/// A notification from the serial worker to the controller.
pub enum SerialEvent {
    Data(String),
    Connected,
    Disconnected,
    Error(String),
}

#[verifier::external_type_specification]
#[verifier::external_body]
#[verifier::reject_recursive_types(T)]
pub struct ExSender<T>(Sender<T>);

#[verifier::external_type_specification]
#[verifier::external_body]
#[verifier::reject_recursive_types(T)]
pub struct ExSyncSender<T>(SyncSender<T>);

#[verifier::external_type_specification]
#[verifier::external_body]
#[verifier::reject_recursive_types(T)]
pub struct ExReceiver<T>(Receiver<T>);

/// Relies on `std::sync::mpsc::sync_channel`: a bounded FIFO channel.
#[verifier::external_body]
fn event_channel(capacity: usize) -> (r: (SyncSender<SerialEvent>, Receiver<SerialEvent>)) {
    std::sync::mpsc::sync_channel(capacity)
}

/// Relies on `std::sync::mpsc::channel`: an unbounded FIFO channel.
#[verifier::external_body]
fn command_channel() -> (r: (Sender<SerialCommand>, Receiver<SerialCommand>)) {
    std::sync::mpsc::channel()
}

/// Relies on `SyncSender::clone`: another handle on the same channel.
#[verifier::external_body]
fn share_event_sender(tx: &SyncSender<SerialEvent>) -> (r: SyncSender<SerialEvent>) {
    tx.clone()
}

/// Relies on `Sender::send`, which fails only when the receiving side is gone.
#[verifier::external_body]
fn post_command(tx: &Sender<SerialCommand>, cmd: SerialCommand) -> (delivered: bool) {
    tx.send(cmd).is_ok()
}

/// Relies on `Receiver::try_recv`: the next queued event, if there is one.
#[verifier::external_body]
fn next_event(rx: &Receiver<SerialEvent>) -> (r: Option<SerialEvent>) {
    rx.try_recv().ok()
}

/// Capacity of the event channel: bursts of received data queue here while
/// the controller catches up.
pub const EVENT_CAPACITY: usize = 256;

/// The controller's end of a serial connection.
pub struct SerialPortManager {
    pub cmd_tx: Option<Sender<SerialCommand>>,
    pub event_rx: Receiver<SerialEvent>,
    pub event_tx: SyncSender<SerialEvent>,
    pub is_connected: bool,
}

impl SerialPortManager {
    /// A manager with its event channel and no connection.
    pub fn new() -> (r: SerialPortManager)
        ensures
            r.cmd_tx is None,
            !r.is_connected,
    {
        let (event_tx, event_rx) = event_channel(EVENT_CAPACITY);
        SerialPortManager { cmd_tx: None, event_rx, event_tx, is_connected: false }
    }

    /// Asks the worker to stop and forgets the connection.
    pub fn disconnect(&mut self)
        ensures
            final(self).cmd_tx is None,
            !final(self).is_connected,
    {
        let tx = self.cmd_tx.take();
        match tx {
            Some(t) => {
                let _ = post_command(&t, SerialCommand::Disconnect);
            },
            None => {},
        }
        self.is_connected = false;
    }

    /// First half of connecting: checks that a device is named and, only
    /// then, drops the current connection, if any. A missing name is a
    /// configuration error and leaves an existing connection as it is. The
    /// caller then opens the device and, if that succeeds, calls `attach`.
    pub fn prepare_connect(&mut self, settings: &Settings) -> (r: Result<(), String>)
        ensures
            r is Ok <==> settings.port_name@.len() > 0,
            r matches Err(e) ==> e@ == "No port selected"@ && *final(self) == *old(self),
            r is Ok ==> !final(self).is_connected,
            r is Ok && old(self).is_connected ==> final(self).cmd_tx is None,
            r is Ok && !old(self).is_connected ==> final(self).cmd_tx == old(self).cmd_tx,
    {
        if settings.port_name.as_str().is_empty() {
            return Err(String::from_str("No port selected"));
        }
        if self.is_connected {
            self.disconnect();
        }
        Ok(())
    }

    /// Second half of connecting: opens the command channel and hands back
    /// the worker's ends of both channels.
    pub fn attach(&mut self) -> (r: (Receiver<SerialCommand>, SyncSender<SerialEvent>))
        ensures
            final(self).cmd_tx is Some,
            final(self).is_connected,
    {
        let (cmd_tx, cmd_rx) = command_channel();
        self.cmd_tx = Some(cmd_tx);
        self.is_connected = true;
        (cmd_rx, share_event_sender(&self.event_tx))
    }

    /// Queues `data` for writing when connected; does nothing otherwise.
    pub fn send(&self, data: Vec<u8>) {
        match &self.cmd_tx {
            Some(tx) => {
                let _ = post_command(tx, SerialCommand::Send(data));
            },
            None => {},
        }
    }

    /// Drains every event that is queued now, in arrival order.
    pub fn poll_events(&self) -> (r: Vec<SerialEvent>) {
        let mut events: Vec<SerialEvent> = Vec::new();
        let mut budget: usize = usize::MAX;
        while budget > 0
            decreases budget,
        {
            match next_event(&self.event_rx) {
                Some(ev) => events.push(ev),
                None => break,
            }
            budget -= 1;
        }
        events
    }
}


/// Lifecycle of the serial worker.
#[derive(Debug, Clone, Copy, PartialEq, Eq, Structural)]
pub enum WorkerPhase {
    Starting,
    Running,
    Stopped,
}

/// What the worker's loop observed: the start, a command or the end of the
/// command source, the outcome of a write, or the outcome of a read.
pub enum WorkerInput {
    Started,
    Command(SerialCommand),
    CommandsClosed,
    WriteFailed(String),
    Received(Vec<u8>),
    ReadTimedOut,
    ReadFailed(String),
}

/// What the worker's loop must do next: emit `events` in order, then write
/// `write` to the device if it is present.
pub struct WorkerStep {
    pub events: Vec<SerialEvent>,
    pub write: Option<Vec<u8>>,
}

/// The decisions of the task that owns the device: its phase and the bytes
/// received since the last complete record.
pub struct SerialWorker {
    pub phase: WorkerPhase,
    pub buffer: Vec<u8>,
    pub line_ending: LineEnding,
}

/// `evs` are the data events for the records whose bytes are `lines`.
pub open spec fn data_events(evs: Seq<SerialEvent>, lines: Seq<Seq<u8>>) -> bool {
    &&& evs.len() == lines.len()
    &&& forall|i: int|
        0 <= i < evs.len() ==> match #[trigger] evs[i] {
            SerialEvent::Data(t) => t@ == lossy_text(lines[i]),
            _ => false,
        }
}

/// `e` is an error event with text `msg`.
pub open spec fn error_event(e: SerialEvent, msg: Seq<char>) -> bool {
    match e {
        SerialEvent::Error(t) => t@ == msg,
        _ => false,
    }
}

/// Nothing happens: the state is kept and nothing is emitted or written.
pub open spec fn idle(before: SerialWorker, after: SerialWorker, out: WorkerStep) -> bool {
    &&& after.phase == before.phase
    &&& after.buffer@ == before.buffer@
    &&& out.events@.len() == 0
    &&& out.write is None
}

/// The transition of the worker on `input`.
pub open spec fn worker_step(before: SerialWorker, input: WorkerInput, after: SerialWorker, out: WorkerStep) -> bool {
    &&& after.line_ending == before.line_ending
    &&& match before.phase {
        WorkerPhase::Stopped => idle(before, after, out),
        WorkerPhase::Starting => match input {
            WorkerInput::Started => {
                &&& after.phase == WorkerPhase::Running
                &&& after.buffer@ == before.buffer@
                &&& out.events@.len() == 1
                &&& out.events@[0] is Connected
                &&& out.write is None
            },
            _ => idle(before, after, out),
        },
        WorkerPhase::Running => match input {
            WorkerInput::Command(SerialCommand::Send(b)) => {
                &&& after.phase == WorkerPhase::Running
                &&& after.buffer@ == before.buffer@
                &&& out.events@.len() == 0
                &&& out.write == Some(b)
            },
            WorkerInput::Command(SerialCommand::Disconnect) | WorkerInput::CommandsClosed => {
                &&& after.phase == WorkerPhase::Stopped
                &&& out.events@.len() == 1
                &&& out.events@[0] is Disconnected
                &&& out.write is None
            },
            WorkerInput::WriteFailed(m) => {
                &&& after.phase == WorkerPhase::Running
                &&& after.buffer@ == before.buffer@
                &&& out.events@.len() == 1
                &&& error_event(out.events@[0], "Write error: "@ + m@)
                &&& out.write is None
            },
            WorkerInput::Received(b) => if b@.len() == 0 {
                idle(before, after, out)
            } else {
                &&& after.phase == WorkerPhase::Running
                &&& after.buffer@ == leftover(before.buffer@ + b@, before.line_ending)
                &&& data_events(out.events@, framed_lines(before.buffer@ + b@, before.line_ending))
                &&& out.write is None
            },
            WorkerInput::ReadFailed(m) => {
                &&& after.phase == WorkerPhase::Stopped
                &&& out.events@.len() == 2
                &&& error_event(out.events@[0], "Read error: "@ + m@)
                &&& out.events@[1] is Disconnected
                &&& out.write is None
            },
            WorkerInput::Started | WorkerInput::ReadTimedOut => idle(before, after, out),
        },
    }
}

fn prefixed(prefix: &str, m: &String) -> (r: String)
    ensures
        r@ == prefix@ + m@,
{
    let mut r = String::from_str(prefix);
    r.append(m.as_str());
    r
}

impl SerialWorker {
    /// A worker that has not started, framing with `line_ending`.
    pub fn new(line_ending: LineEnding) -> (r: SerialWorker)
        ensures
            r.phase == WorkerPhase::Starting,
            r.buffer@.len() == 0,
            r.line_ending == line_ending,
    {
        SerialWorker { phase: WorkerPhase::Starting, buffer: Vec::new(), line_ending }
    }

    /// Whether the worker has ended; its loop must then return.
    pub fn is_stopped(&self) -> (r: bool)
        ensures
            r == (self.phase == WorkerPhase::Stopped),
    {
        self.phase == WorkerPhase::Stopped
    }

    /// Decides what to do on `input`.
    pub fn step(&mut self, input: WorkerInput) -> (r: WorkerStep)
        ensures
            worker_step(*old(self), input, *final(self), r),
    {
        let none = WorkerStep { events: Vec::new(), write: None };
        match self.phase {
            WorkerPhase::Stopped => none,
            WorkerPhase::Starting => match input {
                WorkerInput::Started => {
                    self.phase = WorkerPhase::Running;
                    WorkerStep { events: vec![SerialEvent::Connected], write: None }
                },
                _ => none,
            },
            WorkerPhase::Running => match input {
                WorkerInput::Command(SerialCommand::Send(b)) => WorkerStep { events: Vec::new(), write: Some(b) },
                WorkerInput::Command(SerialCommand::Disconnect) | WorkerInput::CommandsClosed => {
                    self.phase = WorkerPhase::Stopped;
                    WorkerStep { events: vec![SerialEvent::Disconnected], write: None }
                },
                WorkerInput::WriteFailed(m) => {
                    let t = prefixed("Write error: ", &m);
                    WorkerStep { events: vec![SerialEvent::Error(t)], write: None }
                },
                WorkerInput::Received(b) => {
                    if b.len() == 0 {
                        return none;
                    }
                    let mut bytes = b;
                    let ghost joined_bytes = self.buffer@ + bytes@;
                    self.buffer.append(&mut bytes);
                    assert(self.buffer@ =~= joined_bytes);
                    let ending = self.line_ending;
                    let lines = extract_lines(&mut self.buffer, &ending);
                    let mut events: Vec<SerialEvent> = Vec::new();
                    let mut i: usize = 0;
                    while i < lines.len()
                        invariant
                            i <= lines.len(),
                            events@.len() == i,
                            forall|k: int|
                                0 <= k < i ==> match #[trigger] events@[k] {
                                    SerialEvent::Data(t) => t@ == lines@[k]@,
                                    _ => false,
                                },
                        decreases lines.len() - i,
                    {
                        events.push(SerialEvent::Data(lines[i].clone()));
                        i += 1;
                    }
                    WorkerStep { events, write: None }
                },
                WorkerInput::ReadFailed(m) => {
                    let t = prefixed("Read error: ", &m);
                    self.phase = WorkerPhase::Stopped;
                    WorkerStep { events: vec![SerialEvent::Error(t), SerialEvent::Disconnected], write: None }
                },
                WorkerInput::Started | WorkerInput::ReadTimedOut => none,
            },
        }
    }
}

} // verus!
