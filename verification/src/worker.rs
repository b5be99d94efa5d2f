//! The worker of an enabled logger, as a state machine.
//!
//! The worker itself neither waits for messages nor touches a file. It is
//! told what happened, as a `WorkerEvent`, and answers what to do next, as a
//! `WorkerAction`. Whoever drives it performs the action and reports its
//! outcome as the next event:
//!
//! | action    | to do                                              | next event |
//! |-----------|----------------------------------------------------|------------|
//! | `Receive` | wait for the next message                          | `Line`, `Closed` |
//! | `Print`   | print the line, then wait for the next message     | `Line`, `Closed` |
//! | `Flush`   | make sure the directory exists, open the current file for appending if asked to, write the text in one piece, flush, sync, measure the file | `Flushed` |
//! | `List`    | close the current file, read the names in the directory | `Listed` |
//! | `Rotate`  | delete the evicted file, then rename in order      | `Rotated`  |
//! | `Stop`    | give up: the worker takes no more messages         | none       |

use vstd::prelude::*;
use vstd::string::StringExecFns;
use crate::clock::Moment;
use crate::formatter::time_text;
use crate::message::{Message, MessageView};
use crate::rotation::{listing_of, plan_rotation, rotation_plan, PlanView, RotationPlan};
use crate::settings::{FileSettingsView, OutputChannel, OutputView, Settings, SettingsView};
use crate::text::{join, joined, texts_of};

verus! {

/// Why the worker gave up.
#[derive(Clone, Copy, Debug, PartialEq, Eq, Structural)]
pub enum StopReason {
    /// Every sender of the queue is gone.
    ChannelClosed,
    /// The log directory is missing and could not be made.
    Directory,
    /// The current file could not be opened, or not be measured.
    File,
    /// Writing to the current file, or flushing it, failed.
    Write,
    /// The evicted file could not be deleted.
    Eviction,
    /// A file could not be renamed.
    Renaming,
    /// An event came that the worker was not waiting for.
    OutOfOrder,
}

/// Where the worker sends its lines.
#[derive(Clone, Copy, Debug, PartialEq, Eq, Structural)]
pub enum Sink {
    Console,
    File,
}

/// What the worker is waiting for.
#[derive(Clone, Copy, Debug, PartialEq, Eq, Structural)]
pub enum WorkerPhase {
    /// For the next message.
    Receiving,
    /// For the outcome of a `Flush`.
    Flushing,
    /// For the names in the log directory.
    Listing,
    /// For the outcome of a `Rotate`.
    Rotating,
    /// For nothing any more.
    Stopped(StopReason),
}

/// How a `Flush` ended.
#[derive(Clone, Copy, Debug, PartialEq, Eq, Structural)]
pub enum FlushOutcome {
    /// The text is in the file, which now holds this many bytes.
    Written(u64),
    DirectoryFailed,
    OpenFailed,
    WriteFailed,
    /// The text is in the file, whose size could not be had.
    SizeUnknown,
}

/// How a `Rotate` ended.
#[derive(Clone, Copy, Debug, PartialEq, Eq, Structural)]
pub enum RotationOutcome {
    Done,
    EvictionFailed,
    RenameFailed,
}

/// What happened.
#[derive(Clone, Debug)]
pub enum WorkerEvent {
    /// A message came and was rendered to this line.
    Line(String),
    /// The queue is closed.
    Closed,
    Flushed(FlushOutcome),
    /// The names of the files in the log directory; `None` where the
    /// directory could not be read, which counts as an empty directory.
    Listed(Option<Vec<String>>),
    Rotated(RotationOutcome),
}

/// `WorkerEvent` over plain characters.
pub enum EventView {
    Line(Seq<char>),
    Closed,
    Flushed(FlushOutcome),
    Listed(Option<Seq<Seq<char>>>),
    Rotated(RotationOutcome),
}

impl View for WorkerEvent {
    type V = EventView;

    open spec fn view(&self) -> EventView {
        match self {
            WorkerEvent::Line(line) => EventView::Line(line@),
            WorkerEvent::Closed => EventView::Closed,
            WorkerEvent::Flushed(outcome) => EventView::Flushed(*outcome),
            WorkerEvent::Listed(Some(names)) => EventView::Listed(Some(texts_of(names@))),
            WorkerEvent::Listed(None) => EventView::Listed(None),
            WorkerEvent::Rotated(outcome) => EventView::Rotated(*outcome),
        }
    }
}

/// What to do next.
#[derive(Clone, Debug)]
pub enum WorkerAction {
    Receive,
    Print(String),
    Flush {
        /// The lines to append to the current file, each with its newline.
        text: String,
        /// Whether the current file has to be opened first.
        open: bool,
    },
    List,
    Rotate(RotationPlan),
    Stop(StopReason),
}

/// `WorkerAction` over plain characters.
pub enum ActionView {
    Receive,
    Print(Seq<char>),
    Flush { text: Seq<char>, open: bool },
    List,
    Rotate(PlanView),
    Stop(StopReason),
}

impl View for WorkerAction {
    type V = ActionView;

    open spec fn view(&self) -> ActionView {
        match self {
            WorkerAction::Receive => ActionView::Receive,
            WorkerAction::Print(line) => ActionView::Print(line@),
            WorkerAction::Flush { text, open } => ActionView::Flush { text: text@, open: *open },
            WorkerAction::List => ActionView::List,
            WorkerAction::Rotate(plan) => ActionView::Rotate(plan@),
            WorkerAction::Stop(reason) => ActionView::Stop(*reason),
        }
    }
}

/// The state of a worker.
pub struct WorkerView {
    pub settings: SettingsView,
    pub sink: Sink,
    pub phase: WorkerPhase,
    /// The lines gathered and not yet written, oldest first.
    pub buffer: Seq<Seq<char>>,
    /// Whether the current file is open.
    pub file_open: bool,
}

/// The sink that an output channel stands for. `Auto` is the console in a
/// development build and the files otherwise.
pub open spec fn sink_of(output: OutputView, development: bool) -> Sink {
    match output {
        OutputView::File(_) => Sink::File,
        OutputView::Console => Sink::Console,
        OutputView::Auto(_) => if development {
            Sink::Console
        } else {
            Sink::File
        },
    }
}

/// The file settings of an output channel that has any.
pub open spec fn files_of(output: OutputView) -> Option<FileSettingsView> {
    match output {
        OutputView::File(files) => Some(files),
        OutputView::Console => None,
        OutputView::Auto(files) => Some(files),
    }
}

/// The state in which a worker starts.
pub open spec fn initial(settings: SettingsView, development: bool) -> WorkerView {
    WorkerView {
        settings,
        sink: sink_of(settings.output, development),
        phase: WorkerPhase::Receiving,
        buffer: Seq::empty(),
        file_open: false,
    }
}

/// The text of one write: the lines in order, each followed by a newline.
pub open spec fn flush_text(buffer: Seq<Seq<char>>) -> Seq<char> {
    joined(buffer, seq!['\n']) + seq!['\n']
}

/// Whether a file of `bytes` bytes has reached the ceiling of `bits` bits.
pub open spec fn is_full(bytes: int, bits: nat) -> bool {
    bytes * 8 >= bits
}

/// Giving up for `reason`.
pub open spec fn stopped(w: WorkerView, reason: StopReason) -> (WorkerView, ActionView) {
    (WorkerView { phase: WorkerPhase::Stopped(reason), ..w }, ActionView::Stop(reason))
}

/// A line for the files: it joins the buffer, and a buffer that has reached
/// the configured size is written out.
pub open spec fn gathered(w: WorkerView, line: Seq<char>) -> (WorkerView, ActionView) {
    let buffer = w.buffer.push(line);
    if buffer.len() < w.settings.buffer_size {
        (WorkerView { buffer, ..w }, ActionView::Receive)
    } else {
        (
            WorkerView { buffer, phase: WorkerPhase::Flushing, ..w },
            ActionView::Flush { text: flush_text(buffer), open: !w.file_open },
        )
    }
}

/// The end of a write. Once the text is in the file the buffer is empty;
/// a file that has reached its ceiling is closed and rotated.
pub open spec fn flushed(w: WorkerView, outcome: FlushOutcome) -> (WorkerView, ActionView) {
    match outcome {
        FlushOutcome::DirectoryFailed => stopped(w, StopReason::Directory),
        FlushOutcome::OpenFailed => stopped(w, StopReason::File),
        FlushOutcome::WriteFailed => stopped(w, StopReason::Write),
        FlushOutcome::SizeUnknown => stopped(
            WorkerView { buffer: Seq::empty(), file_open: true, ..w },
            StopReason::File,
        ),
        FlushOutcome::Written(bytes) => match files_of(w.settings.output) {
            Some(files) => if is_full(bytes as int, files.file_size) {
                (
                    WorkerView {
                        buffer: Seq::empty(),
                        file_open: false,
                        phase: WorkerPhase::Listing,
                        ..w
                    },
                    ActionView::List,
                )
            } else {
                (
                    WorkerView {
                        buffer: Seq::empty(),
                        file_open: true,
                        phase: WorkerPhase::Receiving,
                        ..w
                    },
                    ActionView::Receive,
                )
            },
            None => stopped(w, StopReason::OutOfOrder),
        },
    }
}

/// The names of the directory have come: the rotation is planned.
pub open spec fn listed(w: WorkerView, names: Option<Seq<Seq<char>>>) -> (WorkerView, ActionView) {
    let found = match names {
        Some(names) => names,
        None => Seq::empty(),
    };
    match files_of(w.settings.output) {
        Some(files) => (
            WorkerView { phase: WorkerPhase::Rotating, ..w },
            ActionView::Rotate(
                rotation_plan(
                    listing_of(found, files.filename, files.file_extension),
                    files.capacity,
                    files.filename,
                    files.file_extension,
                ),
            ),
        ),
        None => stopped(w, StopReason::OutOfOrder),
    }
}

/// The end of a rotation.
pub open spec fn rotated(w: WorkerView, outcome: RotationOutcome) -> (WorkerView, ActionView) {
    match outcome {
        RotationOutcome::Done => (
            WorkerView { phase: WorkerPhase::Receiving, ..w },
            ActionView::Receive,
        ),
        RotationOutcome::EvictionFailed => stopped(w, StopReason::Eviction),
        RotationOutcome::RenameFailed => stopped(w, StopReason::Renaming),
    }
}

/// What the worker makes of an event while it sends its lines to the
/// console: each line is printed at once.
pub open spec fn console_step(w: WorkerView, event: EventView) -> (WorkerView, ActionView) {
    match (w.phase, event) {
        (WorkerPhase::Receiving, EventView::Line(line)) => (w, ActionView::Print(line)),
        (WorkerPhase::Receiving, EventView::Closed) => stopped(w, StopReason::ChannelClosed),
        _ => stopped(w, StopReason::OutOfOrder),
    }
}

/// What the worker makes of an event while it sends its lines to files.
pub open spec fn file_step(w: WorkerView, event: EventView) -> (WorkerView, ActionView) {
    match (w.phase, event) {
        (WorkerPhase::Receiving, EventView::Line(line)) => gathered(w, line),
        (WorkerPhase::Receiving, EventView::Closed) => stopped(w, StopReason::ChannelClosed),
        (WorkerPhase::Flushing, EventView::Flushed(outcome)) => flushed(w, outcome),
        (WorkerPhase::Listing, EventView::Listed(names)) => listed(w, names),
        (WorkerPhase::Rotating, EventView::Rotated(outcome)) => rotated(w, outcome),
        _ => stopped(w, StopReason::OutOfOrder),
    }
}

/// The next state of the worker and what it asks for. A stopped worker
/// stays stopped whatever comes.
pub open spec fn step(w: WorkerView, event: EventView) -> (WorkerView, ActionView) {
    match w.phase {
        WorkerPhase::Stopped(reason) => (w, ActionView::Stop(reason)),
        _ => match w.sink {
            Sink::Console => console_step(w, event),
            Sink::File => file_step(w, event),
        },
    }
}

/// The worker of an enabled logger.
pub struct EnabledLogger {
    settings: Settings,
    sink: Sink,
    phase: WorkerPhase,
    buffer: Vec<String>,
    file_open: bool,
}

impl View for EnabledLogger {
    type V = WorkerView;

    closed spec fn view(&self) -> WorkerView {
        WorkerView {
            settings: self.settings@,
            sink: self.sink,
            phase: self.phase,
            buffer: texts_of(self.buffer@),
            file_open: self.file_open,
        }
    }
}

impl EnabledLogger {
    /// A worker that waits for its first message. `development` says
    /// whether this is a development build, which decides where an `Auto`
    /// channel sends the lines.
    pub fn new(settings: Settings, development: bool) -> (r: Self)
        ensures
            r@ == initial(settings@, development),
    {
        let sink = match settings.output() {
            OutputChannel::File(_) => Sink::File,
            OutputChannel::Console => Sink::Console,
            OutputChannel::Auto(_) => if development {
                Sink::Console
            } else {
                Sink::File
            },
        };
        let r = Self {
            settings,
            sink,
            phase: WorkerPhase::Receiving,
            buffer: Vec::new(),
            file_open: false,
        };
        assert(texts_of(r.buffer@) =~= Seq::<Seq<char>>::empty());
        r
    }

    /// What the worker is waiting for.
    pub fn phase(&self) -> (r: WorkerPhase)
        ensures
            r == self@.phase,
    {
        self.phase
    }

    /// Where the worker sends its lines.
    pub fn sink(&self) -> (r: Sink)
        ensures
            r == self@.sink,
    {
        self.sink
    }

    /// The number of lines gathered and not yet written.
    pub fn buffered(&self) -> (r: usize)
        ensures
            r == self@.buffer.len(),
    {
        self.buffer.len()
    }

    /// Takes a message that came in at the moment `now`: renders it and
    /// runs the worker on the line.
    pub fn receive(&mut self, message: &Message, now: &Moment) -> (action: WorkerAction)
        ensures
            (final(self)@, action@) == step(
                old(self)@,
                EventView::Line(
                    line_of(
                        old(self)@.settings,
                        time_text(old(self)@.settings.formatter.timestamp, *now),
                        message@,
                    ),
                ),
            ),
    {
        let line = self.settings.format_message(message, now);
        self.run(WorkerEvent::Line(line))
    }

    /// Runs the worker on one event.
    pub fn run(&mut self, event: WorkerEvent) -> (action: WorkerAction)
        ensures
            (final(self)@, action@) == step(old(self)@, event@),
    {
        match self.phase {
            WorkerPhase::Stopped(reason) => WorkerAction::Stop(reason),
            _ => match self.sink {
                Sink::Console => self.write_to_console(event),
                Sink::File => self.write_to_file(event),
            },
        }
    }

    fn stop(&mut self, reason: StopReason) -> (action: WorkerAction)
        ensures
            (final(self)@, action@) == stopped(old(self)@, reason),
    {
        self.phase = WorkerPhase::Stopped(reason);
        WorkerAction::Stop(reason)
    }

    fn write_to_console(&mut self, event: WorkerEvent) -> (action: WorkerAction)
        ensures
            (final(self)@, action@) == console_step(old(self)@, event@),
    {
        match self.phase {
            WorkerPhase::Receiving => match event {
                WorkerEvent::Line(line) => WorkerAction::Print(line),
                WorkerEvent::Closed => self.stop(StopReason::ChannelClosed),
                _ => self.stop(StopReason::OutOfOrder),
            },
            _ => self.stop(StopReason::OutOfOrder),
        }
    }

    fn write_to_file(&mut self, event: WorkerEvent) -> (action: WorkerAction)
        ensures
            (final(self)@, action@) == file_step(old(self)@, event@),
    {
        match self.phase {
            WorkerPhase::Receiving => match event {
                WorkerEvent::Line(line) => {
                    self.buffer.push(line);
                    assert(texts_of(self.buffer@) =~= texts_of(old(self).buffer@).push(line@));
                    if self.settings.buffer_size() > self.buffer.len() {
                        return WorkerAction::Receive;
                    }
                    proof {
                        reveal_strlit("\n");
                        assert("\n"@ =~= seq!['\n']);
                    }
                    let mut text = join(&self.buffer, "\n");
                    text.append("\n");
                    self.phase = WorkerPhase::Flushing;
                    WorkerAction::Flush { text, open: !self.file_open }
                },
                WorkerEvent::Closed => self.stop(StopReason::ChannelClosed),
                _ => self.stop(StopReason::OutOfOrder),
            },
            WorkerPhase::Flushing => match event {
                WorkerEvent::Flushed(outcome) => self.after_flush(outcome),
                _ => self.stop(StopReason::OutOfOrder),
            },
            WorkerPhase::Listing => match event {
                WorkerEvent::Listed(names) => {
                    let found = match names {
                        Some(names) => names,
                        None => Vec::new(),
                    };
                    assert(names is None ==> texts_of(found@) =~= Seq::<Seq<char>>::empty());
                    match self.settings.output().settings() {
                        Some(files) => {
                            let plan = plan_rotation(&found, files);
                            self.phase = WorkerPhase::Rotating;
                            WorkerAction::Rotate(plan)
                        },
                        None => self.stop(StopReason::OutOfOrder),
                    }
                },
                _ => self.stop(StopReason::OutOfOrder),
            },
            WorkerPhase::Rotating => match event {
                WorkerEvent::Rotated(RotationOutcome::Done) => {
                    self.phase = WorkerPhase::Receiving;
                    WorkerAction::Receive
                },
                WorkerEvent::Rotated(RotationOutcome::EvictionFailed) => self.stop(
                    StopReason::Eviction,
                ),
                WorkerEvent::Rotated(RotationOutcome::RenameFailed) => self.stop(
                    StopReason::Renaming,
                ),
                _ => self.stop(StopReason::OutOfOrder),
            },
            WorkerPhase::Stopped(_) => self.stop(StopReason::OutOfOrder),
        }
    }

    fn after_flush(&mut self, outcome: FlushOutcome) -> (action: WorkerAction)
        ensures
            (final(self)@, action@) == flushed(old(self)@, outcome),
    {
        match outcome {
            FlushOutcome::DirectoryFailed => self.stop(StopReason::Directory),
            FlushOutcome::OpenFailed => self.stop(StopReason::File),
            FlushOutcome::WriteFailed => self.stop(StopReason::Write),
            FlushOutcome::SizeUnknown => {
                self.buffer.clear();
                self.file_open = true;
                assert(texts_of(self.buffer@) =~= Seq::<Seq<char>>::empty());
                self.stop(StopReason::File)
            },
            FlushOutcome::Written(bytes) => {
                let ceiling = match self.settings.output().settings() {
                    Some(files) => files.file_size(),
                    None => {
                        return self.stop(StopReason::OutOfOrder);
                    },
                };
                self.buffer.clear();
                assert(texts_of(self.buffer@) =~= Seq::<Seq<char>>::empty());
                if bytes as u128 * 8 >= ceiling as u128 {
                    self.file_open = false;
                    self.phase = WorkerPhase::Listing;
                    WorkerAction::List
                } else {
                    self.file_open = true;
                    self.phase = WorkerPhase::Receiving;
                    WorkerAction::Receive
                }
            },
        }
    }
}

/// The line that `settings` render for `message` when the time reads
/// `timestamp`.
pub open spec fn line_of(settings: SettingsView, timestamp: Seq<char>, message: MessageView) -> Seq<
    char,
> {
    crate::formatter::rendered(
        settings.formatter.masks,
        settings.formatter.splitter,
        timestamp,
        message,
    )
}

/// What holds of a worker in every state it can reach. A worker that
/// writes to files has file settings. While it waits for a message its
/// buffer is below the configured size, or empty; while it waits for a write
/// the buffer holds what is being written; during a rotation the buffer is
/// empty and the current file is closed. A worker that prints never holds a
/// line back.
pub open spec fn well_formed(w: WorkerView) -> bool {
    &&& w.sink == Sink::File ==> files_of(w.settings.output) is Some
    &&& w.sink == Sink::Console ==> w.buffer.len() == 0 && (w.phase is Receiving
        || w.phase is Stopped)
    &&& w.phase is Receiving ==> w.buffer.len() == 0 || w.buffer.len() < w.settings.buffer_size
    &&& w.phase is Flushing ==> w.buffer.len() >= 1 && w.buffer.len() >= w.settings.buffer_size
    &&& w.phase is Listing || w.phase is Rotating ==> w.buffer.len() == 0 && !w.file_open
}

/// Whether the worker, in the phase it is in, waits for this event.
pub open spec fn awaits(phase: WorkerPhase, event: EventView) -> bool {
    match (phase, event) {
        (WorkerPhase::Receiving, EventView::Line(_)) => true,
        (WorkerPhase::Receiving, EventView::Closed) => true,
        (WorkerPhase::Flushing, EventView::Flushed(_)) => true,
        (WorkerPhase::Listing, EventView::Listed(_)) => true,
        (WorkerPhase::Rotating, EventView::Rotated(_)) => true,
        _ => false,
    }
}

/// A worker starts well formed and stays so whatever comes. A well-formed
/// worker does not take an event that it waits for as out of order, and it
/// never drops a line: the buffer changes only by the line that comes in, or
/// by becoming empty when the write of all its lines has ended.
pub proof fn lemma_worker_stays_well_formed(
    settings: SettingsView,
    development: bool,
    w: WorkerView,
    event: EventView,
)
    ensures
        well_formed(initial(settings, development)),
        well_formed(w) ==> well_formed(step(w, event).0),
        well_formed(w) && w.sink == Sink::File && awaits(w.phase, event) ==> step(w, event).1
            != ActionView::Stop(StopReason::OutOfOrder),
        step(w, event).0.settings == w.settings && step(w, event).0.sink == w.sink,
        step(w, event).0.buffer == w.buffer || (event matches EventView::Line(line) && step(
            w,
            event,
        ).0.buffer == w.buffer.push(line)) || (event is Flushed && w.phase is Flushing && step(
            w,
            event,
        ).0.buffer.len() == 0),
        step(w, event).1 matches ActionView::Flush { text, .. } ==> event matches EventView::Line(
            line,
        ) && text == flush_text(w.buffer.push(line)),
{
}

} // verus!
