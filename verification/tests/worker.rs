use rotation_logger::rotation::RotationPlan;
use rotation_logger::worker::{
    FlushOutcome, RotationOutcome, Sink, StopReason, WorkerAction, WorkerEvent, WorkerPhase,
};
use rotation_logger::{
    EnabledLogger, FileSize, Message, MessageFormatter, Moment, OutputChannel, Settings,
};
use std::collections::BTreeMap;

fn formatter() -> MessageFormatter {
    MessageFormatter::new("::", "{message:_:600:left}", "")
}

fn file_settings(buffer: usize, capacity: usize) -> Settings {
    let output = OutputChannel::file(
        "./logs".into(),
        capacity,
        FileSize::from_kilobytes(1),
        "log".into(),
        "log".into(),
    );
    Settings::new(true, buffer, output, formatter())
}

fn now() -> Moment {
    Moment { seconds: 1771429440, nanoseconds: 129_000_000, offset: 0 }
}

fn line(text: &str) -> WorkerEvent {
    WorkerEvent::Line(text.to_string())
}

fn flush_of(action: WorkerAction) -> (String, bool) {
    match action {
        WorkerAction::Flush { text, open } => (text, open),
        other => panic!("not a flush: {other:?}"),
    }
}

fn plan_of(action: WorkerAction) -> RotationPlan {
    match action {
        WorkerAction::Rotate(plan) => plan,
        other => panic!("not a rotation: {other:?}"),
    }
}

/// A directory in memory, driven by the worker's actions.
struct Disk {
    files: BTreeMap<String, String>,
    open: bool,
}

impl Disk {
    fn new() -> Self {
        Disk { files: BTreeMap::new(), open: false }
    }

    /// Performs what the worker asks for until it waits for a message.
    fn serve(&mut self, worker: &mut EnabledLogger, mut action: WorkerAction) {
        loop {
            let event = match action {
                WorkerAction::Receive => return,
                WorkerAction::Flush { text, open } => {
                    assert_eq!(open, !self.open);
                    self.open = true;
                    let file = self.files.entry("log.log".to_string()).or_default();
                    file.push_str(&text);
                    WorkerEvent::Flushed(FlushOutcome::Written(file.len() as u64))
                }
                WorkerAction::List => {
                    self.open = false;
                    WorkerEvent::Listed(Some(self.files.keys().rev().cloned().collect()))
                }
                WorkerAction::Rotate(plan) => {
                    if let Some(name) = &plan.evict {
                        assert!(self.files.remove(name).is_some());
                    }
                    for rename in &plan.renames {
                        let content = self.files.remove(&rename.from).unwrap();
                        self.files.insert(rename.to.clone(), content);
                    }
                    WorkerEvent::Rotated(RotationOutcome::Done)
                }
                other => panic!("unexpected {other:?}"),
            };
            action = worker.run(event);
        }
    }
}

#[test]
fn console_worker_prints_each_line_at_once() {
    let settings = Settings::new(true, 100, OutputChannel::console(), formatter());
    let mut worker = EnabledLogger::new(settings, false);
    for text in ["one", "two", "three"] {
        match worker.run(line(text)) {
            WorkerAction::Print(printed) => assert_eq!(printed, text),
            other => panic!("unexpected {other:?}"),
        }
    }
    assert!(matches!(
        worker.run(WorkerEvent::Closed),
        WorkerAction::Stop(StopReason::ChannelClosed)
    ));
}

#[test]
fn auto_channel_prints_in_development_and_writes_in_release() {
    let auto = || {
        let output = OutputChannel::auto(
            "./logs".into(),
            2,
            FileSize::from_kilobytes(1),
            "log".into(),
            "log".into(),
        );
        Settings::new(true, 1, output, formatter())
    };
    let mut development = EnabledLogger::new(auto(), true);
    assert!(matches!(development.run(line("x")), WorkerAction::Print(_)));
    let mut release = EnabledLogger::new(auto(), false);
    assert!(matches!(release.run(line("x")), WorkerAction::Flush { .. }));
}

#[test]
fn file_worker_gathers_lines_until_the_buffer_is_full() {
    let mut worker = EnabledLogger::new(file_settings(3, 5), false);
    assert!(matches!(worker.run(line("one")), WorkerAction::Receive));
    assert!(matches!(worker.run(line("two")), WorkerAction::Receive));
    let (text, open) = flush_of(worker.run(line("three")));
    assert_eq!(text, "one\ntwo\nthree\n");
    assert!(open);
    assert!(matches!(
        worker.run(WorkerEvent::Flushed(FlushOutcome::Written(14))),
        WorkerAction::Receive
    ));
    assert!(matches!(worker.run(line("four")), WorkerAction::Receive));
    assert!(matches!(worker.run(line("five")), WorkerAction::Receive));
    let (text, open) = flush_of(worker.run(line("six")));
    assert_eq!(text, "four\nfive\nsix\n");
    assert!(!open);
}

#[test]
fn a_buffer_of_size_zero_writes_every_line() {
    let mut worker = EnabledLogger::new(file_settings(0, 5), false);
    let (text, _) = flush_of(worker.run(line("one")));
    assert_eq!(text, "one\n");
}

#[test]
fn a_file_at_its_ceiling_is_rotated() {
    let mut worker = EnabledLogger::new(file_settings(1, 3), false);
    flush_of(worker.run(line("one")));
    assert!(matches!(
        worker.run(WorkerEvent::Flushed(FlushOutcome::Written(999))),
        WorkerAction::Receive
    ));
    let (_, open) = flush_of(worker.run(line("two")));
    assert!(!open);
    assert!(matches!(
        worker.run(WorkerEvent::Flushed(FlushOutcome::Written(1000))),
        WorkerAction::List
    ));
    let names = vec!["log.log1".to_string(), "log.log".to_string(), "x".to_string()];
    let plan = plan_of(worker.run(WorkerEvent::Listed(Some(names))));
    assert_eq!(plan.evict, None);
    assert_eq!(plan.renames.len(), 2);
    assert_eq!(plan.renames[0].from, "log.log1");
    assert_eq!(plan.renames[0].to, "log.log2");
    assert_eq!(plan.renames[1].from, "log.log");
    assert_eq!(plan.renames[1].to, "log.log1");
    assert!(matches!(
        worker.run(WorkerEvent::Rotated(RotationOutcome::Done)),
        WorkerAction::Receive
    ));
    let (_, open) = flush_of(worker.run(line("three")));
    assert!(open);
}

#[test]
fn a_directory_that_cannot_be_read_counts_as_empty() {
    let mut worker = EnabledLogger::new(file_settings(1, 3), false);
    flush_of(worker.run(line("one")));
    worker.run(WorkerEvent::Flushed(FlushOutcome::Written(5000)));
    let plan = plan_of(worker.run(WorkerEvent::Listed(None)));
    assert_eq!(plan.evict, None);
    assert!(plan.renames.is_empty());
}

fn stop_after_flush(outcome: FlushOutcome) -> WorkerAction {
    let mut worker = EnabledLogger::new(file_settings(1, 3), false);
    flush_of(worker.run(line("one")));
    worker.run(WorkerEvent::Flushed(outcome))
}

#[test]
fn a_failed_write_stops_the_worker() {
    assert!(matches!(
        stop_after_flush(FlushOutcome::DirectoryFailed),
        WorkerAction::Stop(StopReason::Directory)
    ));
    assert!(matches!(
        stop_after_flush(FlushOutcome::OpenFailed),
        WorkerAction::Stop(StopReason::File)
    ));
    assert!(matches!(
        stop_after_flush(FlushOutcome::WriteFailed),
        WorkerAction::Stop(StopReason::Write)
    ));
    assert!(matches!(
        stop_after_flush(FlushOutcome::SizeUnknown),
        WorkerAction::Stop(StopReason::File)
    ));
}

fn stop_after_rotation(outcome: RotationOutcome) -> WorkerAction {
    let mut worker = EnabledLogger::new(file_settings(1, 3), false);
    flush_of(worker.run(line("one")));
    worker.run(WorkerEvent::Flushed(FlushOutcome::Written(1000)));
    plan_of(worker.run(WorkerEvent::Listed(Some(vec!["log.log".to_string()]))));
    worker.run(WorkerEvent::Rotated(outcome))
}

#[test]
fn a_failed_rotation_stops_the_worker() {
    assert!(matches!(
        stop_after_rotation(RotationOutcome::EvictionFailed),
        WorkerAction::Stop(StopReason::Eviction)
    ));
    assert!(matches!(
        stop_after_rotation(RotationOutcome::RenameFailed),
        WorkerAction::Stop(StopReason::Renaming)
    ));
}

#[test]
fn a_closed_queue_stops_the_worker() {
    let mut worker = EnabledLogger::new(file_settings(2, 3), false);
    worker.run(line("one"));
    assert!(matches!(
        worker.run(WorkerEvent::Closed),
        WorkerAction::Stop(StopReason::ChannelClosed)
    ));
}

#[test]
fn a_stopped_worker_stays_stopped() {
    let mut worker = EnabledLogger::new(file_settings(1, 3), false);
    worker.run(WorkerEvent::Closed);
    for event in [
        line("late"),
        WorkerEvent::Closed,
        WorkerEvent::Flushed(FlushOutcome::Written(1)),
        WorkerEvent::Listed(None),
        WorkerEvent::Rotated(RotationOutcome::Done),
    ] {
        assert!(matches!(
            worker.run(event),
            WorkerAction::Stop(StopReason::ChannelClosed)
        ));
    }
}

#[test]
fn an_event_out_of_order_stops_the_worker() {
    let mut worker = EnabledLogger::new(file_settings(1, 3), false);
    assert!(matches!(
        worker.run(WorkerEvent::Rotated(RotationOutcome::Done)),
        WorkerAction::Stop(StopReason::OutOfOrder)
    ));
    let mut worker = EnabledLogger::new(file_settings(1, 3), false);
    flush_of(worker.run(line("one")));
    assert!(matches!(
        worker.run(line("two")),
        WorkerAction::Stop(StopReason::OutOfOrder)
    ));
    let settings = Settings::new(true, 1, OutputChannel::console(), formatter());
    let mut console = EnabledLogger::new(settings, false);
    assert!(matches!(
        console.run(WorkerEvent::Listed(None)),
        WorkerAction::Stop(StopReason::OutOfOrder)
    ));
}

#[test]
fn receive_renders_the_message() {
    let mut worker = EnabledLogger::new(file_settings(1, 3), false);
    let message = Message::new(&vec!["A".to_string()], "hello");
    let (text, _) = flush_of(worker.receive(&message, &now()));
    assert_eq!(text, format!("{:<600}\n", "hello"));
}

#[test]
fn three_long_messages_into_two_files_of_one_kilobyte() {
    let mut worker = EnabledLogger::new(file_settings(1, 2), false);
    let mut disk = Disk::new();
    for (n, text) in ["first", "second", "third"].into_iter().enumerate() {
        let message = Message::new(&Vec::new(), text);
        let action = worker.receive(&message, &now());
        disk.serve(&mut worker, action);
        match n {
            0 => assert_eq!(disk.files.keys().collect::<Vec<_>>(), vec!["log.log"]),
            1 => assert_eq!(disk.files.keys().collect::<Vec<_>>(), vec!["log.log1"]),
            _ => assert_eq!(disk.files.keys().collect::<Vec<_>>(), vec!["log.log", "log.log1"]),
        }
    }
    assert_eq!(disk.files["log.log"], format!("{:<600}\n", "third"));
    assert_eq!(
        disk.files["log.log1"],
        format!("{:<600}\n{:<600}\n", "first", "second")
    );
    for text in ["fourth", "fifth", "sixth"] {
        let action = worker.receive(&Message::new(&Vec::new(), text), &now());
        disk.serve(&mut worker, action);
        assert!(disk.files.len() <= 2);
    }
    assert!(!disk.files.values().any(|content| content.contains("first")));
    assert_eq!(
        disk.files["log.log1"],
        format!("{:<600}\n{:<600}\n", "fifth", "sixth")
    );
}

#[test]
fn the_worker_tells_its_state() {
    let mut worker = EnabledLogger::new(file_settings(2, 3), false);
    assert_eq!(worker.sink(), Sink::File);
    assert_eq!(worker.phase(), WorkerPhase::Receiving);
    assert_eq!(worker.buffered(), 0);
    worker.run(line("one"));
    assert_eq!(worker.phase(), WorkerPhase::Receiving);
    assert_eq!(worker.buffered(), 1);
    worker.run(line("two"));
    assert_eq!(worker.phase(), WorkerPhase::Flushing);
    assert_eq!(worker.buffered(), 2);
    worker.run(WorkerEvent::Flushed(FlushOutcome::Written(1000)));
    assert_eq!(worker.phase(), WorkerPhase::Listing);
    assert_eq!(worker.buffered(), 0);
    worker.run(WorkerEvent::Listed(None));
    assert_eq!(worker.phase(), WorkerPhase::Rotating);
    worker.run(WorkerEvent::Rotated(RotationOutcome::RenameFailed));
    assert_eq!(worker.phase(), WorkerPhase::Stopped(StopReason::Renaming));
    let console = EnabledLogger::new(
        Settings::new(true, 1, OutputChannel::console(), formatter()),
        false,
    );
    assert_eq!(console.sink(), Sink::Console);
}

#[test]
fn receive_writes_the_moment_into_the_line() {
    let formatter = MessageFormatter::new("|", "{timestamp:_:8}{splitter}{message:_:5}", "%H:%M:%S");
    let settings = Settings::new(true, 1, OutputChannel::console(), formatter);
    let mut worker = EnabledLogger::new(settings, false);
    let message = Message::new(&Vec::new(), "hello");
    match worker.receive(&message, &now()) {
        WorkerAction::Print(printed) => assert_eq!(printed, "15:44:00|hello"),
        other => panic!("unexpected {other:?}"),
    }
}
