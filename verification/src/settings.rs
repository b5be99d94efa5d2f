//! The settings of a logger: whether it is on, how many lines it gathers
//! before it writes, where the lines go and how they are rendered.
//!
//! All of it is fixed before the logger starts.

use vstd::prelude::*;
use std::path::PathBuf;
use crate::clock::Moment;
use crate::formatter::{time_text, FormatterView, MessageFormatter};
use crate::message::Message;

verus! {

/// `std::path::PathBuf`, carried through as it is: the library never looks
/// into a path.
#[verifier::external_type_specification]
#[verifier::external_body]
pub struct ExPathBuf(PathBuf);

/// `Clone::clone` of `std::path::PathBuf`: the copy is the same path.
pub assume_specification[ <PathBuf as Clone>::clone ](path: &PathBuf) -> (r: PathBuf)
    ensures
        r == *path,
;

/// The path that `std::path::PathBuf::from` makes of a text.
pub uninterp spec fn path_of(text: Seq<char>) -> PathBuf;

/// `PathBuf::from` on a `&str`: the path is a function of the text alone.
#[verifier::external_body]
fn path_from(text: &str) -> (r: PathBuf)
    ensures
        r == path_of(text@),
{
    PathBuf::from(text)
}

/// A size, held in bits.
#[derive(Debug, Clone)]
pub struct FileSize {
    size: usize,
}

impl FileSize {
    /// The size in bits.
    pub closed spec fn bits(&self) -> nat {
        self.size as nat
    }

    pub fn from_bytes(bytes: usize) -> (r: Self)
        requires
            bytes * 8 <= usize::MAX,
        ensures
            r.bits() == bytes * 8,
    {
        Self { size: bytes * 8 }
    }

    pub fn from_kilobytes(kilobytes: usize) -> (r: Self)
        requires
            kilobytes * 8000 <= usize::MAX,
        ensures
            r.bits() == kilobytes * 8000,
    {
        Self { size: kilobytes * 8 * 1000 }
    }

    pub fn from_megabytes(megabytes: usize) -> (r: Self)
        requires
            megabytes * 8_000_000 <= usize::MAX,
        ensures
            r.bits() == megabytes * 8_000_000,
    {
        Self { size: megabytes * 8 * 1000 * 1000 }
    }

    pub fn from_gigabytes(gigabytes: usize) -> (r: Self)
        requires
            gigabytes * 8_000_000_000 <= usize::MAX,
        ensures
            r.bits() == gigabytes * 8_000_000_000,
    {
        Self { size: gigabytes * 8 * 1000 * 1000 * 1000 }
    }

    /// Whether this size is `bits` bits.
    pub fn eq(&self, bits: &u64) -> (r: bool)
        ensures
            r == (self.bits() == *bits),
    {
        *bits == self.size as u64
    }
}

impl Default for FileSize {
    /// Two megabytes.
    fn default() -> (r: Self)
        ensures
            r.bits() == 16_000_000,
    {
        Self::from_megabytes(2)
    }
}

/// What a `FileSettings` holds.
pub struct FileSettingsView {
    /// The directory of the log files.
    pub path: PathBuf,
    /// The number of files kept.
    pub capacity: nat,
    /// The size, in bits, at which the current file is closed.
    pub file_size: nat,
    pub filename: Seq<char>,
    pub file_extension: Seq<char>,
}

/// Where the log files stand and how they rotate.
#[derive(Debug, Clone)]
pub struct FileSettings {
    path: PathBuf,
    capacity: usize,
    file_size: FileSize,
    filename: String,
    file_extension: String,
}

impl View for FileSettings {
    type V = FileSettingsView;

    closed spec fn view(&self) -> FileSettingsView {
        FileSettingsView {
            path: self.path,
            capacity: self.capacity as nat,
            file_size: self.file_size.bits(),
            filename: self.filename@,
            file_extension: self.file_extension@,
        }
    }
}

impl FileSettings {
    pub fn new(
        path: PathBuf,
        capacity: usize,
        file_size: FileSize,
        filename: String,
        file_extension: String,
    ) -> (r: Self)
        ensures
            r@ == (FileSettingsView {
                path,
                capacity: capacity as nat,
                file_size: file_size.bits(),
                filename: filename@,
                file_extension: file_extension@,
            }),
    {
        Self { path, capacity, file_size, filename, file_extension }
    }

    pub fn path(&self) -> (r: &PathBuf)
        ensures
            *r == self@.path,
    {
        &self.path
    }

    pub fn filename(&self) -> (r: &String)
        ensures
            r@ == self@.filename,
    {
        &self.filename
    }

    pub fn file_extension(&self) -> (r: &String)
        ensures
            r@ == self@.file_extension,
    {
        &self.file_extension
    }

    /// The size, in bits, at which the current file is closed.
    pub fn file_size(&self) -> (r: u64)
        ensures
            r == self@.file_size,
    {
        self.file_size.size as u64
    }

    pub fn capacity(&self) -> (r: usize)
        ensures
            r == self@.capacity,
    {
        self.capacity
    }
}

impl Default for FileSettings {
    /// Ten files of two megabytes each, `logger.log` and its successors
    /// under `./logs`.
    fn default() -> (r: Self)
        ensures
            r@ == (FileSettingsView {
                path: path_of("./logs"@),
                capacity: 10,
                file_size: 16_000_000,
                filename: "logger"@,
                file_extension: "log"@,
            }),
    {
        Self {
            path: path_from("./logs"),
            capacity: 10,
            file_size: FileSize::default(),
            filename: "logger".to_owned(),
            file_extension: "log".to_owned(),
        }
    }
}

/// `OutputChannel` over plain values.
pub enum OutputView {
    File(FileSettingsView),
    Console,
    Auto(FileSettingsView),
}

/// Where the lines go.
#[derive(Debug, Clone)]
pub enum OutputChannel {
    /// To rotating files.
    File(FileSettings),
    /// To standard output.
    Console,
    /// To standard output in a development build, to rotating files in a
    /// release build.
    Auto(FileSettings),
}

impl View for OutputChannel {
    type V = OutputView;

    open spec fn view(&self) -> OutputView {
        match self {
            OutputChannel::File(files) => OutputView::File(files@),
            OutputChannel::Console => OutputView::Console,
            OutputChannel::Auto(files) => OutputView::Auto(files@),
        }
    }
}

impl Default for OutputChannel {
    fn default() -> (r: Self)
        ensures
            r@ == OutputView::Console,
    {
        Self::Console
    }
}

impl OutputChannel {
    pub fn console() -> (r: Self)
        ensures
            r@ == OutputView::Console,
    {
        Self::Console
    }

    pub fn auto(
        path: PathBuf,
        capacity: usize,
        file_size: FileSize,
        filename: String,
        file_extension: String,
    ) -> (r: Self)
        ensures
            r@ == OutputView::Auto(
                FileSettingsView {
                    path,
                    capacity: capacity as nat,
                    file_size: file_size.bits(),
                    filename: filename@,
                    file_extension: file_extension@,
                },
            ),
    {
        Self::Auto(FileSettings::new(path, capacity, file_size, filename, file_extension))
    }

    pub fn file(
        path: PathBuf,
        capacity: usize,
        file_size: FileSize,
        filename: String,
        file_extension: String,
    ) -> (r: Self)
        ensures
            r@ == OutputView::File(
                FileSettingsView {
                    path,
                    capacity: capacity as nat,
                    file_size: file_size.bits(),
                    filename: filename@,
                    file_extension: file_extension@,
                },
            ),
    {
        Self::File(FileSettings::new(path, capacity, file_size, filename, file_extension))
    }

    /// The file settings of a channel that has any.
    pub fn settings(&self) -> (r: Option<&FileSettings>)
        ensures
            match r {
                Some(files) => self@ == OutputView::File(files@) || self@ == OutputView::Auto(
                    files@,
                ),
                None => self@ == OutputView::Console,
            },
    {
        match &self {
            OutputChannel::File(file_output) => Some(file_output),
            OutputChannel::Console => None,
            OutputChannel::Auto(file_output) => Some(file_output),
        }
    }
}

/// What a `Settings` holds.
pub struct SettingsView {
    pub is_enabled: bool,
    pub formatter: FormatterView,
    pub output: OutputView,
    /// The number of lines gathered before they are written to a file.
    pub buffer_size: nat,
}

/// The settings of one logger.
#[derive(Debug, Clone)]
pub struct Settings {
    is_enabled: bool,
    formatter: MessageFormatter,
    output: OutputChannel,
    buffer_size: usize,
}

impl View for Settings {
    type V = SettingsView;

    closed spec fn view(&self) -> SettingsView {
        SettingsView {
            is_enabled: self.is_enabled,
            formatter: self.formatter@,
            output: self.output@,
            buffer_size: self.buffer_size as nat,
        }
    }
}

impl Default for Settings {
    /// An enabled logger that prints to the console with the default
    /// formatter.
    fn default() -> (r: Self)
        ensures
            r@.is_enabled,
            r@.output == OutputView::Console,
            r@.buffer_size == 2048,
            r@.formatter == crate::formatter::default_formatter(),
    {
        Self {
            is_enabled: true,
            output: OutputChannel::default(),
            formatter: MessageFormatter::default(),
            buffer_size: 2048,
        }
    }
}

impl Settings {
    pub fn new(
        is_enabled: bool,
        buffer_size: usize,
        output: OutputChannel,
        formatter: MessageFormatter,
    ) -> (r: Self)
        ensures
            r@ == (SettingsView {
                is_enabled,
                formatter: formatter@,
                output: output@,
                buffer_size: buffer_size as nat,
            }),
    {
        Self { is_enabled, output, formatter, buffer_size }
    }

    /// The line that these settings render for `message` when the time
    /// reads `timestamp`.
    pub open spec fn line(&self, timestamp: Seq<char>, message: crate::message::MessageView) -> Seq<
        char,
    > {
        crate::formatter::rendered(
            self@.formatter.masks,
            self@.formatter.splitter,
            timestamp,
            message,
        )
    }

    /// Renders `message` as it came in at the moment `now`.
    pub fn format_message(&self, message: &Message, now: &Moment) -> (r: String)
        ensures
            r@ == self.line(time_text(self@.formatter.timestamp, *now), message@),
    {
        self.formatter.format(message, now)
    }

    pub fn buffer_size(&self) -> (r: usize)
        ensures
            r == self@.buffer_size,
    {
        self.buffer_size
    }

    pub fn is_enabled(&self) -> (r: bool)
        ensures
            r == self@.is_enabled,
    {
        self.is_enabled
    }

    pub fn output(&self) -> (r: &OutputChannel)
        ensures
            r@ == self@.output,
    {
        &self.output
    }
}

} // verus!
