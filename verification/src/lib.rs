//! A logger for one process: producers hand in entries, one worker renders
//! them to lines and writes the lines to rotating files or to the console.
//!
//! This library holds the rules: the template language of the formatter,
//! the rendering of a message, the rotation of the files and the steps of
//! the worker. It starts no thread, touches no file and reads no clock.

pub mod clock;
pub mod decimal;
pub mod directory;
pub mod formatter;
pub mod logger;
pub mod mask;
pub mod message;
pub mod order;
pub mod rotation;
pub mod settings;
pub mod template;
pub mod text;
pub mod worker;

pub use clock::Moment;
pub use formatter::MessageFormatter;
pub use logger::Logger;
pub use message::Message;
pub use settings::FileSettings;
pub use settings::FileSize;
pub use settings::OutputChannel;
pub use settings::Settings;
pub use worker::EnabledLogger;
