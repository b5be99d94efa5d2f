//! The handle that producers hold: a logger that is on, with its settings,
//! or one that is off.

use vstd::prelude::*;
use crate::message::Message;
use crate::settings::Settings;
use crate::text::texts_of;
use crate::worker::{initial, EnabledLogger};

verus! {

/// A logger, on or off. One that is off takes every call and does nothing.
#[derive(Clone, Debug)]
pub enum Logger {
    Enabled(Settings),
    Disabled,
}

impl Logger {
    /// A logger that is on if the settings say so.
    pub fn new(settings: Settings) -> (r: Self)
        ensures
            r == if settings@.is_enabled {
                Logger::Enabled(settings)
            } else {
                Logger::Disabled
            },
    {
        if settings.is_enabled() {
            Self::enabled(settings)
        } else {
            Self::disabled()
        }
    }

    pub fn enabled(settings: Settings) -> (r: Self)
        ensures
            r == Logger::Enabled(settings),
    {
        Self::Enabled(settings)
    }

    pub fn disabled() -> (r: Self)
        ensures
            r == Logger::Disabled,
    {
        Self::Disabled
    }

    /// The entry that a call to log hands to the worker: the message made
    /// of `modules` and `text`, and nothing where the logger is off.
    pub fn log(&self, modules: &Vec<String>, text: &str) -> (r: Option<Message>)
        ensures
            self is Disabled ==> r is None,
            self is Enabled ==> r is Some && r->0@.modules == texts_of(modules@) && r->0@.text
                == text@,
    {
        match self {
            Logger::Enabled(_) => Some(Message::new(modules, text)),
            Logger::Disabled => None,
        }
    }

    /// The worker that serves this logger, waiting for its first message;
    /// none where the logger is off.
    pub fn worker(self, development: bool) -> (r: Option<EnabledLogger>)
        ensures
            match self {
                Logger::Enabled(settings) => r is Some && r->0@ == initial(
                    settings@,
                    development,
                ),
                Logger::Disabled => r is None,
            },
    {
        match self {
            Logger::Enabled(settings) => Some(EnabledLogger::new(settings, development)),
            Logger::Disabled => None,
        }
    }
}

} // verus!
