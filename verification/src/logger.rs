//! Which records of the log are shown, and how.
use vstd::prelude::*;

use crate::tui::app::MessageType;

verus! {

/// The level of a record, the most severe first.
#[derive(Debug, Clone, Copy, PartialEq, Eq, Structural)]
pub enum Level {
    Error,
    Warn,
    Info,
    Debug,
    Trace,
}

/// A record of the log as the message pane shows it.
pub struct LogMessage {
    pub content: String,
    pub message_type: MessageType,
}

pub struct AppLogger;

impl AppLogger {
    /// Whether records of this level are shown: all but traces.
    pub fn enabled(&self, level: Level) -> (yes: bool)
        ensures
            yes == (level != Level::Trace),
    {
        level != Level::Trace
    }

    /// The type of message that a record of this level is shown as: warnings as errors, so
    /// that they are seen, and traces as debug messages.
    pub open spec fn shown_as(level: Level) -> MessageType {
        match level {
            Level::Error => MessageType::Error,
            Level::Warn => MessageType::Error,
            Level::Info => MessageType::Info,
            Level::Debug => MessageType::Debug,
            Level::Trace => MessageType::Debug,
        }
    }

    /// The type of message that a record of this level is shown as.
    pub fn message_type(level: Level) -> (t: MessageType)
        ensures
            t == Self::shown_as(level),
    {
        match level {
            Level::Error => MessageType::Error,
            Level::Warn => MessageType::Error,
            Level::Info => MessageType::Info,
            Level::Debug => MessageType::Debug,
            Level::Trace => MessageType::Debug,
        }
    }

    /// What is shown of a record, if it is shown.
    pub fn log(&self, level: Level, content: String) -> (message: Option<LogMessage>)
        ensures
            message == if level == Level::Trace {
                None
            } else {
                Some(LogMessage { content, message_type: Self::shown_as(level) })
            },
    {
        if self.enabled(level) {
            Some(LogMessage { content, message_type: Self::message_type(level) })
        } else {
            None
        }
    }
}

/// Errors and warnings are shown as errors, information as information, and what is finer as
/// debug messages.
pub proof fn law_levels_are_shown(level: Level)
    ensures
        AppLogger::shown_as(level) == MessageType::Error <==> level == Level::Error || level
            == Level::Warn,
        AppLogger::shown_as(level) == MessageType::Info <==> level == Level::Info,
        AppLogger::shown_as(level) == MessageType::Debug <==> level == Level::Debug || level
            == Level::Trace,
{
}

}
