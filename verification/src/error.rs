//! The error type of the library and the sentence each error is shown as.
use vstd::prelude::*;

use crate::number::ParseIntError;
use crate::text::glue2;

verus! {

/// What can go wrong. Failures of the operating system and of other libraries are
/// carried as the sentence that describes them.
#[derive(Debug, Clone)]
pub enum AircError {
    Connection(String),
    Timeout(String),
    Protocol(String),
    DccTransfer(String),
    FileOperation(String),
    Config(String),
    Io(String),
    Regex(String),
    Zip(String),
    TomlDe(String),
    Parse(ParseIntError),
    ChannelSend,
    TaskJoin(String),
    Other(String),
}

impl AircError {
    /// The sentence shown to the user.
    pub open spec fn text(self) -> Seq<char> {
        match self {
            AircError::Connection(s) => "Connection error: "@ + s@,
            AircError::Timeout(s) => "Connection timed out: "@ + s@,
            AircError::Protocol(s) => "IRC protocol error: "@ + s@,
            AircError::DccTransfer(s) => "DCC transfer error: "@ + s@,
            AircError::FileOperation(s) => "File operation error: "@ + s@,
            AircError::Config(s) => "Configuration error: "@ + s@,
            AircError::Io(s) => "I/O error: "@ + s@,
            AircError::Regex(s) => "Regex error: "@ + s@,
            AircError::Zip(s) => "Zip error: "@ + s@,
            AircError::TomlDe(s) => "TOML deserialization error: "@ + s@,
            AircError::Parse(e) => "Parse error: "@ + e.text(),
            AircError::ChannelSend => "Channel send error"@,
            AircError::TaskJoin(s) => "Task join error: "@ + s@,
            AircError::Other(s) => s@,
        }
    }

    /// The sentence shown to the user.
    pub fn message(&self) -> (s: String)
        ensures
            s@ == self.text(),
    {
        match self {
            AircError::Connection(s) => glue2("Connection error: ", s.as_str()),
            AircError::Timeout(s) => glue2("Connection timed out: ", s.as_str()),
            AircError::Protocol(s) => glue2("IRC protocol error: ", s.as_str()),
            AircError::DccTransfer(s) => glue2("DCC transfer error: ", s.as_str()),
            AircError::FileOperation(s) => glue2("File operation error: ", s.as_str()),
            AircError::Config(s) => glue2("Configuration error: ", s.as_str()),
            AircError::Io(s) => glue2("I/O error: ", s.as_str()),
            AircError::Regex(s) => glue2("Regex error: ", s.as_str()),
            AircError::Zip(s) => glue2("Zip error: ", s.as_str()),
            AircError::TomlDe(s) => glue2("TOML deserialization error: ", s.as_str()),
            AircError::Parse(e) => glue2("Parse error: ", e.message().as_str()),
            AircError::ChannelSend => "Channel send error".to_owned(),
            AircError::TaskJoin(s) => glue2("Task join error: ", s.as_str()),
            AircError::Other(s) => s.clone(),
        }
    }

    /// Whether this is the general error with the sentence `message`.
    pub open spec fn says(self, message: Seq<char>) -> bool {
        self matches AircError::Other(s) && s@ == message
    }
}

/// The sentence for an error ends with the reason that it carries, and a general error says
/// nothing else.
pub proof fn law_errors_say_the_reason(e: AircError, why: String)
    ensures
        e == AircError::Connection(why) || e == AircError::Timeout(why) || e == AircError::Protocol(
            why,
        ) || e == AircError::DccTransfer(why) || e == AircError::FileOperation(why) || e
            == AircError::Config(why) || e == AircError::Io(why) || e == AircError::Regex(why) || e
            == AircError::Zip(why) || e == AircError::TomlDe(why) || e == AircError::TaskJoin(why)
            ==> ("error: "@ + why@).is_suffix_of(e.text()) || ("timed out: "@ + why@).is_suffix_of(
            e.text(),
        ),
        e == AircError::Other(why) ==> e.text() == why@,
        e == AircError::Other(why) ==> e.says(why@),
        e == AircError::Connection(why) ==> e.text() == "Connection error: "@ + why@,
        e == AircError::Timeout(why) ==> e.text() == "Connection timed out: "@ + why@,
        e == AircError::Protocol(why) ==> e.text() == "IRC protocol error: "@ + why@,
        e == AircError::DccTransfer(why) ==> e.text() == "DCC transfer error: "@ + why@,
        e == AircError::FileOperation(why) ==> e.text() == "File operation error: "@ + why@,
        e == AircError::Config(why) ==> e.text() == "Configuration error: "@ + why@,
        forall|m: Seq<char>| #[trigger] e.says(m) ==> e is Other && e.text() == m,
{
    reveal_strlit("error: ");
    reveal_strlit("timed out: ");
    reveal_strlit("Connection error: ");
    reveal_strlit("Connection timed out: ");
    reveal_strlit("IRC protocol error: ");
    reveal_strlit("DCC transfer error: ");
    reveal_strlit("File operation error: ");
    reveal_strlit("Configuration error: ");
    reveal_strlit("I/O error: ");
    reveal_strlit("Regex error: ");
    reveal_strlit("Zip error: ");
    reveal_strlit("TOML deserialization error: ");
    reveal_strlit("Task join error: ");
    let s = e.text();
    let error = "error: "@ + why@;
    let late = "timed out: "@ + why@;
    match e {
        AircError::Timeout(w) => {
            if w == why {
                assert(s.subrange(s.len() - late.len(), s.len() as int) =~= late);
            }
        },
        AircError::Parse(_) => {},
        AircError::ChannelSend => {},
        AircError::Other(_) => {},
        AircError::Connection(w)
        | AircError::Protocol(w)
        | AircError::DccTransfer(w)
        | AircError::FileOperation(w)
        | AircError::Config(w)
        | AircError::Io(w)
        | AircError::Regex(w)
        | AircError::Zip(w)
        | AircError::TomlDe(w)
        | AircError::TaskJoin(w) => {
            if w == why {
                assert(s.subrange(s.len() - error.len(), s.len() as int) =~= error);
            }
        },
    }
}

impl From<String> for AircError {
    fn from(s: String) -> (e: Self) {
        AircError::Other(s)
    }
}

impl vstd::std_specs::convert::FromSpecImpl<String> for AircError {
    open spec fn obeys_from_spec() -> bool {
        true
    }

    open spec fn from_spec(s: String) -> Self {
        AircError::Other(s)
    }
}

impl From<&str> for AircError {
    fn from(s: &str) -> (e: Self)
        ensures
            e.says(s@),
    {
        AircError::Other(s.to_owned())
    }
}

impl vstd::std_specs::convert::FromSpecImpl<&str> for AircError {
    open spec fn obeys_from_spec() -> bool {
        false
    }

    open spec fn from_spec(s: &str) -> Self {
        vstd::pervasive::arbitrary()
    }
}

impl From<ParseIntError> for AircError {
    fn from(e: ParseIntError) -> (r: Self) {
        AircError::Parse(e)
    }
}

impl vstd::std_specs::convert::FromSpecImpl<ParseIntError> for AircError {
    open spec fn obeys_from_spec() -> bool {
        true
    }

    open spec fn from_spec(e: ParseIntError) -> Self {
        AircError::Parse(e)
    }
}

}
