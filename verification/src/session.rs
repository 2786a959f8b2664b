//! Who the client is on the server, and what becomes of its tasks.
use rand::Rng;
use vstd::prelude::*;

use crate::config::Config;
use crate::error::AircError;
use crate::number;
use crate::number::to_decimal;
use crate::text::{glue2, glue3};
use crate::tui::app::MessageType;
use crate::tui::UiEvent;

verus! {

pub const DEFAULT_REALNAME: &'static str = "Book Worm";

pub const NICKNAME_PREFIX: &'static str = "bworm";

pub const MAX_NICKNAME_SUFFIX: u32 = 99999;

/// The number of events that may wait for the interface.
pub const UI_EVENT_BUFFER: usize = 256;

/// The names under which the client registers.
#[derive(Debug, Clone)]
pub struct Identity {
    pub username: String,
    pub nickname: String,
    pub realname: String,
}

impl Identity {
    /// Whether these are the names for the configured user, or, where none is configured,
    /// those with the number `suffix`.
    pub open spec fn belongs_to(self, username: Option<String>, suffix: u32) -> bool {
        match username {
            Some(user) => {
                &&& self.username@ == user@
                &&& self.nickname@ == user@
                &&& self.realname@ == user@
            },
            None => {
                &&& self.username@ == NICKNAME_PREFIX@ + number::decimal(suffix as nat)
                &&& self.nickname@ == self.username@
                &&& self.realname@ == DEFAULT_REALNAME@
            },
        }
    }
}

/// The names for the configured user, or, where none is configured, those with the number
/// `suffix`.
pub fn identity_with(username: &Option<String>, suffix: u32) -> (identity: Identity)
    ensures
        identity.belongs_to(*username, suffix),
{
    match username {
        Some(user) => Identity {
            username: user.clone(),
            nickname: user.clone(),
            realname: user.clone(),
        },
        None => {
            let name = glue2(NICKNAME_PREFIX, to_decimal(suffix as u64).as_str());
            Identity {
                username: name.clone(),
                nickname: name,
                realname: DEFAULT_REALNAME.to_owned(),
            }
        },
    }
}

/// `rand::rng` and `Rng::random_range` over the numbers from zero to `max`: one of them.
#[verifier::external_body]
fn random_up_to(max: u32) -> (n: u32)
    ensures
        n <= max,
{
    rand::rng().random_range(0..=max)
}

/// The names under which the client registers; without a configured user the nickname ends
/// in a number drawn at random.
pub fn choose_identity(config: &Config) -> (identity: Identity)
    ensures
        exists|suffix: u32|
            suffix <= MAX_NICKNAME_SUFFIX && #[trigger] identity.belongs_to(
                config.username,
                suffix,
            ),
{
    let suffix: u32 = if config.username.is_some() {
        0
    } else {
        random_up_to(MAX_NICKNAME_SUFFIX)
    };
    identity_with(&config.username, suffix)
}

/// The client goes by one name as user and as nickname: the configured one, which is then
/// its real name too, or else a made-up one with a number, under the usual real name.
pub proof fn law_one_name(
    configured: Identity,
    user: String,
    drawn: Identity,
    suffix: u32,
)
    requires
        configured.belongs_to(Some(user), suffix),
        drawn.belongs_to(None, suffix),
    ensures
        configured.username@ == user@,
        configured.nickname@ == user@,
        configured.realname@ == user@,
        drawn.username@ == "bworm"@ + number::decimal(suffix as nat),
        drawn.nickname@ == "bworm"@ + number::decimal(suffix as nat),
        drawn.realname@ == "Book Worm"@,
{
}

/// The event that the task `label` has ended with the error `e`.
pub fn task_ended(label: &str, e: &AircError) -> (event: UiEvent)
    ensures
        event matches UiEvent::Log(t, s) && t == MessageType::Error && s@ == label
            @ + " task ended: "@ + e.text(),
{
    UiEvent::Log(MessageType::Error, glue3(label, " task ended: ", e.message().as_str()))
}

}
