//! Frontend abstraction: shared event/mode types, the frontend error, and
//! the poll-based frontend contract.
use vstd::prelude::*;

use crate::config::Config;

pub mod tty;
pub mod wayland;

verus! {

/// `std::io::Error` carried opaquely inside [`FrontendError::Io`].
#[verifier::external_type_specification]
#[verifier::external_body]
pub struct ExIoError(std::io::Error);

/// Frontend event resulting from user interaction.
#[derive(Debug, Clone, Copy, PartialEq, Eq, Structural)]
pub enum Event {
    /// No event yet (the dispatch loop treats it as a no-op).
    NoEvent,
    /// User confirmed (pressed Enter / clicked OK).
    UserOk,
    /// User aborted (pressed Escape).
    UserAbort,
    /// User pressed the not-OK button (Ctrl-C when `not_ok` is set).
    UserNotOk,
}

/// Which interface mode the frontend is currently rendering.
#[derive(Debug, Clone, Copy, PartialEq, Eq, Structural)]
pub enum InterfaceMode {
    /// No prompt displayed.
    NoPrompt,
    /// PIN entry prompt.
    GetPin,
    /// Message or confirm dialog.
    Message,
}

/// Error returned by frontend operations.
#[derive(Debug)]
pub enum FrontendError {
    /// No Wayland display was configured or the display socket was
    /// unreachable. The only Wayland failure that may select the TTY fallback.
    Unavailable(String),
    /// Initialisation failed after a frontend was selected.
    Init(String),
    /// I/O error from a frontend read/write.
    Io(std::io::Error),
    /// An invalid mode transition was requested.
    InvalidMode(String),
}

/// Poll-based frontend contract.
///
/// The dispatch loop calls `flush` at the top of each iteration, polls the
/// input and the descriptor returned by `init`, then calls `handle_event`
/// or `no_event` depending on whether that descriptor is readable.
pub trait Frontend {
    /// Initialises the frontend, returning the descriptor to poll.
    fn init(&mut self, cfg: &mut Config) -> Result<i32, FrontendError>;

    /// Restores the terminal / display state and releases resources.
    fn deinit(&mut self);

    /// Enters a prompt mode (`GetPin`/`Message`) or leaves it (`NoPrompt`).
    fn enter_mode(&mut self, mode: InterfaceMode) -> Result<(), FrontendError>;

    /// Processes readable input, returning the resulting event
    /// (`NoEvent` when nothing final happened).
    fn handle_event(&mut self) -> Result<Event, FrontendError>;

    /// Non-blocking check for a pending event.
    fn flush(&mut self) -> Result<Option<Event>, FrontendError>;

    /// Called when the frontend descriptor was not readable.
    fn no_event(&mut self) -> Result<(), FrontendError>;
}

/// `<std::io::Error as Display>::to_string`: the error's text. Nothing is
/// stated of the text.
#[verifier::external_body]
pub(crate) fn io_error_text(e: &std::io::Error) -> String {
    e.to_string()
}

impl FrontendError {
    /// The human-readable description of the error.
    pub fn message(&self) -> (m: String)
        ensures
            match self {
                FrontendError::Unavailable(t) => m@ == "frontend unavailable: "@ + t@,
                FrontendError::Init(t) => m@ == "frontend init error: "@ + t@,
                FrontendError::Io(_) => exists|t: Seq<char>| m@ == "frontend I/O error: "@ + t,
                FrontendError::InvalidMode(t) => m@ == "frontend invalid mode: "@ + t@,
            },
    {
        match self {
            FrontendError::Unavailable(t) => {
                let mut m = String::from_str("frontend unavailable: ");
                m.append(t.as_str());
                m
            },
            FrontendError::Init(t) => {
                let mut m = String::from_str("frontend init error: ");
                m.append(t.as_str());
                m
            },
            FrontendError::Io(e) => {
                let mut m = String::from_str("frontend I/O error: ");
                let text = io_error_text(e);
                m.append(text.as_str());
                m
            },
            FrontendError::InvalidMode(t) => {
                let mut m = String::from_str("frontend invalid mode: ");
                m.append(t.as_str());
                m
            },
        }
    }
}

/// Whether a failed Wayland initialisation may fall back to the TTY
/// frontend: only when fallback is allowed and the display was unavailable.
pub fn should_fallback(allow_tty_fallback: bool, error: &FrontendError) -> (r: bool)
    ensures
        r == (allow_tty_fallback && error is Unavailable),
{
    allow_tty_fallback && matches!(error, FrontendError::Unavailable(_))
}

} // verus!
