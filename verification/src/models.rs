//! What a client may ask for and what it is told in return.

use crate::text::same_text;
use vstd::prelude::*;
use vstd::string::*;

verus! {

/// A request from the client.
#[derive(Debug, Clone, PartialEq, Eq)]
pub enum Command {
    /// Begin a session.
    Attach,
    /// End the session.
    Detach,
    /// End the session and acknowledge its end.
    Shutdown,
    /// Move the stage: `up`, `down`, `left` or `right`.
    Move { direction: String },
    /// Move the zoom axis: `in` or `out`.
    Zoom { direction: String },
    /// Send one still image.
    Capture,
    /// Remember the 128-bit identifier of the target.
    SetTarget { id: u128 },
    /// Ask for a sign of life.
    Heartbeat,
}

/// The mathematical content of a [`Command`].
pub enum CommandView {
    Attach,
    Detach,
    Shutdown,
    Move { direction: Seq<char> },
    Zoom { direction: Seq<char> },
    Capture,
    SetTarget { id: u128 },
    Heartbeat,
}

impl View for Command {
    type V = CommandView;

    open spec fn view(&self) -> CommandView {
        match *self {
            Command::Attach => CommandView::Attach,
            Command::Detach => CommandView::Detach,
            Command::Shutdown => CommandView::Shutdown,
            Command::Move { direction } => CommandView::Move { direction: direction@ },
            Command::Zoom { direction } => CommandView::Zoom { direction: direction@ },
            Command::Capture => CommandView::Capture,
            Command::SetTarget { id } => CommandView::SetTarget { id },
            Command::Heartbeat => CommandView::Heartbeat,
        }
    }
}

impl CommandView {
    /// Whether the command changes the session itself and is therefore
    /// applied where it arrives instead of being queued.
    pub open spec fn is_session_control(self) -> bool {
        self is Attach || self is Detach
    }
}

/// A message to the client.
#[derive(Debug, Clone, PartialEq, Eq)]
pub enum Response {
    /// The named command was dispatched.
    Ack { command: String },
    /// Something went wrong.
    Error { message: String },
    /// A still image, Base64-encoded.
    ImageCaptured { data: String, format: String },
    /// One frame of the live stream, Base64-encoded, with the time it was
    /// sent in milliseconds since the Unix epoch.
    StreamFrame { data: String, format: String, timestamp: i64 },
    /// The live stream began.
    StreamStarted,
    /// The live stream ended.
    StreamStopped,
    /// A sign of life.
    Heartbeat,
}

/// The mathematical content of a [`Response`].
pub enum ResponseView {
    Ack { command: Seq<char> },
    Error { message: Seq<char> },
    ImageCaptured { data: Seq<char>, format: Seq<char> },
    StreamFrame { data: Seq<char>, format: Seq<char>, timestamp: i64 },
    StreamStarted,
    StreamStopped,
    Heartbeat,
}

impl View for Response {
    type V = ResponseView;

    open spec fn view(&self) -> ResponseView {
        match *self {
            Response::Ack { command } => ResponseView::Ack { command: command@ },
            Response::Error { message } => ResponseView::Error { message: message@ },
            Response::ImageCaptured { data, format } => ResponseView::ImageCaptured {
                data: data@,
                format: format@,
            },
            Response::StreamFrame { data, format, timestamp } => ResponseView::StreamFrame {
                data: data@,
                format: format@,
                timestamp,
            },
            Response::StreamStarted => ResponseView::StreamStarted,
            Response::StreamStopped => ResponseView::StreamStopped,
            Response::Heartbeat => ResponseView::Heartbeat,
        }
    }
}

/// The content of each command of `commands`, in order.
pub open spec fn command_views(commands: Seq<Command>) -> Seq<CommandView> {
    Seq::new(commands.len(), |i: int| commands[i]@)
}

/// The command that a discriminant and the payload found beside it stand
/// for. `Move` and `Zoom` need a direction and `SetTarget` an identifier;
/// payload that a command has no use for is ignored. The heartbeat's
/// discriminant is written in lower case. Any other discriminant, or a
/// missing payload, stands for no command.
pub open spec fn command_of(
    kind: Seq<char>,
    direction: Option<Seq<char>>,
    id: Option<u128>,
) -> Option<CommandView> {
    if kind == "Attach"@ {
        Some(CommandView::Attach)
    } else if kind == "Detach"@ {
        Some(CommandView::Detach)
    } else if kind == "Shutdown"@ {
        Some(CommandView::Shutdown)
    } else if kind == "Capture"@ {
        Some(CommandView::Capture)
    } else if kind == "heartbeat"@ {
        Some(CommandView::Heartbeat)
    } else if kind == "Move"@ {
        match direction {
            Some(direction) => Some(CommandView::Move { direction }),
            None => None,
        }
    } else if kind == "Zoom"@ {
        match direction {
            Some(direction) => Some(CommandView::Zoom { direction }),
            None => None,
        }
    } else if kind == "SetTarget"@ {
        match id {
            Some(id) => Some(CommandView::SetTarget { id }),
            None => None,
        }
    } else {
        None
    }
}

/// The text of `direction`, if there is one.
pub open spec fn optional_text(direction: Option<String>) -> Option<Seq<char>> {
    match direction {
        Some(text) => Some(text@),
        None => None,
    }
}

impl Command {
    /// Builds the command that a decoded message stands for, from its
    /// discriminant and the payload found beside it.
    pub fn from_parts(kind: &str, direction: Option<String>, id: Option<u128>) -> (command: Option<
        Command,
    >)
        ensures
            command is Some <==> command_of(kind@, optional_text(direction), id) is Some,
            command matches Some(c) ==> command_of(kind@, optional_text(direction), id) == Some(
                c@,
            ),
    {
        if same_text(kind, "Attach") {
            Some(Command::Attach)
        } else if same_text(kind, "Detach") {
            Some(Command::Detach)
        } else if same_text(kind, "Shutdown") {
            Some(Command::Shutdown)
        } else if same_text(kind, "Capture") {
            Some(Command::Capture)
        } else if same_text(kind, "heartbeat") {
            Some(Command::Heartbeat)
        } else if same_text(kind, "Move") {
            match direction {
                Some(direction) => Some(Command::Move { direction }),
                None => None,
            }
        } else if same_text(kind, "Zoom") {
            match direction {
                Some(direction) => Some(Command::Zoom { direction }),
                None => None,
            }
        } else if same_text(kind, "SetTarget") {
            match id {
                Some(id) => Some(Command::SetTarget { id }),
                None => None,
            }
        } else {
            None
        }
    }

    /// Tells whether the command is applied to the session on arrival.
    pub fn is_session_control(&self) -> (b: bool)
        ensures
            b == self@.is_session_control(),
    {
        match self {
            Command::Attach => true,
            Command::Detach => true,
            _ => false,
        }
    }
}

} // verus!
