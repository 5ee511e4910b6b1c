//! What can go wrong.
use vstd::prelude::*;

verus! {

/// An error, with what the failing part said about it.
#[derive(Debug, PartialEq, Eq)]
pub enum Error {
    /// The system refused.
    Io(String),
    /// The websocket failed.
    Tunstenite(String),
    /// The other end of a channel is gone.
    Mpsc(String),
    /// A connection did not become a websocket, for the reason given.
    NewConnection(String),
}

impl Error {
    /// What the error says: what the failing part said, or for a failed connection that it
    /// failed.
    pub open spec fn says(self) -> Seq<char> {
        match self {
            Error::Io(text) => text@,
            Error::Tunstenite(text) => text@,
            Error::Mpsc(text) => text@,
            Error::NewConnection(_) => "new connection failed: "@,
        }
    }

    /// The error as text.
    pub fn to_text(&self) -> (text: String)
        ensures
            text@ == self.says(),
    {
        match self {
            Error::Io(text) => text.clone(),
            Error::Tunstenite(text) => text.clone(),
            Error::Mpsc(text) => text.clone(),
            Error::NewConnection(_) => String::from_str("new connection failed: "),
        }
    }
}

/// An error says all that the failing part said. A connection that did not become a websocket
/// says that it failed.
pub proof fn law_errors_pass_on_what_was_said(error: Error, text: String)
    ensures
        error == Error::Io(text) || error == Error::Tunstenite(text) || error == Error::Mpsc(text)
            ==> error.says() == text@,
        error == Error::NewConnection(text) ==> error.says() == "new connection failed: "@,
{
}

} // verus!
