//! The errors that registration and sending report.

use vstd::prelude::*;
use vstd::string::StringExecFns;

verus! {

/// What can go wrong when a subscription is made or a message is sent.
/// Each variant carries the text that was refused; a refused pattern also
/// carries what the pattern parser said of it.
#[derive(Debug, Clone, PartialEq, Eq)]
pub enum Error {
    /// The text given to `listen` is not an address pattern: the text, and
    /// the parser's reason.
    InvalidPattern(String, String),
    /// The text a message was sent to is not an address.
    InvalidAddress(String),
    /// A single-target send named an event that nothing listens to.
    CallbackNotFound(String),
}

impl Error {
    /// The text that the error is about.
    pub open spec fn subject(self) -> Seq<char> {
        match self {
            Error::InvalidPattern(s, _) => s@,
            Error::InvalidAddress(s) => s@,
            Error::CallbackNotFound(s) => s@,
        }
    }

    /// What the message puts before the refused text.
    pub open spec fn prefix(self) -> Seq<char> {
        match self {
            Error::InvalidPattern(_, _) => "Invalid address pattern '"@,
            Error::InvalidAddress(_) => "Invalid address '"@,
            Error::CallbackNotFound(_) => "Callback for event '"@,
        }
    }

    /// What the message puts behind the refused text.
    pub open spec fn suffix(self) -> Seq<char> {
        match self {
            Error::InvalidPattern(_, why) => "': "@ + why@,
            Error::InvalidAddress(_) => "': an address is one or more parts, each a '/' and a name without wildcards; one more '/' may close it."@,
            Error::CallbackNotFound(_) => "' is not registered."@,
        }
    }

    /// The message for a reader: what was refused, and why.
    pub fn message(&self) -> (r: String)
        ensures
            r@ == self.prefix() + self.subject() + self.suffix(),
    {
        let before = match self {
            Error::InvalidPattern(_, _) => "Invalid address pattern '",
            Error::InvalidAddress(_) => "Invalid address '",
            Error::CallbackNotFound(_) => "Callback for event '",
        };
        let mut r = String::from_str(before);
        r.append(self.text().as_str());
        match self {
            Error::InvalidPattern(_, why) => {
                r.append("': ");
                r.append(why.as_str());
            },
            Error::InvalidAddress(_) => {
                r.append(
                    "': an address is one or more parts, each a '/' and a name without wildcards; one more '/' may close it.",
                );
            },
            Error::CallbackNotFound(_) => {
                r.append("' is not registered.");
            },
        }
        assert(r@ =~= self.prefix() + self.subject() + self.suffix());
        r
    }

    /// The text that the error is about.
    pub fn text(&self) -> (r: &String)
        ensures
            r@ == self.subject(),
    {
        match self {
            Error::InvalidPattern(s, _) => s,
            Error::InvalidAddress(s) => s,
            Error::CallbackNotFound(s) => s,
        }
    }
}

} // verus!
