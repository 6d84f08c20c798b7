//! The closed error taxonomy shared by every layer of the client.
//!
//! Every fallible operation returns exactly one of these kinds; lower layers
//! wrap the underlying cause into one kind and forward it, never discard it.

use vstd::prelude::*;

verus! {

/// A failure message, carried by every error kind.
#[derive(Debug, Clone, PartialEq)]
pub struct WxError {
    pub message: String,
}

impl WxError {
    pub fn new(msg: &str) -> (r: WxError)
        ensures
            r.message@ == msg@,
    {
        WxError { message: msg.to_owned() }
    }
}

/// The closed set of failure kinds.
#[derive(Debug, Clone, PartialEq)]
pub enum Error {
    /// Underlying input/output failure.
    Io(WxError),
    /// Connection, send or receive failure, including a receive timeout.
    Transport(WxError),
    /// Malformed or unrecognized reply framing.
    Protocol(WxError),
    /// The store explicitly reported a failure; carries the store's message.
    Application(WxError),
    /// A byte payload did not match the shape the codec expected.
    Serialization(WxError),
    /// A decoded string payload was not a valid codec string.
    Encoding(WxError),
    /// Malformed numeric or timestamp input from upstream feed text.
    Parse(WxError),
}

impl Error {
    /// The message carried by this error, whatever its kind.
    pub open spec fn spec_message(&self) -> Seq<char> {
        match self {
            Error::Io(w) => w.message@,
            Error::Transport(w) => w.message@,
            Error::Protocol(w) => w.message@,
            Error::Application(w) => w.message@,
            Error::Serialization(w) => w.message@,
            Error::Encoding(w) => w.message@,
            Error::Parse(w) => w.message@,
        }
    }

    pub fn message(&self) -> (r: &String)
        ensures
            r@ == self.spec_message(),
    {
        match self {
            Error::Io(w) => &w.message,
            Error::Transport(w) => &w.message,
            Error::Protocol(w) => &w.message,
            Error::Application(w) => &w.message,
            Error::Serialization(w) => &w.message,
            Error::Encoding(w) => &w.message,
            Error::Parse(w) => &w.message,
        }
    }

    /// A fixed name for the kind, usable where a rendering of the error is
    /// needed.
    pub fn kind(&self) -> (r: &'static str)
        ensures
            self matches Error::Io(_) ==> r@ == "io"@,
            self matches Error::Transport(_) ==> r@ == "transport"@,
            self matches Error::Protocol(_) ==> r@ == "protocol"@,
            self matches Error::Application(_) ==> r@ == "application"@,
            self matches Error::Serialization(_) ==> r@ == "serialization"@,
            self matches Error::Encoding(_) ==> r@ == "encoding"@,
            self matches Error::Parse(_) ==> r@ == "parse"@,
    {
        match self {
            Error::Io(_) => "io",
            Error::Transport(_) => "transport",
            Error::Protocol(_) => "protocol",
            Error::Application(_) => "application",
            Error::Serialization(_) => "serialization",
            Error::Encoding(_) => "encoding",
            Error::Parse(_) => "parse",
        }
    }
}

} // verus!
