//! The error taxonomy: a closed set of failure kinds, each with its fixed
//! client-visible reply.
//!
//! Two behaviours exist: reply and continue (parse, validation, dispatch
//! and binary-frame errors produce one structured error frame and leave
//! the session alive), and close silently (transport errors end the
//! session without a reply).

use vstd::prelude::*;
use crate::json::{quoted, push_lit, push_quoted, chars_string};

verus! {

/// The closed set of internal failure kinds.
pub enum DriverError {
    /// Socket I/O or framing trouble: the session closes, no reply.
    Transport,
    /// The frame held no well-formed command; the detail is a short
    /// diagnostic passed through to the client.
    Parse(String),
    /// A field lay outside its envelope; the sentence names the bound.
    Validation(String),
    /// The bus call failed; no local retry is attempted.
    Dispatch,
    /// A binary frame arrived.
    BinaryUnsupported,
}

/// The reply frame carrying a bare reason.
pub open spec fn error_reply(reason: Seq<char>) -> Seq<char> {
    "{\"type\":\"error\",\"reason\":"@ + quoted(reason) + "}"@
}

/// The reply frame carrying a reason and a detail.
pub open spec fn error_reply_detail(reason: Seq<char>, detail: Seq<char>) -> Seq<char> {
    "{\"type\":\"error\",\"reason\":"@ + quoted(reason) + ",\"detail\":"@ + quoted(detail) + "}"@
}

/// The acknowledgement frame.
pub open spec fn ok_reply_text() -> Seq<char> {
    "{\"type\":\"ok\"}"@
}

/// The greeting sent once after the handshake.
pub open spec fn hello_text() -> Seq<char> {
    "{\"type\":\"hello\",\"version\":\"1.0\"}"@
}

impl DriverError {
    /// The reply this error owes the client: `None` exactly for transport
    /// errors, where the session closes silently.
    pub open spec fn reply_view(self) -> Option<Seq<char>> {
        match self {
            DriverError::Transport => None,
            DriverError::Parse(d) => Some(error_reply_detail("invalid_json"@, d@)),
            DriverError::Validation(m) => Some(error_reply(m@)),
            DriverError::Dispatch => Some(error_reply("dispatch_failed"@)),
            DriverError::BinaryUnsupported => Some(error_reply("binary_not_supported"@)),
        }
    }

    /// Renders the reply frame for this error, if one is owed.
    pub fn reply(&self) -> (r: Option<String>)
        ensures
            match r {
                Some(m) => self.reply_view() == Some(m@),
                None => self.reply_view() is None,
            },
    {
        match self {
            DriverError::Transport => None,
            DriverError::Parse(d) => {
                let mut out: Vec<char> = Vec::new();
                push_lit(&mut out, "{\"type\":\"error\",\"reason\":");
                push_quoted(&mut out, "invalid_json");
                push_lit(&mut out, ",\"detail\":");
                push_quoted(&mut out, d.as_str());
                push_lit(&mut out, "}");
                proof {
                    assert(out@ =~= error_reply_detail("invalid_json"@, d@));
                }
                Some(chars_string(&out))
            },
            DriverError::Validation(m) => {
                let mut out: Vec<char> = Vec::new();
                push_lit(&mut out, "{\"type\":\"error\",\"reason\":");
                push_quoted(&mut out, m.as_str());
                push_lit(&mut out, "}");
                proof {
                    assert(out@ =~= error_reply(m@));
                }
                Some(chars_string(&out))
            },
            DriverError::Dispatch => {
                let mut out: Vec<char> = Vec::new();
                push_lit(&mut out, "{\"type\":\"error\",\"reason\":");
                push_quoted(&mut out, "dispatch_failed");
                push_lit(&mut out, "}");
                proof {
                    assert(out@ =~= error_reply("dispatch_failed"@));
                }
                Some(chars_string(&out))
            },
            DriverError::BinaryUnsupported => {
                let mut out: Vec<char> = Vec::new();
                push_lit(&mut out, "{\"type\":\"error\",\"reason\":");
                push_quoted(&mut out, "binary_not_supported");
                push_lit(&mut out, "}");
                proof {
                    assert(out@ =~= error_reply("binary_not_supported"@));
                }
                Some(chars_string(&out))
            },
        }
    }
}

/// The acknowledgement frame for a dispatched command.
pub fn ok_reply() -> (r: String)
    ensures
        r@ == ok_reply_text(),
{
    String::from_str("{\"type\":\"ok\"}")
}

/// The greeting frame, sent exactly once after a successful handshake.
pub fn hello_frame() -> (r: String)
    ensures
        r@ == hello_text(),
{
    String::from_str("{\"type\":\"hello\",\"version\":\"1.0\"}")
}

} // verus!
