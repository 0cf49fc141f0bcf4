//! The per-session protocol: what each inbound frame demands, and the
//! reply discipline the session owes the client.
//!
//! The session proper runs in the async shell around this library; the
//! decisions are all here.  `on_frame` maps one inbound frame to one step
//! (reply, dispatch, pong, or stop); `reply_for_dispatch` maps the bus
//! outcome of a dispatched command to its reply.  The spec-level model at
//! the end states the session laws: one reply per request frame, in
//! request order, with parse failures never reaching validation and
//! validation failures never reaching dispatch.

use vstd::prelude::*;
use crate::command::Command;
use crate::error::{DriverError, ok_reply_text};
use crate::json::{parse_cmd_spec, in_range, parse_command};

verus! {

/// One inbound WebSocket frame, as the transport hands it over.
pub enum Frame {
    /// A text frame, expected to carry a JSON command.
    Text(String),
    /// A binary frame: not supported, answered with an error reply.
    Binary(Vec<u8>),
    /// A control ping with its payload.
    ControlPing(Vec<u8>),
    /// The peer closed the connection.
    Close,
}

/// What the session must do with one inbound frame.
pub enum Step {
    /// Send this error's reply (if it owes one) and keep serving.
    Reject(DriverError),
    /// Dispatch this validated command on the bus, then send the reply
    /// that `reply_for_dispatch` gives for the outcome.
    Dispatch(Command),
    /// Answer a control ping with a pong carrying the same payload.
    Pong(Vec<u8>),
    /// Close the session.
    Stop,
}

/// Decides one frame.  A text frame is parsed and validated here;
/// dispatch is the caller's side effect.  Parse failures never reach
/// validation and validation failures never reach dispatch: a command is
/// handed out for dispatch exactly when the text parses to a command
/// inside the envelopes.
pub fn on_frame(f: Frame) -> (r: Step)
    requires
        f matches Frame::Text(t) ==> t@.len() < usize::MAX,
    ensures
        match f {
            Frame::Text(t) => match parse_cmd_spec(t@) {
                None => r matches Step::Reject(DriverError::Parse(_)),
                Some(cv) => if cv.is_valid() {
                    r matches Step::Dispatch(c) && c@ == cv && in_range(cv)
                } else {
                    r matches Step::Reject(DriverError::Validation(m)) && m@ == cv.violation()
                },
            },
            Frame::Binary(_) => r matches Step::Reject(DriverError::BinaryUnsupported),
            Frame::ControlPing(p) => r matches Step::Pong(q) && q@ == p@,
            Frame::Close => r matches Step::Stop,
        },
{
    match f {
        Frame::Text(t) => {
            match parse_command(t.as_str()) {
                Ok(cmd) => match cmd.validate() {
                    Ok(()) => Step::Dispatch(cmd),
                    Err(m) => Step::Reject(DriverError::Validation(m)),
                },
                Err(d) => Step::Reject(DriverError::Parse(d)),
            }
        },
        Frame::Binary(_) => Step::Reject(DriverError::BinaryUnsupported),
        Frame::ControlPing(p) => Step::Pong(p),
        Frame::Close => Step::Stop,
    }
}

/// The reply owed after a dispatch: acknowledgement on success, the
/// fixed `dispatch_failed` reason on any bus-level failure.
pub fn reply_for_dispatch(ok: bool) -> (r: String)
    ensures
        ok ==> r@ == ok_reply_text(),
        !ok ==> DriverError::Dispatch.reply_view() == Some(r@),
{
    if ok {
        crate::error::ok_reply()
    } else {
        match DriverError::Dispatch.reply() {
            Some(m) => m,
            None => crate::error::ok_reply(),
        }
    }
}

// ---------------------------------------------------------------------------
// The session laws
// ---------------------------------------------------------------------------

/// The kind of reply one request frame earns; `disp_ok` is the bus
/// outcome its dispatch would have, where one happens.
pub enum ReplyKind {
    Acknowledged,
    ParseError,
    ValidationError(Seq<char>),
    DispatchFailed,
    BinaryUnsupported,
}

/// The reply a request frame (text or binary) earns.
pub open spec fn reply_kind_of(f: Frame, disp_ok: bool) -> ReplyKind {
    match f {
        Frame::Text(t) => match parse_cmd_spec(t@) {
            None => ReplyKind::ParseError,
            Some(cv) => if cv.is_valid() {
                if disp_ok { ReplyKind::Acknowledged } else { ReplyKind::DispatchFailed }
            } else {
                ReplyKind::ValidationError(cv.violation())
            },
        },
        _ => ReplyKind::BinaryUnsupported,
    }
}


/// The request frames the session accepts, paired with their bus
/// outcomes, up to the first close: control pings earn a transport-level
/// pong, not a reply frame.
pub open spec fn requests_until_close(frames: Seq<Frame>, disp: Seq<bool>) -> Seq<(Frame, bool)>
    decreases frames.len(),
{
    if frames.len() == 0 || frames.len() > disp.len() {
        Seq::<(Frame, bool)>::empty()
    } else {
        match frames[0] {
            Frame::Close => Seq::<(Frame, bool)>::empty(),
            Frame::ControlPing(_) => requests_until_close(frames.skip(1), disp.skip(1)),
            _ => seq![(frames[0], disp[0])] + requests_until_close(frames.skip(1), disp.skip(1)),
        }
    }
}

/// The replies the session emits, in emission order, up to the first
/// close: one per request frame, as the step functions produce them.
pub open spec fn replies_until_close(frames: Seq<Frame>, disp: Seq<bool>) -> Seq<ReplyKind>
    decreases frames.len(),
{
    if frames.len() == 0 || frames.len() > disp.len() {
        Seq::<ReplyKind>::empty()
    } else {
        match frames[0] {
            Frame::Close => Seq::<ReplyKind>::empty(),
            Frame::ControlPing(_) => replies_until_close(frames.skip(1), disp.skip(1)),
            _ => seq![reply_kind_of(frames[0], disp[0])] + replies_until_close(
                frames.skip(1),
                disp.skip(1),
            ),
        }
    }
}

/// One reply per accepted request frame, in request order: the session's
/// reply sequence has exactly one entry per request frame before the
/// close, and the k-th reply is the one its k-th request earns.
pub proof fn lemma_replies_match_requests(frames: Seq<Frame>, disp: Seq<bool>)
    ensures
        replies_until_close(frames, disp).len() == requests_until_close(frames, disp).len(),
        forall|k: int|
            0 <= k < replies_until_close(frames, disp).len() ==> replies_until_close(frames, disp)[k]
                == reply_kind_of(
                requests_until_close(frames, disp)[k].0,
                requests_until_close(frames, disp)[k].1,
            ),
    decreases frames.len(),
{
    if frames.len() == 0 || frames.len() > disp.len() {
    } else {
        match frames[0] {
            Frame::Close => {},
            Frame::ControlPing(_) => {
                lemma_replies_match_requests(frames.skip(1), disp.skip(1));
            },
            _ => {
                lemma_replies_match_requests(frames.skip(1), disp.skip(1));
                let rs = replies_until_close(frames, disp);
                let qs = requests_until_close(frames, disp);
                let rs1 = replies_until_close(frames.skip(1), disp.skip(1));
                let qs1 = requests_until_close(frames.skip(1), disp.skip(1));
                assert(rs == seq![reply_kind_of(frames[0], disp[0])] + rs1);
                assert(qs == seq![(frames[0], disp[0])] + qs1);
                assert forall|k: int| 0 <= k < rs.len() implies rs[k] == reply_kind_of(
                    qs[k].0,
                    qs[k].1,
                ) by {
                    if k == 0 {
                    } else {
                        assert(rs[k] == rs1[k - 1]);
                        assert(qs[k] == qs1[k - 1]);
                    }
                }
            },
        }
    }
}

} // verus!
