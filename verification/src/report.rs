//! The error taxonomy of the protocol core and the error reporter, which
//! turns a failure into an `Error` message for the peer.

use vstd::prelude::*;
use crate::message::MessageType;

verus! {

/// Every failure the core can raise while handling one frame.
///
/// `Framing` is transport-level and fatal to the connection; every other
/// kind is reported to the client and the connection stays open.
#[derive(Debug, Clone, Copy, PartialEq, Eq, Structural)]
pub enum ChatError {
    /// The transport ended mid-length or mid-payload.
    Framing,
    /// The payload bytes do not parse into a known message.
    Decode,
    /// The message kind is not legal in the current session state.
    Protocol,
    /// Login of an unknown user, or a failed registration.
    Auth,
    /// The identity store rejected a write.
    Persistence,
    /// A file or image operation failed.
    Io,
}

/// The text reported to the client for each error kind.
pub open spec fn spec_error_text(e: ChatError) -> Seq<char> {
    match e {
        ChatError::Framing => "Framing error: the connection ended in the middle of a frame"@,
        ChatError::Decode => "Decode error: the payload is not a known message"@,
        ChatError::Protocol => "Protocol error: that message is not allowed right now"@,
        ChatError::Auth => "Authentication error"@,
        ChatError::Persistence => "Failed to persist the message"@,
        ChatError::Io => "Failed to store the file or image"@,
    }
}

impl ChatError {
    /// A failure is fatal exactly when the transport itself broke: the
    /// connection closes after a best-effort report. All other failures
    /// are reported and the read loop continues.
    pub open spec fn spec_is_fatal(self) -> bool {
        self is Framing
    }

    /// Runtime test of [`ChatError::spec_is_fatal`].
    pub fn is_fatal(&self) -> (r: bool)
        ensures
            r == self.spec_is_fatal(),
    {
        match self {
            ChatError::Framing => true,
            _ => false,
        }
    }

    /// The text reported to the client for this error kind.
    pub fn describe(&self) -> (r: String)
        ensures
            r@ == spec_error_text(*self),
    {
        match self {
            ChatError::Framing => String::from_str(
                "Framing error: the connection ended in the middle of a frame",
            ),
            ChatError::Decode => String::from_str(
                "Decode error: the payload is not a known message",
            ),
            ChatError::Protocol => String::from_str(
                "Protocol error: that message is not allowed right now",
            ),
            ChatError::Auth => String::from_str("Authentication error"),
            ChatError::Persistence => String::from_str("Failed to persist the message"),
            ChatError::Io => String::from_str("Failed to store the file or image"),
        }
    }
}

/// Wraps a failure into the `Error` message sent back to the connection the
/// failure came from. Delivery of the reply is the transport's problem; a
/// failure to deliver is logged by the caller and never re-raised.
pub fn error_reply(e: &ChatError) -> (m: MessageType)
    ensures
        m@ matches crate::message::MsgView::Error(t) && t == spec_error_text(*e),
{
    MessageType::Error(e.describe())
}

/// Every error description fits a frame.
proof fn lemma_error_text_encodable(e: ChatError)
    ensures
        crate::codec::spec_encodable(crate::message::MsgView::Error(spec_error_text(e))),
{
    crate::codec::lemma_encode_utf8_len_bound(spec_error_text(e));
    match e {
        ChatError::Framing => {
            reveal_strlit("Framing error: the connection ended in the middle of a frame");
        },
        ChatError::Decode => {
            reveal_strlit("Decode error: the payload is not a known message");
        },
        ChatError::Protocol => {
            reveal_strlit("Protocol error: that message is not allowed right now");
        },
        ChatError::Auth => {
            reveal_strlit("Authentication error");
        },
        ChatError::Persistence => {
            reveal_strlit("Failed to persist the message");
        },
        ChatError::Io => {
            reveal_strlit("Failed to store the file or image");
        },
    }
}

/// Wraps a failure into an `Error` message and encodes the whole frame to
/// write back on the reporting connection.
pub fn report_error_frame(e: &ChatError) -> (r: Vec<u8>)
    ensures
        r@ == crate::codec::spec_frame(
            crate::message::MsgView::Error(spec_error_text(*e)),
        ),
{
    let reply = error_reply(e);
    proof {
        lemma_error_text_encodable(*e);
    }
    match crate::codec::encode_frame(&reply) {
        Ok(frame) => frame,
        Err(_) => {
            proof {
                assert(false);
            }
            Vec::new()
        },
    }
}

} // verus!
