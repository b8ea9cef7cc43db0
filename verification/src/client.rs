//! The client's side of the protocol: what a reply from the daemon says.

use vstd::prelude::*;
use vstd::slice::slice_subrange;
use vstd::string::*;
use vstd::utf8::{decode_utf8, valid_utf8};

verus! {

/// Why a request to the daemon did not give a result.
#[derive(Debug)]
pub enum SrvInvocationError {
    /// The daemon answered with an error.
    ServerError(String),
    /// The request or the reply did not get through.
    CommunicationError(String),
}

/// An error as contracts see it.
pub enum SrvInvocationErrorView {
    ServerError(Seq<char>),
    CommunicationError(Seq<char>),
}

impl View for SrvInvocationError {
    type V = SrvInvocationErrorView;

    open spec fn view(&self) -> SrvInvocationErrorView {
        match *self {
            SrvInvocationError::ServerError(message) => SrvInvocationErrorView::ServerError(
                message@,
            ),
            SrvInvocationError::CommunicationError(
                message,
            ) => SrvInvocationErrorView::CommunicationError(message@),
        }
    }
}

impl SrvInvocationErrorView {
    /// What the error says.
    pub open spec fn text(self) -> Seq<char> {
        match self {
            SrvInvocationErrorView::ServerError(message) => "Server error - "@ + message,
            SrvInvocationErrorView::CommunicationError(message) => "Communication Error - "@
                + message,
        }
    }
}

impl SrvInvocationError {
    /// What the error says, as a string.
    pub fn to_string(&self) -> (s: String)
        ensures
            s@ == self@.text(),
    {
        match self {
            SrvInvocationError::ServerError(message) => {
                let mut s = String::from_str("Server error - ");
                s.append(message.as_str());
                s
            },
            SrvInvocationError::CommunicationError(message) => {
                let mut s = String::from_str("Communication Error - ");
                s.append(message.as_str());
                s
            },
        }
    }
}

/// Decodes bytes with `std::str::from_utf8`: the text that they encode,
/// if and only if they are valid UTF-8.
#[verifier::external_body]
fn utf8_text(bytes: &[u8]) -> (text: Option<String>)
    ensures
        match text {
            Some(s) => valid_utf8(bytes@) && s@ == decode_utf8(bytes@),
            None => !valid_utf8(bytes@),
        },
{
    std::str::from_utf8(bytes).ok().map(String::from)
}

/// The bytes `OK#`, which begin a reply that carries a result.
pub open spec fn ok_prefix() -> Seq<u8> {
    seq![79u8, 75u8, 35u8]
}

/// The bytes `ERR#`, which begin a reply that carries an error.
pub open spec fn err_prefix() -> Seq<u8> {
    seq![69u8, 82u8, 82u8, 35u8]
}

/// Whether some bytes begin with a prefix.
pub open spec fn starts_with(bytes: Seq<u8>, prefix: Seq<u8>) -> bool {
    prefix.len() <= bytes.len() && bytes.subrange(0, prefix.len() as int) == prefix
}

/// The text behind the first `skip` bytes, or the error of a reply that
/// is not text.
pub open spec fn text_behind(reply: Seq<u8>, skip: int) -> Result<
    Seq<char>,
    SrvInvocationErrorView,
> {
    let rest = reply.subrange(skip, reply.len() as int);
    if valid_utf8(rest) {
        Ok(decode_utf8(rest))
    } else {
        Err(SrvInvocationErrorView::CommunicationError("Malformed reply String"@))
    }
}

/// What a reply says: the payload behind `OK#`, the daemon's error behind
/// `ERR#`, or that the reply is not one.
pub open spec fn decoded_reply(reply: Seq<u8>) -> Result<Seq<char>, SrvInvocationErrorView> {
    if starts_with(reply, ok_prefix()) {
        text_behind(reply, 3)
    } else if starts_with(reply, err_prefix()) {
        match text_behind(reply, 4) {
            Ok(message) => Err(SrvInvocationErrorView::ServerError(message)),
            Err(e) => Err(e),
        }
    } else {
        Err(SrvInvocationErrorView::CommunicationError("Missing reply prefix"@))
    }
}

/// Reads a reply of the daemon: the payload of a success, or the error.
pub fn decode_reply(reply: &[u8]) -> (r: Result<String, SrvInvocationError>)
    ensures
        match r {
            Ok(payload) => decoded_reply(reply@) == Ok::<Seq<char>, SrvInvocationErrorView>(
                payload@,
            ),
            Err(e) => decoded_reply(reply@) == Err::<Seq<char>, SrvInvocationErrorView>(e@),
        },
{
    let n = reply.len();
    if n >= 3 && reply[0] == 79 && reply[1] == 75 && reply[2] == 35 {
        proof {
            assert(reply@.subrange(0, 3) =~= ok_prefix());
        }
        match utf8_text(slice_subrange(reply, 3, n)) {
            Some(payload) => Ok(payload),
            None => Err(
                SrvInvocationError::CommunicationError(String::from_str("Malformed reply String")),
            ),
        }
    } else if n >= 4 && reply[0] == 69 && reply[1] == 82 && reply[2] == 82 && reply[3] == 35 {
        proof {
            assert(reply@.subrange(0, 4) =~= err_prefix());
            if starts_with(reply@, ok_prefix()) {
                assert(reply@.subrange(0, 3)[0] == 79u8);
            }
        }
        match utf8_text(slice_subrange(reply, 4, n)) {
            Some(message) => Err(SrvInvocationError::ServerError(message)),
            None => Err(
                SrvInvocationError::CommunicationError(String::from_str("Malformed reply String")),
            ),
        }
    } else {
        proof {
            if starts_with(reply@, ok_prefix()) {
                let head = reply@.subrange(0, 3);
                assert(head[0] == 79u8 && head[1] == 75u8 && head[2] == 35u8);
            }
            if starts_with(reply@, err_prefix()) {
                let head = reply@.subrange(0, 4);
                assert(head[0] == 69u8 && head[1] == 82u8 && head[2] == 82u8 && head[3] == 35u8);
            }
        }
        Err(SrvInvocationError::CommunicationError(String::from_str("Missing reply prefix")))
    }
}

} // verus!
