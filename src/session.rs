use vstd::prelude::*;
use vstd::string::StringExecFns;

use crate::queue::IngestQueue;
use crate::registry::{claim_outcome, NameRegistry};
use crate::slice::{file_name_of, SliceView};

verus! {

/// An inbound frame of a connection.
pub enum Frame {
    Text(String),
    Binary(Vec<u8>),
    /// Any other frame (ping, pong, close).
    Other,
}

/// Where name negotiation stands after one inbound frame.
pub enum Negotiation {
    /// No text frame yet: keep reading.
    Pending,
    /// The name was free and is now held by this connection.
    Accepted(String),
    /// The name is held by another session: notify the client and close.
    Rejected,
}

/// Advances name negotiation by one inbound frame. The first text frame
/// proposes a display name, claimed if no active session holds it.
pub fn negotiate(registry: &mut NameRegistry, frame: Frame) -> (r: Negotiation)
    requires
        old(registry).wf(),
    ensures
        final(registry).wf(),
        match frame {
            Frame::Text(name) => {
                &&& final(registry)@ == claim_outcome(old(registry)@, name@).1
                &&& if claim_outcome(old(registry)@, name@).0 {
                    r matches Negotiation::Accepted(n) && n@ == name@
                } else {
                    r is Rejected
                }
            },
            _ => r is Pending && final(registry)@ == old(registry)@,
        },
{
    match frame {
        Frame::Text(name) => {
            if registry.claim(name.as_str()) {
                Negotiation::Accepted(name)
            } else {
                Negotiation::Rejected
            }
        },
        _ => Negotiation::Pending,
    }
}

/// Queues the slice that an inbound frame of session `name` becomes: a
/// binary frame a data slice, a text frame a control slice. Other frames
/// queue nothing.
pub fn inbound_frame(queue: &mut IngestQueue, frame: Frame, name: &String)
    requires
        old(queue).wf(),
    ensures
        final(queue).wf(),
        match frame {
            Frame::Binary(data) => final(queue)@ == old(queue)@.push(
                SliceView { filename: file_name_of(name@), payload: data@, command: None },
            ),
            Frame::Text(text) => final(queue)@ == old(queue)@.push(
                SliceView {
                    filename: file_name_of(name@),
                    payload: Seq::empty(),
                    command: Some(text@),
                },
            ),
            Frame::Other => final(queue)@ == old(queue)@,
        },
{
    match frame {
        Frame::Binary(data) => queue.push_to_queue(data, name),
        Frame::Text(text) => queue.push_msg_to_queue(text, name),
        Frame::Other => {},
    }
}

/// The announcement that session `name` joined.
pub fn joined_message(name: &str) -> (r: String)
    ensures
        r@ == name@ + " joined."@,
{
    let mut msg = String::from_str(name);
    msg.append(" joined.");
    msg
}

/// The announcement that session `name` left.
pub fn left_message(name: &str) -> (r: String)
    ensures
        r@ == name@ + " left."@,
{
    let mut msg = String::from_str(name);
    msg.append(" left.");
    msg
}

/// The reply sent to a client whose proposed name is taken.
pub fn name_taken_message() -> (r: String)
    ensures
        r@ == "Username already taken."@,
{
    String::from_str("Username already taken.")
}

} // verus!
