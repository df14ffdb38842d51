use vstd::prelude::*;
use vstd::string::StringExecFns;

use crate::slice::{Slice, SliceView};

verus! {

/// The control command that marks the end of a session's recording.
pub open spec fn stop_command() -> Seq<char> {
    "stop"@
}

/// Where the bytes for `filename` are stored.
pub open spec fn storage_path_of(filename: Seq<char>) -> Seq<char> {
    "./uploads/"@ + filename
}

/// What the writer does with one dispatched slice.
pub enum WriterAction {
    /// Append `payload` to the file at `path`, creating it if absent.
    Append { path: String, payload: Vec<u8> },
    /// Publish the message to every subscribed session.
    Publish(String),
    /// Nothing: a command the writer does not know.
    Ignore,
}

/// Builds the storage path of `filename`.
pub fn storage_path(filename: &str) -> (r: String)
    ensures
        r@ == storage_path_of(filename@),
{
    let mut path = String::from_str("./uploads/");
    path.append(filename);
    path
}

/// Decides the writer's action on `slice`: a data slice is appended to its
/// file, a stop command publishes the file name as a completion event, and
/// any other command is ignored.
pub fn route_slice(slice: Slice) -> (r: WriterAction)
    ensures
        match slice@.command {
            None => r matches WriterAction::Append { path, payload } && path@ == storage_path_of(
                slice@.filename,
            ) && payload@ == slice@.payload,
            Some(c) => if c == stop_command() {
                r matches WriterAction::Publish(m) && m@ == slice@.filename
            } else {
                r is Ignore
            },
        },
{
    match slice.command {
        None => WriterAction::Append {
            path: storage_path(slice.filename.as_str()),
            payload: slice.payload,
        },
        Some(command) => {
            let stop = String::from_str("stop");
            if command == stop {
                WriterAction::Publish(slice.filename)
            } else {
                WriterAction::Ignore
            }
        },
    }
}

} // verus!
