//! Messages to the service manager, and where they go.

use vstd::prelude::*;

use crate::text::chars_of;

verus! {

/// The message that the service is up.
pub fn ready() -> (message: &'static str)
    ensures
        message@ == "READY=1"@,
{
    "READY=1"
}

/// The message that sets the status line of the service.
pub fn status(text: &str) -> (message: String)
    ensures
        message@ == "STATUS="@ + text@,
{
    let mut message = "STATUS=".to_string();
    message.append(text);
    message
}

/// Whether messages can be sent to the socket that the service manager has
/// named: it is a path, and no abstract name.
pub fn is_socket_path(socket_path: &str) -> (usable: bool)
    ensures
        usable == (socket_path@.len() > 0 && socket_path@[0] != '@'),
{
    let chars = chars_of(socket_path);
    chars.len() > 0 && chars[0] != '@'
}

/// The path to send messages to, if the service manager has named one.
pub fn destination(notify_socket: Option<String>) -> (path: Option<String>)
    ensures
        path == match notify_socket {
            Some(p) => if p@.len() > 0 && p@[0] != '@' {
                Some(p)
            } else {
                None
            },
            None => None,
        },
{
    match notify_socket {
        Some(p) => if is_socket_path(p.as_str()) {
            Some(p)
        } else {
            None
        },
        None => None,
    }
}

} // verus!
