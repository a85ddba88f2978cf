//! The notification port: consumers implement it to forward alerts to
//! external systems (mail, messaging); the implementations live with the
//! embedding application, which owns the network.

use vstd::prelude::*;

verus! {

/// Errors of the notification layer.
#[derive(Clone, Debug, PartialEq)]
pub enum NotifyError {
    Network(String),
    Config(String),
    Platform(String),
}

/// Send a notification with a subject and a body.
pub trait Notifier {
    fn notify(&mut self, subject: &str, content: &str) -> Result<(), NotifyError>;
}

} // verus!
