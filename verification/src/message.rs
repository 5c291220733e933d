//! What a monitor sends when it fires.
use std::sync::Arc;
use std::time::Instant;
use vstd::prelude::*;

verus! {

/// The message of a monitor that fired: what the context of the strategy it starts is to hold.
pub struct MonitorMessage<V: ?Sized> {
    /// The values, each with its protocol.
    pub contexts: Vec<(&'static str, Arc<V>)>,
    /// When the signal that the monitor fired on was received, if the monitor says so.
    pub sig_time: Option<Instant>,
}

impl<V> MonitorMessage<V> {
    /// A message with one value.
    pub fn single(protocol: &'static str, value: V) -> (message: Self)
        ensures
            message.contexts@ == seq![(protocol, Arc::new(value))],
            message.sig_time is None,
    {
        MonitorMessage { contexts: vec![(protocol, Arc::new(value))], sig_time: None }
    }
}

} // verus!
