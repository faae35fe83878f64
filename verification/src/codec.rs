//! Codecs turn the value of an event into the bytes that leave the system,
//! and bytes that arrive into values. The sinks call a codec; which one is a
//! matter of configuration.

use crate::errors::ErrorKind;
use crate::event::EventValue;
use crate::event::EventValueView;
use vstd::prelude::*;

verus! {

/// A way of writing values down and of reading them back.
pub trait Codec {
    /// What `encode` may make of a value: `data` where it is accepted,
    /// `None` where it is refused. A codec that does not say what it does
    /// may do anything.
    open spec fn encodes(&self, value: EventValueView, data: Option<EventValueView>) -> bool {
        true
    }

    /// What `decode` may make of data: `value` where it is accepted, `None`
    /// where it is refused. A codec that does not say what it does may do
    /// anything.
    open spec fn decodes(&self, data: EventValueView, value: Option<EventValueView>) -> bool {
        true
    }

    /// Writes a value down.
    fn encode(&self, value: EventValue) -> (r: Result<EventValue, ErrorKind>)
        ensures
            self.encodes(value@, accepted(r)),
    ;

    /// Reads a value back.
    fn decode(&self, data: EventValue) -> (r: Result<EventValue, ErrorKind>)
        ensures
            self.decodes(data@, accepted(r)),
    ;
}

/// The value that a codec gave, if it gave one.
pub open spec fn accepted(r: Result<EventValue, ErrorKind>) -> Option<EventValueView> {
    match r {
        Ok(value) => Some(value@),
        Err(_) => None,
    }
}

/// The codec that leaves every value as it is.
#[derive(Debug, Clone, Copy, PartialEq, Eq, Structural)]
pub struct Pass {}

impl Codec for Pass {
    open spec fn encodes(&self, value: EventValueView, data: Option<EventValueView>) -> bool {
        data == Some(value)
    }

    open spec fn decodes(&self, data: EventValueView, value: Option<EventValueView>) -> bool {
        value == Some(data)
    }

    fn encode(&self, value: EventValue) -> (r: Result<EventValue, ErrorKind>) {
        Ok(value)
    }

    fn decode(&self, data: EventValue) -> (r: Result<EventValue, ErrorKind>) {
        Ok(data)
    }
}

} // verus!
