use vstd::prelude::*;

use crate::bytes::{ascii, bytes_equal, copy_bytes, literal};

verus! {

/// What a peer reports in an announce.
#[derive(Clone, Copy, Debug, PartialEq, Eq, Structural)]
pub enum Event {
    Empty,
    Started,
    Stopped,
    Completed,
}

/// An event name that is none of the known ones; it holds the name.
#[derive(Debug, PartialEq, Eq)]
pub struct EventParseError(pub Vec<u8>);

/// The event a name stands for: each event is known by its name in lower
/// case, capitalised, or in upper case.
pub open spec fn event_named(text: Seq<u8>) -> Option<Event> {
    if text == ascii("Started"@) || text == ascii("started"@) || text == ascii("STARTED"@) {
        Some(Event::Started)
    } else if text == ascii("Stopped"@) || text == ascii("stopped"@) || text == ascii("STOPPED"@) {
        Some(Event::Stopped)
    } else if text == ascii("Completed"@) || text == ascii("completed"@) || text == ascii(
        "COMPLETED"@,
    ) {
        Some(Event::Completed)
    } else {
        None
    }
}

/// Reads an event from its name.
pub fn parse_event(text: &[u8]) -> (r: Result<Event, EventParseError>)
    ensures
        match event_named(text@) {
            Some(e) => r == Ok::<Event, EventParseError>(e),
            None => r is Err && r->Err_0.0@ == text@,
        },
{
    proof {
        reveal_strlit("Started");
        reveal_strlit("started");
        reveal_strlit("STARTED");
        reveal_strlit("Stopped");
        reveal_strlit("stopped");
        reveal_strlit("STOPPED");
        reveal_strlit("Completed");
        reveal_strlit("completed");
        reveal_strlit("COMPLETED");
    }
    if bytes_equal(text, literal("Started")) || bytes_equal(text, literal("started"))
        || bytes_equal(text, literal("STARTED")) {
        Ok(Event::Started)
    } else if bytes_equal(text, literal("Stopped")) || bytes_equal(text, literal("stopped"))
        || bytes_equal(text, literal("STOPPED")) {
        Ok(Event::Stopped)
    } else if bytes_equal(text, literal("Completed")) || bytes_equal(text, literal("completed"))
        || bytes_equal(text, literal("COMPLETED")) {
        Ok(Event::Completed)
    } else {
        Err(EventParseError(copy_bytes(text)))
    }
}

/// The name of an event, in lower case.
pub open spec fn event_name(e: Event) -> Seq<char> {
    match e {
        Event::Started => "started"@,
        Event::Stopped => "stopped"@,
        Event::Completed => "completed"@,
        Event::Empty => Seq::empty(),
    }
}

impl Event {
    /// The name of the event, in lower case. The empty event has no name.
    pub fn name(&self) -> (n: &'static str)
        requires
            !(self is Empty),
        ensures
            n@ == event_name(*self),
    {
        match self {
            Event::Completed => "completed",
            Event::Started => "started",
            Event::Stopped => "stopped",
            Event::Empty => "",
        }
    }
}

impl EventParseError {
    /// The message that reports the error.
    pub fn message(&self) -> (m: Vec<u8>)
        ensures
            m@ == ascii("Could not parse event: "@) + self.0@,
    {
        proof {
            reveal_strlit("Could not parse event: ");
        }
        let mut m = copy_bytes(literal("Could not parse event: "));
        m.extend_from_slice(self.0.as_slice());
        m
    }
}

} // verus!
