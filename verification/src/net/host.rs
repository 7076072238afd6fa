//! What passes between a connection and the host side that serves it.
//!
//! The host side of a connection works on its own: it takes the guest's payload bytes from
//! one bounded queue and hands events back over another. A full queue towards the host
//! holds the segment back, and the guest retransmits; a full queue from the host stops the
//! host side from reading its socket.

use vstd::prelude::*;

verus! {

/// The length of each of the two queues.
pub const QUEUE_LENGTH: usize = 32;

/// Events that the host side hands back.
#[derive(Debug)]
pub enum HostEvent {
    Connected,
    ConnectFailed(String),
    Data(Vec<u8>),
    Eof,
}

/// The mathematical reading of an event.
pub enum EventView {
    Connected,
    ConnectFailed(Seq<char>),
    Data(Seq<u8>),
    Eof,
}

impl View for HostEvent {
    type V = EventView;

    open spec fn view(&self) -> EventView {
        match *self {
            HostEvent::Connected => EventView::Connected,
            HostEvent::ConnectFailed(message) => EventView::ConnectFailed(message@),
            HostEvent::Data(bytes) => EventView::Data(bytes@),
            HostEvent::Eof => EventView::Eof,
        }
    }
}

} // verus!
