//! The decisions of a connection's host side: when to tell that it is connected, what to
//! send again, and when it has ended.
//!
//! Until the first byte of a response a peer that closes is dialed again, and what the
//! guest has sent so far is sent again, so that the guest sees one unbroken connection.

use vstd::prelude::*;

use crate::net::tcp_conn::TCP_PENDING_CAP;

verus! {

/// How often a peer is dialed again.
pub const MAX_REDIALS: u32 = 4;

/// How far a connection's host side has come.
#[derive(Debug)]
pub struct Dial {
    /// Whether the guest has been told of the connection.
    pub announced: bool,
    /// Whether a byte of the response has come.
    pub answered: bool,
    /// How often the peer has been dialed again.
    pub redials: u32,
    /// What the guest has sent before the response.
    pub flight: Vec<u8>,
    /// Whether the flight holds all of that.
    pub whole: bool,
}

pub struct DialView {
    pub announced: bool,
    pub answered: bool,
    pub redials: u32,
    pub flight: Seq<u8>,
    pub whole: bool,
}

impl View for Dial {
    type V = DialView;

    open spec fn view(&self) -> DialView {
        DialView {
            announced: self.announced,
            answered: self.answered,
            redials: self.redials,
            flight: self.flight@,
            whole: self.whole,
        }
    }
}

/// What to do once the peer has closed or cannot be reached.
#[derive(Clone, Copy, PartialEq, Eq, Structural, Debug)]
pub enum Next {
    /// Dial the peer again.
    Redial,
    /// Tell the guest that the connect failed.
    Refuse,
    /// Tell the guest that the peer has closed.
    End,
}

impl DialView {
    /// After data of the guest has been sent. Past the cap the flight is given up, and the
    /// peer is not dialed again.
    pub open spec fn sent(self, data: Seq<u8>) -> DialView {
        if self.answered || !self.whole {
            self
        } else if self.flight.len() + data.len() > TCP_PENDING_CAP {
            DialView { flight: Seq::empty(), whole: false, ..self }
        } else {
            DialView { flight: self.flight + data, ..self }
        }
    }

    /// Whether a peer that closes is dialed again.
    pub open spec fn retries(self) -> bool {
        !self.answered && self.whole && self.redials < MAX_REDIALS
    }

    /// After a byte of the response.
    pub open spec fn received(self) -> DialView {
        DialView { answered: true, flight: Seq::empty(), ..self }
    }
}

/// After a response the peer's close is final, whatever else happens.
pub proof fn no_redial_after_a_response(dial: DialView, data: Seq<u8>)
    ensures
        !dial.received().retries(),
        !dial.received().sent(data).retries(),
{
}

/// What is sent again is what was sent, in order, as long as it stays within the cap.
pub proof fn flights_are_replayed_whole(dial: DialView, first: Seq<u8>, second: Seq<u8>)
    requires
        !dial.answered,
        dial.whole,
        dial.flight.len() == 0,
        first.len() + second.len() <= TCP_PENDING_CAP,
    ensures
        dial.sent(first).sent(second).flight == first + second,
        dial.sent(first).sent(second).whole,
{
    assert(dial.flight + first + second =~= first + second);
}

impl Dial {
    pub fn new() -> (dial: Dial)
        ensures
            dial@ == (DialView {
                announced: false,
                answered: false,
                redials: 0,
                flight: Seq::empty(),
                whole: true,
            }),
    {
        let dial = Dial { announced: false, answered: false, redials: 0, flight: Vec::new(), whole: true };
        assert(dial@.flight =~= Seq::empty());
        dial
    }

    /// Notes that the peer has been reached. The result says whether the guest is to be
    /// told, which it is once.
    pub fn connected(&mut self) -> (announce: bool)
        ensures
            announce == !old(self)@.announced,
            final(self)@ == (DialView { announced: true, ..old(self)@ }),
    {
        let announce = !self.announced;
        self.announced = true;
        announce
    }

    /// What is to be sent to a peer that was dialed again.
    pub fn replay(&self) -> (data: Vec<u8>)
        ensures
            data@ == self@.flight,
    {
        let mut data: Vec<u8> = Vec::new();
        data.extend_from_slice(self.flight.as_slice());
        assert(data@ =~= self.flight@);
        data
    }

    /// Notes that data of the guest has been sent.
    pub fn sent(&mut self, data: &[u8])
        ensures
            final(self)@ == old(self)@.sent(data@),
    {
        if self.answered || !self.whole {
            return;
        }
        if data.len() > TCP_PENDING_CAP || self.flight.len() > TCP_PENDING_CAP - data.len() {
            self.flight.clear();
            assert(self.flight@ =~= Seq::empty());
            self.whole = false;
        } else {
            let ghost before = self.flight@;
            self.flight.extend_from_slice(data);
            assert(self.flight@ =~= before + data@);
        }
    }

    /// Notes that a byte of the response has come.
    pub fn received(&mut self)
        ensures
            final(self)@ == old(self)@.received(),
    {
        self.answered = true;
        self.flight.clear();
        assert(self.flight@ =~= Seq::empty());
    }

    /// What to do with a peer that has closed.
    pub fn closed(&mut self) -> (next: Next)
        ensures
            next == (if old(self)@.retries() {
                Next::Redial
            } else {
                Next::End
            }),
            final(self)@ == (if old(self)@.retries() {
                (DialView { redials: (old(self)@.redials + 1) as u32, ..old(self)@ })
            } else {
                old(self)@
            }),
    {
        if !self.answered && self.whole && self.redials < MAX_REDIALS {
            self.redials = self.redials + 1;
            Next::Redial
        } else {
            Next::End
        }
    }

    /// What to do with a peer that cannot be reached: the guest is told that the connect
    /// failed, or, if it has been told of the connection, that the peer has closed.
    pub fn failed(&self) -> (next: Next)
        ensures
            next == (if self@.announced {
                Next::End
            } else {
                Next::Refuse
            }),
    {
        if self.announced {
            Next::End
        } else {
            Next::Refuse
        }
    }
}

} // verus!
