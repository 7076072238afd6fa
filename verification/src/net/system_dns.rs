//! Bounded system-resolver fallback for hosts that expose no nameserver.
//!
//! Workers of the host look names up; nothing waits for them. Every lookup has an id that
//! is never used again, so that a result from before a reset answers nothing.

use std::collections::VecDeque;

use vstd::prelude::*;

use crate::net::dns_question::{question_in, Question, QuestionView, KIND_A, KIND_AAAA};
use crate::net::tcp_conn::{delay, later};
use crate::net::udp::HostAddress;

verus! {

/// How many questions, and how many results, may wait.
pub const CAPACITY: usize = 64;

/// How long, in milliseconds, a lookup may take.
pub const TIMEOUT: u64 = 30_000;

/// What a worker found.
#[derive(Debug)]
pub struct Resolved {
    pub id: u64,
    /// The addresses, unless the lookup failed.
    pub addresses: Result<Vec<HostAddress>, ()>,
}

pub struct ResolvedView {
    pub id: u64,
    pub addresses: Option<Seq<HostAddress>>,
}

impl View for Resolved {
    type V = ResolvedView;

    open spec fn view(&self) -> ResolvedView {
        ResolvedView {
            id: self.id,
            addresses: match self.addresses {
                Ok(addresses) => Some(addresses@),
                Err(_) => None,
            },
        }
    }
}

/// A question that waits for its result.
#[derive(Debug)]
pub struct Pending {
    pub id: u64,
    pub port: u16,
    pub question: Question,
    /// When it is given up, in milliseconds.
    pub deadline: u64,
}

pub struct PendingView {
    pub id: u64,
    pub port: u16,
    pub question: QuestionView,
    pub deadline: u64,
}

impl View for Pending {
    type V = PendingView;

    open spec fn view(&self) -> PendingView {
        PendingView { id: self.id, port: self.port, question: self.question@, deadline: self.deadline }
    }
}

/// What becomes of a question.
#[derive(Debug)]
pub enum Submission {
    /// It cannot be served.
    Refused,
    /// It will be answered without a lookup.
    Queued,
    /// A worker is to look the name up before the deadline; `withdraw` tells that none
    /// could take it.
    Lookup { id: u64, name: Vec<u8>, deadline: u64 },
}

pub enum SubmissionView {
    Refused,
    Queued,
    Lookup { id: u64, name: Seq<u8>, deadline: u64 },
}

impl View for Submission {
    type V = SubmissionView;

    open spec fn view(&self) -> SubmissionView {
        match *self {
            Submission::Refused => SubmissionView::Refused,
            Submission::Queued => SubmissionView::Queued,
            Submission::Lookup { id, name, deadline } => SubmissionView::Lookup { id, name: name@, deadline },
        }
    }
}

/// The questions and results that wait.
#[derive(Debug)]
pub struct SystemDns {
    pub pending: Vec<Pending>,
    pub results: VecDeque<Resolved>,
    pub next_id: u64,
}

pub struct DnsView {
    pub pending: Seq<PendingView>,
    pub results: Seq<ResolvedView>,
    pub next_id: u64,
}

#[verifier::opaque]
pub open spec fn questions(pending: Seq<Pending>) -> Seq<PendingView> {
    pending.map_values(|question: Pending| question@)
}

#[verifier::opaque]
pub open spec fn findings(results: Seq<Resolved>) -> Seq<ResolvedView> {
    results.map_values(|result: Resolved| result@)
}

impl View for SystemDns {
    type V = DnsView;

    open spec fn view(&self) -> DnsView {
        DnsView { pending: questions(self.pending@), results: findings(self.results@), next_id: self.next_id }
    }
}

proof fn lemma_questions(pending: Seq<Pending>)
    ensures
        questions(pending).len() == pending.len(),
        forall|i: int| 0 <= i < pending.len() ==> #[trigger] questions(pending)[i] == pending[i]@,
        forall|question: Pending| #[trigger]
            questions(pending.push(question)) == questions(pending).push(question@),
        forall|index: int|
            0 <= index < pending.len() ==> #[trigger] questions(pending.remove(index)) == questions(pending).remove(index),
{
    reveal(questions);
    assert forall|question: Pending| #[trigger]
        questions(pending.push(question)) == questions(pending).push(question@) by {
        assert(questions(pending.push(question)) =~= questions(pending).push(question@));
    }
    assert forall|index: int| 0 <= index < pending.len() implies #[trigger] questions(pending.remove(index)) == questions(
        pending,
    ).remove(index) by {
        assert(questions(pending.remove(index)) =~= questions(pending).remove(index));
    }
}

proof fn lemma_findings(results: Seq<Resolved>)
    ensures
        findings(results).len() == results.len(),
        results.len() > 0 ==> findings(results)[0] == results[0]@,
        results.len() > 0 ==> findings(results.skip(1)) == findings(results).skip(1),
        forall|result: Resolved| #[trigger] findings(results.push(result)) == findings(results).push(result@),
{
    reveal(findings);
    assert(results.len() > 0 ==> findings(results.skip(1)) =~= findings(results).skip(1));
    assert forall|result: Resolved| #[trigger] findings(results.push(result)) == findings(results).push(result@) by {
        assert(findings(results.push(result)) =~= findings(results).push(result@));
    }
}

/// Where the question of an id stands, from `from` on.
pub open spec fn question_at(pending: Seq<PendingView>, id: u64, from: int) -> Option<int>
    decreases pending.len() - from,
{
    if from < 0 || from >= pending.len() {
        None
    } else if pending[from].id == id {
        Some(from)
    } else {
        question_at(pending, id, from + 1)
    }
}

proof fn lemma_question_at(pending: Seq<PendingView>, id: u64, from: int)
    requires
        0 <= from,
    ensures
        match question_at(pending, id, from) {
            Some(index) => from <= index < pending.len() && pending[index].id == id,
            None => forall|i: int| from <= i < pending.len() ==> (#[trigger] pending[i]).id != id,
        },
    decreases pending.len() - from,
{
    if from < pending.len() && pending[from].id != id {
        lemma_question_at(pending, id, from + 1);
    }
}

impl DnsView {
    /// No more questions than allowed, each with an id that has been given out once, and
    /// no more results than allowed.
    pub open spec fn wf(self) -> bool {
        &&& self.pending.len() <= CAPACITY
        &&& self.results.len() <= CAPACITY
        &&& forall|i: int, j: int|
            0 <= i < j < self.pending.len() ==> (#[trigger] self.pending[i]).id != (#[trigger] self.pending[j]).id
        &&& forall|i: int|
            0 <= i < self.pending.len() ==> (#[trigger] self.pending[i]).id < self.next_id
                && self.pending[i].question.wf()
    }

    pub open spec fn without(self, index: int) -> DnsView {
        DnsView { pending: self.pending.remove(index), ..self }
    }

    /// After a question of the guest. It is refused if it is malformed, too many wait, the
    /// ids have run out, or, for a kind that needs no lookup, too many results wait.
    pub open spec fn submitted(self, packet: Seq<u8>, port: u16, now: u64) -> (DnsView, SubmissionView) {
        match question_in(packet) {
            None => (self, SubmissionView::Refused),
            Some(question) => if self.pending.len() >= CAPACITY || self.next_id == u64::MAX {
                (self, SubmissionView::Refused)
            } else {
                let id = self.next_id;
                let deadline = later(now, TIMEOUT);
                let taken = DnsView {
                    pending: self.pending.push(PendingView { id, port, question, deadline }),
                    next_id: (id + 1) as u64,
                    ..self
                };
                if question.kind == KIND_A || question.kind == KIND_AAAA {
                    (taken, SubmissionView::Lookup { id, name: question.name, deadline })
                } else if self.results.len() >= CAPACITY {
                    (DnsView { next_id: (id + 1) as u64, ..self }, SubmissionView::Refused)
                } else {
                    (
                        DnsView {
                            results: self.results.push(ResolvedView { id, addresses: None }),
                            ..taken
                        },
                        SubmissionView::Queued,
                    )
                }
            },
        }
    }
}

/// The resolver together with the answers that a poll gives.
pub struct Poll {
    pub dns: DnsView,
    /// For each answer the guest's port and the packet.
    pub answers: Seq<(u16, Seq<u8>)>,
}

/// The readings of answers.
#[verifier::opaque]
pub open spec fn packets(answers: Seq<(u16, Vec<u8>)>) -> Seq<(u16, Seq<u8>)> {
    answers.map_values(|answer: (u16, Vec<u8>)| (answer.0, answer.1@))
}

proof fn lemma_packets(answers: Seq<(u16, Vec<u8>)>)
    ensures
        packets(answers).len() == answers.len(),
        forall|answer: (u16, Vec<u8>)| #[trigger]
            packets(answers.push(answer)) == packets(answers).push((answer.0, answer.1@)),
{
    reveal(packets);
    assert forall|answer: (u16, Vec<u8>)| #[trigger]
        packets(answers.push(answer)) == packets(answers).push((answer.0, answer.1@)) by {
        assert(packets(answers.push(answer)) =~= packets(answers).push((answer.0, answer.1@)));
    }
}

impl Poll {
    /// After the first of the results that wait: if its question waits too, it is answered,
    /// past its deadline as a failure.
    pub open spec fn after_result(self, now: u64) -> Poll {
        let result = self.dns.results[0];
        let rest = DnsView { results: self.dns.results.skip(1), ..self.dns };
        match question_at(self.dns.pending, result.id, 0) {
            None => Poll { dns: rest, ..self },
            Some(index) => {
                let asked = self.dns.pending[index];
                Poll {
                    dns: rest.without(index),
                    answers: self.answers.push(
                        (asked.port, asked.question.answer(if now < asked.deadline { result.addresses } else { None })),
                    ),
                }
            },
        }
    }

    /// After all results that wait.
    #[verifier::opaque]
    pub open spec fn after_results(self, now: u64) -> Poll
        decreases self.dns.results.len(),
    {
        if self.dns.results.len() > 0 {
            self.after_result(now).after_results(now)
        } else {
            self
        }
    }

    /// After the questions from `from` on whose deadline has passed have been answered as
    /// failures.
    #[verifier::opaque]
    pub open spec fn expired(self, from: int, now: u64) -> Poll
        decreases self.dns.pending.len() - from,
    {
        if 0 <= from < self.dns.pending.len() {
            let asked = self.dns.pending[from];
            if now < asked.deadline {
                self.expired(from + 1, now)
            } else {
                Poll {
                    dns: self.dns.without(from),
                    answers: self.answers.push((asked.port, asked.question.answer(None))),
                }.expired(from, now)
            }
        } else {
            self
        }
    }
}

impl DnsView {
    /// After a poll.
    pub open spec fn polled(self, now: u64) -> Poll {
        Poll { dns: self, answers: Seq::empty() }.after_results(now).expired(0, now)
    }
}

proof fn lemma_without(dns: DnsView, index: int)
    requires
        dns.wf(),
        0 <= index < dns.pending.len(),
    ensures
        dns.without(index).wf(),
{
    let left = dns.pending.remove(index);
    assert forall|i: int, j: int| 0 <= i < j < left.len() implies (#[trigger] left[i]).id != (#[trigger] left[j]).id by {
        let before_i = if i < index { i } else { i + 1 };
        let before_j = if j < index { j } else { j + 1 };
        assert(left[i] == dns.pending[before_i]);
        assert(left[j] == dns.pending[before_j]);
    }
    assert forall|i: int| 0 <= i < left.len() implies (#[trigger] left[i]).id < dns.next_id && left[i].question.wf() by {
        let before_i = if i < index { i } else { i + 1 };
        assert(left[i] == dns.pending[before_i]);
    }
}

/// A result whose question does not wait answers nothing: in particular none from before a
/// reset, whose ids are never given out again.
pub proof fn late_results_answer_nothing(here: Poll, now: u64)
    requires
        here.dns.results.len() > 0,
        forall|i: int| 0 <= i < here.dns.pending.len() ==> (#[trigger] here.dns.pending[i]).id != here.dns.results[0].id,
    ensures
        here.after_result(now).answers == here.answers,
        here.after_result(now).dns.pending == here.dns.pending,
{
    lemma_question_at(here.dns.pending, here.dns.results[0].id, 0);
}

/// A question gets an id that none before it had.
pub proof fn new_questions_have_new_ids(dns: DnsView, packet: Seq<u8>, port: u16, now: u64)
    requires
        dns.wf(),
    ensures
        dns.submitted(packet, port, now).0.next_id >= dns.next_id,
        dns.submitted(packet, port, now).1 !is Refused ==> ({
            let pending = dns.submitted(packet, port, now).0.pending;
            &&& pending.len() == dns.pending.len() + 1
            &&& pending.last().id == dns.next_id
            &&& forall|i: int| 0 <= i < dns.pending.len() ==> (#[trigger] dns.pending[i]).id < pending.last().id
        }),
{
}

impl SystemDns {
    pub fn new() -> (dns: SystemDns)
        ensures
            dns@ == (DnsView { pending: Seq::empty(), results: Seq::empty(), next_id: 0 }),
            dns@.wf(),
    {
        let dns = SystemDns { pending: Vec::new(), results: VecDeque::new(), next_id: 0 };
        proof {
            lemma_questions(dns.pending@);
            lemma_findings(dns.results@);
            assert(dns@.pending =~= Seq::empty());
            assert(dns@.results =~= Seq::empty());
        }
        dns
    }

    fn find(&self, id: u64) -> (found: Option<usize>)
        ensures
            found is Some == question_at(self@.pending, id, 0) is Some,
            found matches Some(index) ==> question_at(self@.pending, id, 0) == Some(index as int) && index
                < self.pending@.len(),
    {
        let count = self.pending.len();
        proof {
            lemma_questions(self.pending@);
        }
        let mut index: usize = 0;
        while index < count
            invariant
                index <= count,
                count == self.pending@.len(),
                count == self@.pending.len(),
                forall|i: int| 0 <= i < count ==> #[trigger] self@.pending[i] == self.pending@[i]@,
                question_at(self@.pending, id, 0) == question_at(self@.pending, id, index as int),
            decreases count - index,
        {
            assert(self@.pending[index as int] == self.pending@[index as int]@);
            if self.pending[index].id == id {
                return Some(index);
            }
            index = index + 1;
        }
        None
    }

    /// Takes a question of the guest.
    pub fn submit(&mut self, packet: &[u8], port: u16, now: u64) -> (submission: Submission)
        requires
            old(self)@.wf(),
        ensures
            (final(self)@, submission@) == old(self)@.submitted(packet@, port, now),
            final(self)@.wf(),
    {
        proof {
            lemma_questions(self.pending@);
            lemma_findings(self.results@);
        }
        let question = match Question::parse(packet) {
            Some(question) => question,
            None => {
                return Submission::Refused;
            },
        };
        if self.pending.len() >= CAPACITY || self.next_id == u64::MAX {
            return Submission::Refused;
        }
        let id = self.next_id;
        let deadline = delay(now, TIMEOUT);
        let lookup = question.kind == KIND_A || question.kind == KIND_AAAA;
        if !lookup && self.results.len() >= CAPACITY {
            self.next_id = id + 1;
            return Submission::Refused;
        }
        let mut name: Vec<u8> = Vec::new();
        name.extend_from_slice(question.name.as_slice());
        assert(name@ =~= question.name@);
        self.next_id = id + 1;
        self.pending.push(Pending { id, port, question, deadline });
        if lookup {
            Submission::Lookup { id, name, deadline }
        } else {
            self.results.push_back(Resolved { id, addresses: Err(()) });
            Submission::Queued
        }
    }

    /// Takes back a question that no worker could take.
    pub fn withdraw(&mut self, id: u64)
        requires
            old(self)@.wf(),
        ensures
            final(self)@ == (match question_at(old(self)@.pending, id, 0) {
                Some(index) => old(self)@.without(index),
                None => old(self)@,
            }),
            final(self)@.wf(),
    {
        if let Some(index) = self.find(id) {
            proof {
                lemma_questions(self.pending@);
                lemma_without(self@, index as int);
            }
            let _ = self.pending.remove(index);
        }
    }

    /// Takes a worker's result; one past the capacity is lost.
    pub fn deliver(&mut self, result: Resolved)
        requires
            old(self)@.wf(),
        ensures
            final(self)@ == (if old(self)@.results.len() < CAPACITY {
                (DnsView { results: old(self)@.results.push(result@), ..old(self)@ })
            } else {
                old(self)@
            }),
            final(self)@.wf(),
    {
        proof {
            lemma_findings(self.results@);
        }
        if self.results.len() < CAPACITY {
            self.results.push_back(result);
        }
    }

    /// Takes the first of the results that wait.
    fn take_result(&mut self, now: u64, answers: &mut Vec<(u16, Vec<u8>)>) -> (more: bool)
        requires
            old(self)@.wf(),
        ensures
            more == (old(self)@.results.len() > 0),
            !more ==> final(self)@ == old(self)@ && final(answers)@ == old(answers)@,
            more ==> (Poll { dns: final(self)@, answers: packets(final(answers)@) }) == (Poll {
                dns: old(self)@,
                answers: packets(old(answers)@),
            }).after_result(now),
            more ==> final(self)@.results.len() == old(self)@.results.len() - 1,
            final(self)@.wf(),
    {
        let ghost queue = self.results@;
        proof {
            lemma_findings(queue);
        }
        match self.results.pop_front() {
            None => false,
            Some(result) => {
                assert(self.results@ =~= queue.skip(1));
                if let Some(index) = self.find(result.id) {
                    proof {
                        lemma_questions(self.pending@);
                        lemma_without(self@, index as int);
                        assert(self@.pending[index as int] == self.pending@[index as int]@);
                        assert(self@.pending[index as int].question.wf());
                    }
                    let asked = self.pending.remove(index);
                    let mut found: Result<&[HostAddress], ()> = Err(());
                    if now < asked.deadline {
                        if let Ok(addresses) = &result.addresses {
                            found = Ok(addresses.as_slice());
                        }
                    }
                    proof {
                        lemma_packets(answers@);
                    }
                    answers.push((asked.port, asked.question.answer(found)));
                }
                true
            },
        }
    }

    /// Answers the questions whose deadline has passed.
    fn expire(&mut self, now: u64, answers: &mut Vec<(u16, Vec<u8>)>)
        requires
            old(self)@.wf(),
        ensures
            (Poll { dns: final(self)@, answers: packets(final(answers)@) }) == (Poll {
                dns: old(self)@,
                answers: packets(old(answers)@),
            }).expired(0, now),
            final(self)@.wf(),
    {
        let ghost start = Poll { dns: self@, answers: packets(answers@) };
        let mut index: usize = 0;
        proof {
            lemma_questions(self.pending@);
        }
        while index < self.pending.len()
            invariant
                self@.wf(),
                index <= self@.pending.len(),
                self@.pending.len() == self.pending@.len(),
                (Poll { dns: self@, answers: packets(answers@) }).expired(index as int, now) == start.expired(0, now),
            decreases self.pending@.len() - index,
        {
            reveal(Poll::expired);
            proof {
                lemma_questions(self.pending@);
                assert(self@.pending[index as int] == self.pending@[index as int]@);
                assert(self@.pending[index as int].question.wf());
            }
            if now < self.pending[index].deadline {
                index = index + 1;
            } else {
                proof {
                    lemma_without(self@, index as int);
                    lemma_packets(answers@);
                }
                let asked = self.pending.remove(index);
                answers.push((asked.port, asked.question.answer(Err(()))));
            }
        }
        reveal(Poll::expired);
    }

    /// Answers the questions whose results have come, and as failures those whose deadline
    /// has passed: for each the guest's port and the packet.
    pub fn poll(&mut self, now: u64) -> (answers: Vec<(u16, Vec<u8>)>)
        requires
            old(self)@.wf(),
        ensures
            (Poll { dns: final(self)@, answers: packets(answers@) }) == old(self)@.polled(now),
            final(self)@.wf(),
    {
        let mut answers: Vec<(u16, Vec<u8>)> = Vec::new();
        proof {
            lemma_packets(answers@);
            assert(packets(answers@) =~= Seq::empty());
        }
        let ghost start = Poll { dns: self@, answers: packets(answers@) };
        loop
            invariant
                self@.wf(),
                (Poll { dns: self@, answers: packets(answers@) }).after_results(now) == start.after_results(now),
            ensures
                self@.wf(),
                (Poll { dns: self@, answers: packets(answers@) }) == start.after_results(now),
            decreases self@.results.len(),
        {
            reveal(Poll::after_results);
            if !self.take_result(now, &mut answers) {
                break;
            }
        }
        self.expire(now, &mut answers);
        answers
    }

    /// Forgets every question and result. Ids go on: a worker from before may still finish.
    pub fn reset(&mut self)
        requires
            old(self)@.wf(),
        ensures
            final(self)@ == (DnsView { pending: Seq::empty(), results: Seq::empty(), next_id: old(self)@.next_id }),
            final(self)@.wf(),
    {
        self.pending.clear();
        self.results.clear();
        proof {
            lemma_questions(self.pending@);
            lemma_findings(self.results@);
            assert(self@.pending =~= Seq::empty());
            assert(self@.results =~= Seq::empty());
        }
    }
}

} // verus!
