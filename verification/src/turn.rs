//! Whose turn it is: the request that the worker is about, and its answer.

use crossbeam_channel::Sender;
use vstd::prelude::*;

use crate::request::{Message, Reply, Request};

verus! {

/// What happens to requests.
pub enum Step {
    /// The worker took one.
    Taken(Message),
    /// The worker answered, to whoever waits, if anybody does.
    Answered(Option<Sender<Reply>>, Reply),
}

/// Whether the second of two steps answers the request taken in the first: it
/// goes where that request said, and to be noticed is never refused.
pub open spec fn is_answer(first: Step, second: Step) -> bool {
    match (first, second) {
        (Step::Taken(message), Step::Answered(asker, reply)) => {
            &&& asker == message.1
            &&& message.0 is Bump ==> reply is Ok
        },
        _ => false,
    }
}

/// Whether a step is one that can follow those before it.
pub open spec fn is_in_turn(log: Seq<Step>, i: int) -> bool {
    if i % 2 == 0 {
        log[i] is Taken
    } else {
        is_answer(log[i - 1], log[i])
    }
}

/// The request that the worker is about, if it is about one.
pub struct Turn {
    /// Whether the request is to notice something, and who waits for the answer.
    current: Option<(bool, Option<Sender<Reply>>)>,
    /// All that happened so far.
    log: Ghost<Seq<Step>>,
}

impl Turn {
    /// All that happened so far.
    pub closed spec fn log(self) -> Seq<Step> {
        self.log@
    }

    /// Whether the worker is about no request.
    pub closed spec fn is_free(self) -> bool {
        self.current is None
    }

    /// What every operation keeps: requests and answers take turns.
    pub closed spec fn wf(self) -> bool {
        &&& forall|i: int| 0 <= i < self.log@.len() ==> #[trigger] is_in_turn(self.log@, i)
        &&& match self.current {
            None => self.log@.len() % 2 == 0,
            Some((is_bump, asker)) => {
                &&& self.log@.len() % 2 == 1
                &&& self.log@.last() matches Step::Taken(message)
                &&& is_bump == (message.0 is Bump)
                &&& asker == message.1
            },
        }
    }

    /// The request that the worker is about.
    pub open spec fn message(self) -> Message
        recommends
            !self.is_free(),
    {
        self.log().last()->Taken_0
    }

    /// Whether an answer is one that the worker may give.
    pub open spec fn allows(self, reply: Reply) -> bool {
        !self.is_free() && self.message().0 is Bump ==> reply is Ok
    }

    /// Nothing happened yet.
    pub fn new() -> (turn: Turn)
        ensures
            turn.wf(),
            turn.is_free(),
            turn.log() == Seq::<Step>::empty(),
    {
        Turn { current: None, log: Ghost(Seq::empty()) }
    }

    /// Whether a request can be taken: the worker is about none.
    pub fn can_take(&self) -> (yes: bool)
        ensures
            yes == self.is_free(),
    {
        self.current.is_none()
    }

    /// Takes a request. Whoever waits for the answer is kept in mind.
    pub fn take(&mut self, message: Message) -> (request: Request)
        requires
            old(self).wf(),
            old(self).is_free(),
        ensures
            final(self).wf(),
            !final(self).is_free(),
            final(self).log() == old(self).log().push(Step::Taken(message)),
            final(self).message() == message,
            request == message.0,
    {
        let ghost whole = message;
        let ghost before = self.log@;
        let (request, asker) = message;
        let is_bump = match &request {
            Request::Bump => true,
            _ => false,
        };
        self.current = Some((is_bump, asker));
        self.log = Ghost(before.push(Step::Taken(whole)));
        proof {
            assert forall|i: int| 0 <= i < self.log@.len() implies #[trigger] is_in_turn(
                self.log@,
                i,
            ) by {
                if i < before.len() {
                    assert(is_in_turn(before, i));
                }
            }
        }
        request
    }

    /// Whether an answer is one that the worker may give.
    pub fn accepts(&self, reply: &Reply) -> (yes: bool)
        requires
            self.wf(),
        ensures
            yes == self.allows(*reply),
    {
        match &self.current {
            Some((true, _)) => reply.is_ok(),
            _ => true,
        }
    }

    /// Answers the request that the worker is about, if it is about one. Returns
    /// the answer with the way that it is to be sent, if anybody waits for it.
    pub fn settle(&mut self, reply: Reply) -> (answer: Option<(Sender<Reply>, Reply)>)
        requires
            old(self).wf(),
            old(self).allows(reply),
        ensures
            final(self).wf(),
            final(self).is_free(),
            if old(self).is_free() {
                &&& answer is None
                &&& final(self).log() == old(self).log()
            } else {
                let asker = old(self).message().1;
                &&& final(self).log() == old(self).log().push(Step::Answered(asker, reply))
                &&& answer is Some <==> asker is Some
                &&& answer matches Some((tx, said)) ==> asker == Some(tx) && said == reply
            },
    {
        let ghost before = self.log@;
        match self.current.take() {
            None => None,
            Some((_, asker)) => {
                self.log = Ghost(before.push(Step::Answered(asker, reply)));
                proof {
                    assert forall|i: int| 0 <= i < self.log@.len() implies #[trigger] is_in_turn(
                        self.log@,
                        i,
                    ) by {
                        if i < before.len() {
                            assert(is_in_turn(before, i));
                        }
                    }
                }
                match asker {
                    Some(tx) => Some((tx, reply)),
                    None => None,
                }
            },
        }
    }
}

/// A request is answered exactly once before the next one is taken.
pub proof fn law_requests_take_turns(turn: Turn, i: int, j: int)
    requires
        turn.wf(),
        0 <= i < j < turn.log().len(),
        turn.log()[i] is Taken,
        turn.log()[j] is Taken,
        forall|m: int| i < m < j ==> !(#[trigger] turn.log()[m] is Taken),
    ensures
        j == i + 2,
        is_answer(turn.log()[i], turn.log()[i + 1]),
{
    assert(is_in_turn(turn.log(), i));
    assert(is_in_turn(turn.log(), i + 1));
    if i + 2 < turn.log().len() {
        assert(is_in_turn(turn.log(), i + 2));
    }
    assert(i + 2 < j ==> turn.log()[i + 2] is Taken);
}

/// A worker that is about no request has answered all that it took. One that is
/// about a request has answered all before it.
pub proof fn law_nothing_stays_unanswered(turn: Turn, i: int)
    requires
        turn.wf(),
        0 <= i < turn.log().len(),
        turn.log()[i] is Taken,
    ensures
        if !turn.is_free() && i == turn.log().len() - 1 {
            turn.log()[i] == Step::Taken(turn.message())
        } else {
            i + 1 < turn.log().len() && is_answer(turn.log()[i], turn.log()[i + 1])
        },
{
    assert(is_in_turn(turn.log(), i));
    if i + 1 < turn.log().len() {
        assert(is_in_turn(turn.log(), i + 1));
    }
}

/// Whoever waits for an answer is the one who gets it; and only who asks to have
/// something noticed is never refused: any other request may be answered by
/// anything.
pub proof fn law_answers_go_to_askers(
    turn: Turn,
    message: Message,
    asker: Option<Sender<Reply>>,
    reply: Reply,
)
    requires
        turn.wf(),
    ensures
        is_answer(Step::Taken(message), Step::Answered(asker, reply)) <==> asker == message.1 && (
        message.0 is Bump ==> reply is Ok),
        turn.is_free() ==> turn.allows(reply),
        !turn.is_free() ==> {
            &&& turn.log().len() > 0
            &&& turn.log().last() == Step::Taken(turn.message())
            &&& turn.allows(reply) <==> !(turn.message().0 is Bump) || reply is Ok
        },
{
}

/// Requests and answers take turns: what happens first, third and so on is that a
/// request is taken, and what happens next is that it is answered.
pub proof fn law_steps_alternate(turn: Turn, i: int)
    requires
        turn.wf(),
        0 <= i < turn.log().len(),
    ensures
        i % 2 == 0 <==> turn.log()[i] is Taken,
        turn.is_free() <==> turn.log().len() % 2 == 0,
        turn.log()[i] matches Step::Answered(asker, reply) ==> i > 0 && (turn.log()[i
            - 1] matches Step::Taken(message) && asker == message.1 && (message.0 is Bump
            ==> reply is Ok)),
{
    assert(is_in_turn(turn.log(), i));
}

} // verus!
