//! What the kernel's side asks the worker to do, and the channel it asks through.
//!
//! Asking never blocks. Waiting for an answer does, so that is left to the
//! caller.

use crossbeam_channel::{Receiver, Sender};
use vstd::prelude::*;

use crate::errno::Errno;

verus! {

/// Something for the worker to do.
#[derive(Debug)]
pub enum Request {
    /// Perform a metadata lookup on the given fake path.
    Lookup(Vec<u8>),
    /// Perform a readdir on the given fake inode.
    Readdir(u64),
    /// Notice that a file needs servicing.
    Bump,
}

/// What the worker answers.
pub type Reply = Result<(), Errno>;

/// A request, and where the answer goes if somebody waits for it.
pub type Message = (Request, Option<Sender<Reply>>);

/// The sending half of a `crossbeam_channel` channel.
#[verifier::external_type_specification]
#[verifier::external_body]
#[verifier::reject_recursive_types(T)]
pub struct ExSender<T>(crossbeam_channel::Sender<T>);

/// The receiving half of a `crossbeam_channel` channel.
#[verifier::external_type_specification]
#[verifier::external_body]
#[verifier::reject_recursive_types(T)]
pub struct ExReceiver<T>(crossbeam_channel::Receiver<T>);

/// The messages that a sending half has put into its channel, oldest first.
pub uninterp spec fn sent_through(tx: Sender<Message>) -> Seq<Message>;

/// Whether a sending half is one of a channel that holds any number of messages,
/// so that sending never waits for room.
pub uninterp spec fn never_full(tx: Sender<Message>) -> bool;

/// Whether what goes into a sending half comes out of a receiving half.
pub uninterp spec fn leads_to(tx: Sender<Message>, rx: Receiver<Message>) -> bool;

/// Calls `crossbeam_channel::unbounded`. The two halves belong to one channel,
/// which holds any number of messages. Nothing was sent yet.
#[verifier::external_body]
fn unbounded_channel() -> (halves: (Sender<Message>, Receiver<Message>))
    ensures
        sent_through(halves.0) == Seq::<Message>::empty(),
        never_full(halves.0),
        leads_to(halves.0, halves.1),
{
    crossbeam_channel::unbounded()
}

/// Whether two halves belong to one channel, so that what goes into the first
/// comes out of the second.
pub uninterp spec fn is_channel(tx: Sender<Reply>, rx: Receiver<Reply>) -> bool;

/// Calls `crossbeam_channel::bounded`. The two halves belong to one channel. The
/// function panics on some large capacities; at zero it does not, and an answer
/// is then handed over directly.
#[verifier::external_body]
fn bounded_channel(capacity: usize) -> (halves: (Sender<Reply>, Receiver<Reply>))
    requires
        capacity == 0,
    ensures
        is_channel(halves.0, halves.1),
{
    crossbeam_channel::bounded(capacity)
}

/// Calls `crossbeam_channel::Sender::send`, which waits for room where there may
/// be none. It puts the message into the channel, or gives that very message back
/// and puts nothing in. The latter happens only when all receiving halves are
/// gone: not while the caller has one of them at hand and lends it as `held`.
/// Otherwise it is up to whoever holds them, and is not said here. The channel
/// stays the one that it was.
#[verifier::external_body]
fn send_message(
    tx: &mut Sender<Message>,
    held: Option<&Receiver<Message>>,
    message: Message,
) -> (sent: Result<(), Message>)
    requires
        never_full(*old(tx)),
    ensures
        never_full(*final(tx)),
        forall|rx: Receiver<Message>|
            #[trigger] leads_to(*final(tx), rx) == leads_to(*old(tx), rx),
        held matches Some(rx) ==> leads_to(*old(tx), *rx) ==> sent is Ok,
        match sent {
            Ok(_) => sent_through(*final(tx)) == sent_through(*old(tx)).push(message),
            Err(back) => back == message && sent_through(*final(tx)) == sent_through(*old(tx)),
        },
{
    tx.send(message).map_err(|refused| refused.0)
}

/// A channel for requests, which holds any number of them.
pub fn request_channel() -> (halves: (Sender<Message>, Receiver<Message>))
    ensures
        sent_through(halves.0) == Seq::<Message>::empty(),
        never_full(halves.0),
        leads_to(halves.0, halves.1),
{
    unbounded_channel()
}

/// Whether a sending half leads where it led before, and has as much room.
pub open spec fn is_same_way(before: Sender<Message>, after: Sender<Message>) -> bool {
    &&& never_full(after) == never_full(before)
    &&& forall|rx: Receiver<Message>| #[trigger] leads_to(after, rx) == leads_to(before, rx)
}

impl Request {
    /// Whether this request was sent, after those in `before`, with a way to
    /// answer it that leads to `rx`.
    pub open spec fn was_asked(
        self,
        before: Seq<Message>,
        after: Seq<Message>,
        rx: Receiver<Reply>,
    ) -> bool {
        exists|tx: Sender<Reply>|
            #![trigger is_channel(tx, rx)]
            is_channel(tx, rx) && after == before.push((self, Some(tx)))
    }

    /// Sends a request that nobody waits for. If there is no worker any more, the
    /// request comes back.
    pub fn send_async(self, request_tx: &mut Sender<Message>) -> (sent: Result<(), Request>)
        requires
            never_full(*old(request_tx)),
        ensures
            is_same_way(*old(request_tx), *final(request_tx)),
            match sent {
                Ok(_) => sent_through(*final(request_tx)) == sent_through(*old(request_tx)).push(
                    (self, None),
                ),
                Err(back) => back == self && sent_through(*final(request_tx)) == sent_through(
                    *old(request_tx),
                ),
            },
    {
        match send_message(request_tx, None, (self, None)) {
            Ok(()) => Ok(()),
            Err((request, _)) => Err(request),
        }
    }

    /// Sends a request that nobody waits for, to a worker that is yet to start:
    /// the half that it will receive from is still at hand.
    pub fn send_ahead(self, request_tx: &mut Sender<Message>, rx: &Receiver<Message>)
        requires
            never_full(*old(request_tx)),
            leads_to(*old(request_tx), *rx),
        ensures
            is_same_way(*old(request_tx), *final(request_tx)),
            sent_through(*final(request_tx)) == sent_through(*old(request_tx)).push((self, None)),
    {
        let _ = send_message(request_tx, Some(rx), (self, None));
    }

    /// Sends a request together with a way to answer it. The answer arrives at
    /// the receiver. If there is no worker any more, the request comes back.
    pub fn send_sync(self, request_tx: &mut Sender<Message>) -> (sent: Result<
        Receiver<Reply>,
        Request,
    >)
        requires
            never_full(*old(request_tx)),
        ensures
            is_same_way(*old(request_tx), *final(request_tx)),
            match sent {
                Ok(rx) => self.was_asked(
                    sent_through(*old(request_tx)),
                    sent_through(*final(request_tx)),
                    rx,
                ),
                Err(back) => back == self && sent_through(*final(request_tx)) == sent_through(
                    *old(request_tx),
                ),
            },
    {
        let (tx, rx) = bounded_channel(0);
        let ghost answers = tx;
        match send_message(request_tx, None, (self, Some(tx))) {
            Ok(()) => {
                assert(is_channel(answers, rx));
                Ok(rx)
            },
            Err((request, _)) => Err(request),
        }
    }
}

} // verus!
