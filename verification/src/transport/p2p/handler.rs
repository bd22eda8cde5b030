//! Decisions of the protocol handler of a connection with a remote peer on
//! outgoing messages: messages from the behaviour get queued; when none of
//! our outbound substreams is available, one gets requested (one at a time);
//! when one is idle, the oldest queued message gets written to it, and once
//! written the substream carries the next queued message or idles.
//! Substreams are of any type `S`, messages of any type `M`.
use vstd::prelude::*;

verus! {

/// Outbound state of the handler.
pub struct OutboundView<M, S> {
    /// Messages waiting for a substream, oldest first.
    pub send_queue: Seq<M>,
    /// An outbound substream was requested and isn't negotiated yet.
    pub outbound_dialing: bool,
    /// Negotiated substream on which no message is being written.
    pub idle_outbound_stream: Option<S>,
}

/// What the handler does on a poll for its outgoing messages.
#[derive(Debug)]
pub enum OutboundAction<M, S> {
    /// Ask for a new outbound substream.
    RequestSubstream,
    /// Write the message to the substream.
    Send(S, M),
    /// Nothing to do.
    Nothing,
}

/// What happens to a substream on which a message got written.
#[derive(Debug)]
pub enum SentOutcome<M, S> {
    /// Another substream is idle: this one gets closed.
    Close(S),
    /// Write the next queued message to it.
    SendNext(S, M),
    /// No message is queued: it idles.
    Idle,
}

/// Outbound messages and substreams of a connection handler.
pub struct OutboundQueue<M, S> {
    send_queue: Vec<M>,
    outbound_dialing: bool,
    idle_outbound_stream: Option<S>,
}

/// State and action of a poll, given whether messages are being written.
pub open spec fn poll_spec<M, S>(s: OutboundView<M, S>, writing: bool) -> (OutboundView<M, S>, OutboundAction<M, S>) {
    if s.send_queue.len() > 0 && s.idle_outbound_stream is None && !writing && !s.outbound_dialing {
        (OutboundView { outbound_dialing: true, ..s }, OutboundAction::RequestSubstream)
    } else if s.send_queue.len() > 0 && s.idle_outbound_stream is Some {
        (
            OutboundView { send_queue: s.send_queue.drop_first(), idle_outbound_stream: None, ..s },
            OutboundAction::Send(s.idle_outbound_stream->0, s.send_queue[0]),
        )
    } else {
        (s, OutboundAction::Nothing)
    }
}

/// State and outcome once a message got written to a substream that can
/// carry more.
pub open spec fn sent_spec<M, S>(s: OutboundView<M, S>, substream: S) -> (OutboundView<M, S>, SentOutcome<M, S>) {
    if s.idle_outbound_stream is Some {
        (s, SentOutcome::Close(substream))
    } else if s.send_queue.len() > 0 {
        (OutboundView { send_queue: s.send_queue.drop_first(), ..s }, SentOutcome::SendNext(substream, s.send_queue[0]))
    } else {
        (OutboundView { idle_outbound_stream: Some(substream), ..s }, SentOutcome::Idle)
    }
}

impl<M, S> OutboundQueue<M, S> {
    pub closed spec fn view(&self) -> OutboundView<M, S> {
        OutboundView {
            send_queue: self.send_queue@,
            outbound_dialing: self.outbound_dialing,
            idle_outbound_stream: self.idle_outbound_stream,
        }
    }

    /// No message queued, no substream.
    pub fn new() -> (res: Self)
        ensures
            res@.send_queue.len() == 0,
            !res@.outbound_dialing,
            res@.idle_outbound_stream is None,
    {
        OutboundQueue { send_queue: Vec::new(), outbound_dialing: false, idle_outbound_stream: None }
    }

    /// Queues a message from the behaviour.
    pub fn on_behaviour_event(&mut self, message: M)
        ensures
            final(self)@ == (OutboundView { send_queue: old(self)@.send_queue.push(message), ..old(self)@ }),
    {
        self.send_queue.push(message);
    }

    /// The requested substream couldn't be negotiated.
    pub fn on_dial_upgrade_error(&mut self)
        ensures
            final(self)@ == (OutboundView { outbound_dialing: false, ..old(self)@ }),
    {
        self.outbound_dialing = false;
    }

    /// The requested substream got negotiated: it idles until a message gets
    /// written to it.
    pub fn on_fully_negotiated_outbound(&mut self, substream: S)
        ensures
            final(self)@ == (OutboundView { outbound_dialing: false, idle_outbound_stream: Some(substream), ..old(self)@ }),
    {
        self.outbound_dialing = false;
        self.idle_outbound_stream = Some(substream);
    }

    /// Decides, on a poll, whether to request a substream for the queued
    /// messages (when none is idle, none is writing and none is requested
    /// yet), or to write the oldest queued message to the idle substream.
    /// `writing` tells whether messages are being written to substreams.
    pub fn poll_outbound(&mut self, writing: bool) -> (res: OutboundAction<M, S>)
        ensures
            (final(self)@, res) == poll_spec(old(self)@, writing),
    {
        if self.send_queue.len() > 0 && self.idle_outbound_stream.is_none() && !writing && !self.outbound_dialing {
            self.outbound_dialing = true;
            return OutboundAction::RequestSubstream;
        }
        if self.send_queue.len() > 0 && self.idle_outbound_stream.is_some() {
            let ghost q = self.send_queue@;
            let message = self.send_queue.remove(0);
            let mut idle: Option<S> = None;
            std::mem::swap(&mut idle, &mut self.idle_outbound_stream);
            proof {
                assert(self.send_queue@ =~= q.drop_first());
            }
            match idle {
                Some(stream) => {
                    return OutboundAction::Send(stream, message);
                },
                None => {
                    return OutboundAction::Nothing;
                },
            }
        }
        OutboundAction::Nothing
    }

    /// A message got written to the substream, which can carry more: it gets
    /// closed if another one idles, carries the next queued message, or
    /// idles.
    pub fn on_message_sent(&mut self, substream: S) -> (res: SentOutcome<M, S>)
        ensures
            (final(self)@, res) == sent_spec(old(self)@, substream),
    {
        if self.idle_outbound_stream.is_some() {
            return SentOutcome::Close(substream);
        }
        if self.send_queue.len() > 0 {
            let ghost q = self.send_queue@;
            let message = self.send_queue.remove(0);
            proof {
                assert(self.send_queue@ =~= q.drop_first());
            }
            return SentOutcome::SendNext(substream, message);
        }
        self.idle_outbound_stream = Some(substream);
        SentOutcome::Idle
    }
}

/// A substream gets requested once at a time: after a poll that requests
/// one, another poll requests none until the request completes.
pub proof fn lemma_one_request_at_a_time<M, S>(s: OutboundView<M, S>, writing1: bool, writing2: bool)
    ensures
        poll_spec(s, writing1).1 is RequestSubstream ==> !(poll_spec(poll_spec(s, writing1).0, writing2).1 is RequestSubstream),
{
}

/// Queued messages get written in the order they were queued: a poll or a
/// completed write hands out the oldest one.
pub proof fn lemma_oldest_message_first<M, S>(s: OutboundView<M, S>, writing: bool, substream: S)
    ensures
        poll_spec(s, writing).1 matches OutboundAction::Send(_, m) ==> m == s.send_queue[0]
            && poll_spec(s, writing).0.send_queue == s.send_queue.drop_first(),
        sent_spec(s, substream).1 matches SentOutcome::SendNext(_, m) ==> m == s.send_queue[0]
            && sent_spec(s, substream).0.send_queue == s.send_queue.drop_first(),
{
}

} // verus!
