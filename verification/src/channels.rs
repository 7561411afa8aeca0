//! The request/response relay.
//!
//! Many callers ship their requests, each paired with a single-use reply
//! slot, through a bounded FIFO mailbox to a single handler loop. The loop
//! pulls envelopes in admission order, invokes the handler one envelope at a
//! time, and fulfills each envelope's reply slot with the computed response;
//! a slot abandoned by its caller is skipped silently. Once the mailbox is
//! closed, admission fails and callers observe `ChannelClosed`.
//!
//! The concurrency itself — suspension on a full or empty mailbox, the
//! independently scheduled loop task — belongs to the runtime layer outside
//! this crate. Here the relay is a sequential state machine: admission,
//! consumption and fulfillment are verified transitions, and the handler is
//! any function value whose contract the relay's contracts pass through.

use vstd::prelude::*;

verus! {

/// Why a relay request failed.
#[derive(Clone, Copy, PartialEq, Eq, Structural, Debug)]
pub enum RelayError {
    /// The handler loop was gone, or the reply was abandoned, before a
    /// response could be delivered.
    ChannelClosed,
}

/// A single-use reply slot: delivers at most one response to exactly one
/// awaiting caller, or swallows the response if the caller has gone away.
pub enum ReplySlot<Resp> {
    /// The caller is still waiting for the response.
    Awaiting,
    /// The response has been delivered; a slot is fulfilled at most once.
    Fulfilled(Resp),
    /// The caller abandoned the slot; fulfilling it is a silent no-op.
    Abandoned,
}

impl<Resp> ReplySlot<Resp> {
    /// Deliver a response into the slot. An awaiting slot becomes fulfilled;
    /// an abandoned slot swallows the response without complaint. A slot is
    /// never fulfilled twice.
    pub fn fulfill(self, resp: Resp) -> (slot: Self)
        requires
            self !is Fulfilled,
        ensures
            self is Awaiting ==> slot == ReplySlot::Fulfilled(resp),
            self is Abandoned ==> slot is Abandoned,
    {
        match self {
            ReplySlot::Awaiting => ReplySlot::Fulfilled(resp),
            ReplySlot::Abandoned => ReplySlot::Abandoned,
            ReplySlot::Fulfilled(prev) => ReplySlot::Fulfilled(prev),
        }
    }
}

/// An ephemeral record pairing one caller's request with the single-use
/// reply slot that will carry the response back to that caller.
pub struct Envelope<Req, Resp> {
    pub request: Req,
    pub reply: ReplySlot<Resp>,
}

/// Refusal of an admission attempt; either way the envelope comes back to
/// the sender untouched.
pub enum SendRefusal<Req, Resp> {
    /// The mailbox held as many envelopes as its bound allows; admission may
    /// be retried once the consumer has made progress.
    Full(Envelope<Req, Resp>),
    /// The mailbox is closed; no envelope will ever be admitted again.
    Closed(Envelope<Req, Resp>),
}

/// A bounded FIFO mailbox: envelopes are admitted at the back, consumed from
/// the front, and admission order is preserved exactly.
pub struct Mailbox<Req, Resp> {
    queue: Vec<Envelope<Req, Resp>>,
    capacity: usize,
    closed: bool,
}

impl<Req, Resp> Mailbox<Req, Resp> {
    /// The envelopes currently queued, front first.
    pub closed spec fn inbox(self) -> Seq<Envelope<Req, Resp>> {
        self.queue@
    }

    /// The fixed admission bound the mailbox was created with.
    pub closed spec fn bound(self) -> int {
        self.capacity as int
    }

    /// Whether the mailbox has been closed to further admission.
    pub closed spec fn is_closed(self) -> bool {
        self.closed
    }

    /// An empty, open mailbox with the given admission bound.
    pub fn new(capacity: usize) -> (m: Self)
        requires
            capacity >= 1,
        ensures
            m.inbox().len() == 0,
            m.bound() == capacity,
            !m.is_closed(),
    {
        Mailbox { queue: Vec::new(), capacity, closed: false }
    }

    /// Attempt to admit an envelope at the back of the queue. Admission
    /// succeeds exactly when the mailbox is open and below its bound; a
    /// refused envelope is handed back with the reason.
    pub fn try_send(&mut self, env: Envelope<Req, Resp>) -> (r: Result<
        (),
        SendRefusal<Req, Resp>,
    >)
        ensures
            final(self).bound() == old(self).bound(),
            final(self).is_closed() == old(self).is_closed(),
            old(self).is_closed() ==> {
                &&& r matches Err(SendRefusal::Closed(e)) && e == env
                &&& final(self).inbox() == old(self).inbox()
            },
            !old(self).is_closed() && old(self).inbox().len() >= old(self).bound() ==> {
                &&& r matches Err(SendRefusal::Full(e)) && e == env
                &&& final(self).inbox() == old(self).inbox()
            },
            !old(self).is_closed() && old(self).inbox().len() < old(self).bound() ==> {
                &&& r is Ok
                &&& final(self).inbox() == old(self).inbox().push(env)
            },
    {
        if self.closed {
            Err(SendRefusal::Closed(env))
        } else if self.queue.len() >= self.capacity {
            Err(SendRefusal::Full(env))
        } else {
            self.queue.push(env);
            Ok(())
        }
    }

    /// Consume the envelope at the front of the queue, preserving admission
    /// order. Returns nothing exactly when the mailbox is closed and drained,
    /// which is the handler loop's signal to terminate; a consumer never asks
    /// an open, empty mailbox (it would suspend instead).
    pub fn recv(&mut self) -> (r: Option<Envelope<Req, Resp>>)
        requires
            old(self).inbox().len() > 0 || old(self).is_closed(),
        ensures
            final(self).bound() == old(self).bound(),
            final(self).is_closed() == old(self).is_closed(),
            old(self).inbox().len() > 0 ==> {
                &&& r matches Some(env) && env == old(self).inbox()[0]
                &&& final(self).inbox() == old(self).inbox().drop_first()
            },
            old(self).inbox().len() == 0 ==> r is None && final(self).inbox()
                == old(self).inbox(),
    {
        if self.queue.len() > 0 {
            let env = self.queue.remove(0);
            proof {
                assert(old(self).inbox().remove(0) =~= old(self).inbox().drop_first());
            }
            Some(env)
        } else {
            None
        }
    }

    /// Close the mailbox: no further envelope is admitted, but whatever is
    /// already queued stays available for draining.
    pub fn close(&mut self)
        ensures
            final(self).is_closed(),
            final(self).inbox() == old(self).inbox(),
            final(self).bound() == old(self).bound(),
    {
        self.closed = true;
    }
}

/// The default admission bound of a relay's mailbox.
pub const DEFAULT_MAILBOX_BOUND: usize = 32;

/// A relay: a handler function behind a bounded mailbox.
///
/// Each call of `request` ships one envelope through the mailbox to the
/// handler and hands the handler's response — computed from that caller's
/// own request and no other — back to the caller. The handler runs one
/// invocation at a time, so any state it carries needs no locking.
#[verifier::reject_recursive_types(Resp)]
pub struct RequestHandler<Req, Resp, F> where F: Fn(Req) -> Resp {
    mailbox: Mailbox<Req, Resp>,
    handler: F,
}

impl<Req, Resp, F> RequestHandler<Req, Resp, F> where F: Fn(Req) -> Resp {
    /// The handler function the relay was built around.
    pub closed spec fn func(self) -> F {
        self.handler
    }

    /// Whether the relay has been shut down.
    pub closed spec fn is_closed(self) -> bool {
        self.mailbox.is_closed()
    }

    /// Between calls the mailbox is drained — every admitted envelope has
    /// been consumed — and its admission bound is positive.
    pub closed spec fn well_formed(self) -> bool {
        &&& self.mailbox.inbox().len() == 0
        &&& self.mailbox.bound() >= 1
    }

    /// Build a relay around the given handler, with an empty mailbox of the
    /// default bound.
    pub fn new(handler: F) -> (h: Self)
        ensures
            h.well_formed(),
            !h.is_closed(),
            h.func() == handler,
    {
        RequestHandler { mailbox: Mailbox::new(DEFAULT_MAILBOX_BOUND), handler }
    }

    /// Ship one request through the mailbox to the handler and return the
    /// handler's response for exactly that request. Fails with
    /// `ChannelClosed` precisely when the relay has been shut down.
    pub fn request(&mut self, req: Req) -> (r: Result<Resp, RelayError>)
        requires
            old(self).well_formed(),
            call_requires(old(self).func(), (req,)),
        ensures
            final(self).well_formed(),
            final(self).is_closed() == old(self).is_closed(),
            final(self).func() == old(self).func(),
            old(self).is_closed() ==> r == Err::<Resp, RelayError>(RelayError::ChannelClosed),
            !old(self).is_closed() ==> (r matches Ok(resp) && call_ensures(
                old(self).func(),
                (req,),
                resp,
            )),
    {
        let env = Envelope { request: req, reply: ReplySlot::Awaiting };
        match self.mailbox.try_send(env) {
            Err(_) => Err(RelayError::ChannelClosed),
            Ok(()) => {
                let slot = self.serve_next();
                match slot {
                    ReplySlot::Fulfilled(resp) => Ok(resp),
                    _ => Err(RelayError::ChannelClosed),
                }
            },
        }
    }

    /// Ship a whole batch of requests — one per caller, in admission order —
    /// through the mailbox. When the mailbox is at its bound, the handler
    /// loop makes progress before admission resumes, so the bound is never
    /// exceeded; afterwards the queue is drained completely.
    ///
    /// Each of the `n` callers receives the handler's response to its own
    /// request and no other, and exactly `n` responses are produced. If the
    /// relay has been shut down, every caller observes `ChannelClosed`.
    pub fn request_all(&mut self, requests: Vec<Req>) -> (replies: Vec<
        Result<Resp, RelayError>,
    >)
        requires
            old(self).well_formed(),
            forall|i: int|
                0 <= i < requests@.len() ==> call_requires(old(self).func(), (requests@[i],)),
        ensures
            final(self).well_formed(),
            final(self).is_closed() == old(self).is_closed(),
            final(self).func() == old(self).func(),
            replies.len() == requests@.len(),
            old(self).is_closed() ==> forall|i: int|
                0 <= i < replies.len() ==> replies[i] == Err::<Resp, RelayError>(
                    RelayError::ChannelClosed,
                ),
            !old(self).is_closed() ==> forall|i: int|
                0 <= i < replies.len() ==> (#[trigger] replies[i] matches Ok(resp)
                    && call_ensures(old(self).func(), (requests@[i],), resp)),
    {
        let ghost all = requests@;
        let mut pending = requests;
        let mut replies: Vec<Result<Resp, RelayError>> = Vec::new();
        if self.mailbox.closed {
            while pending.len() > 0
                invariant
                    self.mailbox.is_closed(),
                    self.well_formed(),
                    self.func() == old(self).func(),
                    replies.len() + pending.len() == all.len(),
                    forall|i: int|
                        0 <= i < replies.len() ==> replies[i] == Err::<Resp, RelayError>(
                            RelayError::ChannelClosed,
                        ),
                decreases pending.len(),
            {
                let req = pending.remove(0);
                let env = Envelope { request: req, reply: ReplySlot::Awaiting };
                match self.mailbox.try_send(env) {
                    Err(_) => replies.push(Err(RelayError::ChannelClosed)),
                    Ok(()) => replies.push(Err(RelayError::ChannelClosed)),
                }
            }
            return replies;
        }
        while pending.len() > 0
            invariant
                !self.mailbox.is_closed(),
                self.mailbox.bound() >= 1,
                self.mailbox.inbox().len() <= self.mailbox.bound(),
                self.func() == old(self).func(),
                replies.len() + self.mailbox.inbox().len() + pending.len() == all.len(),
                pending@ == all.subrange(
                    replies.len() + self.mailbox.inbox().len(),
                    all.len() as int,
                ),
                forall|i: int| 0 <= i < all.len() ==> call_requires(old(self).func(), (all[i],)),
                forall|j: int|
                    0 <= j < self.mailbox.inbox().len() ==> {
                        &&& #[trigger] self.mailbox.inbox()[j].request == all[replies.len() + j]
                        &&& self.mailbox.inbox()[j].reply is Awaiting
                    },
                forall|i: int|
                    0 <= i < replies.len() ==> (#[trigger] replies[i] matches Ok(resp)
                        && call_ensures(old(self).func(), (all[i],), resp)),
            decreases pending.len(),
        {
            let ghost r0 = replies@.len() as int;
            let ghost inboxa = self.mailbox.inbox();
            let ghost done = r0 + inboxa.len();
            let req = pending.remove(0);
            proof {
                assert(all.subrange(done, all.len() as int)[0] == all[done]);
                assert(pending@ =~= all.subrange(done + 1, all.len() as int));
            }
            let env = Envelope { request: req, reply: ReplySlot::Awaiting };
            match self.mailbox.try_send(env) {
                Ok(()) => {
                    proof {
                        let inboxb = self.mailbox.inbox();
                        assert forall|j: int| 0 <= j < inboxb.len() implies {
                            &&& #[trigger] inboxb[j].request == all[r0 + j]
                            &&& inboxb[j].reply is Awaiting
                        } by {
                            if j < inboxa.len() {
                                assert(inboxb[j] == inboxa[j]);
                                assert(inboxa[j].request == all[r0 + j]);
                            } else {
                                assert(inboxb[j] == env);
                            }
                        }
                    }
                },
                Err(SendRefusal::Full(env2)) => {
                    proof {
                        assert(inboxa[0].request == all[r0]);
                    }
                    let ghost replies0 = replies@;
                    self.serve_one(&mut replies);
                    proof {
                        let inboxb = self.mailbox.inbox();
                        assert forall|j: int| 0 <= j < inboxb.len() implies {
                            &&& #[trigger] inboxb[j].request == all[r0 + 1 + j]
                            &&& inboxb[j].reply is Awaiting
                        } by {
                            assert(inboxb[j] == inboxa[j + 1]);
                            assert(inboxa[j + 1].request == all[r0 + (j + 1)]);
                        }
                        assert forall|i: int| 0 <= i < replies@.len() implies (
                        #[trigger] replies@[i] matches Ok(resp) && call_ensures(
                            old(self).func(),
                            (all[i],),
                            resp,
                        )) by {
                            if i < r0 {
                                assert(replies@[i] == replies0[i]);
                                assert(replies0[i] matches Ok(resp) && call_ensures(
                                    old(self).func(),
                                    (all[i],),
                                    resp,
                                ));
                            } else {
                                assert(replies@[i] == replies@.last());
                            }
                        }
                    }
                    let ghost inboxb = self.mailbox.inbox();
                    match self.mailbox.try_send(env2) {
                        Ok(()) => {
                            proof {
                                let inboxc = self.mailbox.inbox();
                                assert forall|j: int| 0 <= j < inboxc.len() implies {
                                    &&& #[trigger] inboxc[j].request == all[(r0 + 1) + j]
                                    &&& inboxc[j].reply is Awaiting
                                } by {
                                    if j < inboxb.len() {
                                        assert(inboxc[j] == inboxb[j]);
                                        assert(inboxb[j].request == all[r0 + 1 + j]);
                                    } else {
                                        assert(inboxc[j] == env2);
                                    }
                                }
                            }
                        },
                        Err(_) => {
                            // unreachable: one serve left the mailbox below its bound
                            proof {
                                assert(false);
                            }
                        },
                    }
                },
                Err(SendRefusal::Closed(_)) => {
                    // unreachable: the mailbox stays open throughout the batch
                    proof {
                        assert(false);
                    }
                },
            }
        }
        while self.mailbox.queue.len() > 0
            invariant
                !self.mailbox.is_closed(),
                self.mailbox.bound() >= 1,
                self.func() == old(self).func(),
                replies.len() + self.mailbox.inbox().len() == all.len(),
                forall|i: int| 0 <= i < all.len() ==> call_requires(old(self).func(), (all[i],)),
                forall|j: int|
                    0 <= j < self.mailbox.inbox().len() ==> {
                        &&& #[trigger] self.mailbox.inbox()[j].request == all[replies.len() + j]
                        &&& self.mailbox.inbox()[j].reply is Awaiting
                    },
                forall|i: int|
                    0 <= i < replies.len() ==> (#[trigger] replies[i] matches Ok(resp)
                        && call_ensures(old(self).func(), (all[i],), resp)),
            decreases self.mailbox.inbox().len(),
        {
            let ghost r0 = replies@.len() as int;
            let ghost inboxa = self.mailbox.inbox();
            proof {
                assert(inboxa[0].request == all[r0]);
            }
            let ghost replies0 = replies@;
            self.serve_one(&mut replies);
            proof {
                let inboxb = self.mailbox.inbox();
                assert forall|j: int| 0 <= j < inboxb.len() implies {
                    &&& #[trigger] inboxb[j].request == all[r0 + 1 + j]
                    &&& inboxb[j].reply is Awaiting
                } by {
                    assert(inboxb[j] == inboxa[j + 1]);
                    assert(inboxa[j + 1].request == all[r0 + (j + 1)]);
                }
                assert forall|i: int| 0 <= i < replies@.len() implies (#[trigger] replies@[i] matches
                Ok(resp) && call_ensures(old(self).func(), (all[i],), resp)) by {
                    if i < r0 {
                        assert(replies@[i] == replies0[i]);
                        assert(replies0[i] matches Ok(resp) && call_ensures(
                            old(self).func(),
                            (all[i],),
                            resp,
                        ));
                    } else {
                        assert(replies@[i] == replies@.last());
                    }
                }
            }
        }
        replies
    }

    /// One turn of the handler loop during a batch: serve the front envelope
    /// and append the caller's reply to the collected responses.
    fn serve_one(&mut self, replies: &mut Vec<Result<Resp, RelayError>>)
        requires
            old(self).mailbox.inbox().len() > 0,
            call_requires(old(self).func(), (old(self).mailbox.inbox()[0].request,)),
            old(self).mailbox.inbox()[0].reply is Awaiting,
        ensures
            final(self).mailbox.inbox() == old(self).mailbox.inbox().drop_first(),
            final(self).mailbox.bound() == old(self).mailbox.bound(),
            final(self).is_closed() == old(self).is_closed(),
            final(self).func() == old(self).func(),
            final(replies)@.len() == old(replies)@.len() + 1,
            forall|i: int| 0 <= i < old(replies)@.len() ==> final(replies)@[i] == old(replies)@[i],
            final(replies)@.last() matches Ok(resp) && call_ensures(
                old(self).func(),
                (old(self).mailbox.inbox()[0].request,),
                resp,
            ),
    {
        let slot = self.serve_next();
        match slot {
            ReplySlot::Fulfilled(resp) => replies.push(Ok(resp)),
            _ => replies.push(Err(RelayError::ChannelClosed)),
        }
    }

    /// Shut the relay down, as dropping every handle does: the mailbox
    /// closes, and every subsequent `request` fails with `ChannelClosed`.
    pub fn shutdown(&mut self)
        ensures
            final(self).is_closed(),
            final(self).well_formed() == old(self).well_formed(),
            final(self).func() == old(self).func(),
    {
        self.mailbox.close();
    }

    /// One turn of the handler loop: pull the front envelope, invoke the
    /// handler on its request — the only invocation in flight — and fulfill
    /// its reply slot. Fulfilling an abandoned slot is a silent no-op.
    fn serve_next(&mut self) -> (slot: ReplySlot<Resp>)
        requires
            old(self).mailbox.inbox().len() > 0,
            call_requires(old(self).func(), (old(self).mailbox.inbox()[0].request,)),
            old(self).mailbox.inbox()[0].reply !is Fulfilled,
        ensures
            final(self).mailbox.inbox() == old(self).mailbox.inbox().drop_first(),
            final(self).mailbox.bound() == old(self).mailbox.bound(),
            final(self).is_closed() == old(self).is_closed(),
            final(self).func() == old(self).func(),
            old(self).mailbox.inbox()[0].reply is Awaiting ==> (slot matches ReplySlot::Fulfilled(
                resp,
            ) && call_ensures(old(self).func(), (old(self).mailbox.inbox()[0].request,), resp)),
            old(self).mailbox.inbox()[0].reply is Abandoned ==> slot is Abandoned,
    {
        let env = self.mailbox.recv().unwrap();
        let Envelope { request, reply } = env;
        let resp = (self.handler)(request);
        reply.fulfill(resp)
    }
}

} // verus!
