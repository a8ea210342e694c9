//! The client's side of its server connection: its status, the messages
//! received and not yet read, and the messages waiting to be sent.
use vstd::prelude::*;

use crate::common::NetworkStatus;

verus! {

/// What the network reports about the connection.
#[derive(Clone, Copy, Debug, PartialEq, Eq, Structural)]
pub enum LinkEvent {
    /// The connection to the server is up.
    Connected,
    /// The connection to the server is gone.
    Disconnected,
}

/// The status a connection has after `event`.
pub open spec fn status_after(event: LinkEvent) -> NetworkStatus {
    match event {
        LinkEvent::Connected => NetworkStatus::Connected,
        LinkEvent::Disconnected => NetworkStatus::Disconnected,
    }
}

/// `after` is `before` with the received message `m` kept.
pub open spec fn kept<M>(before: ConnectionState<M>, after: ConnectionState<M>, m: M) -> bool {
    &&& after.inbox() == before.inbox().push(m)
    &&& after.outbox() == before.outbox()
    &&& after.spec_status() == before.spec_status()
}

/// `after` is `before` with the message `m` waiting to be sent.
pub open spec fn queued<M>(before: ConnectionState<M>, after: ConnectionState<M>, m: M) -> bool {
    &&& after.outbox() == before.outbox().push(m)
    &&& after.inbox() == before.inbox()
    &&& after.spec_status() == before.spec_status()
}

/// `after` is `before` once the oldest received message was read as `r`.
pub open spec fn read<M>(before: ConnectionState<M>, after: ConnectionState<M>, r: Option<M>) -> bool {
    &&& before.inbox().len() == 0 ==> r is None && after.inbox() == before.inbox()
    &&& before.inbox().len() > 0 ==> r == Some(before.inbox()[0]) && after.inbox() == before.inbox().drop_first()
    &&& after.outbox() == before.outbox()
    &&& after.spec_status() == before.spec_status()
}

/// `after` is `before` once `sent` went out: every waiting message while
/// connected, none otherwise.
pub open spec fn flushed<M>(before: ConnectionState<M>, after: ConnectionState<M>, sent: Seq<M>) -> bool {
    &&& before.spec_status() == NetworkStatus::Connected ==> sent == before.outbox() && after.outbox() == Seq::<M>::empty()
    &&& before.spec_status() != NetworkStatus::Connected ==> sent == Seq::<M>::empty() && after.outbox() == before.outbox()
    &&& after.inbox() == before.inbox()
    &&& after.spec_status() == before.spec_status()
}

/// A connection's status and its two message queues.
pub struct ConnectionState<M> {
    status: NetworkStatus,
    inbox: Vec<M>,
    outbox: Vec<M>,
}

impl<M> ConnectionState<M> {
    pub closed spec fn spec_status(self) -> NetworkStatus {
        self.status
    }

    /// Messages received and not yet read, oldest first.
    pub closed spec fn inbox(self) -> Seq<M> {
        self.inbox@
    }

    /// Messages waiting to be sent, oldest first.
    pub closed spec fn outbox(self) -> Seq<M> {
        self.outbox@
    }

    /// No connection yet, and nothing received or waiting.
    pub fn new() -> (c: Self)
        ensures
            c.spec_status() == NetworkStatus::NotConnected,
            c.inbox() == Seq::<M>::empty(),
            c.outbox() == Seq::<M>::empty(),
    {
        ConnectionState { status: NetworkStatus::NotConnected, inbox: Vec::new(), outbox: Vec::new() }
    }

    /// The connection's status.
    pub fn status(&self) -> (s: NetworkStatus)
        ensures
            s == self.spec_status(),
    {
        self.status
    }

    /// Sets the connection's status; the queues are kept.
    pub fn set_status(&mut self, status: NetworkStatus)
        ensures
            final(self).spec_status() == status,
            final(self).inbox() == old(self).inbox(),
            final(self).outbox() == old(self).outbox(),
    {
        self.status = status;
    }

    /// Takes note of what the network reported.
    pub fn on_event(&mut self, event: LinkEvent)
        ensures
            final(self).spec_status() == status_after(event),
            final(self).inbox() == old(self).inbox(),
            final(self).outbox() == old(self).outbox(),
    {
        self.status = match event {
            LinkEvent::Connected => NetworkStatus::Connected,
            LinkEvent::Disconnected => NetworkStatus::Disconnected,
        };
    }

    /// Keeps a received message until it is read.
    pub fn push_buffer(&mut self, message: M)
        ensures
            kept(*old(self), *final(self), message),
    {
        self.inbox.push(message);
    }

    /// Reads the oldest received message, if there is one.
    pub fn try_recv(&mut self) -> (r: Option<M>)
        ensures
            read(*old(self), *final(self), r),
    {
        if self.inbox.len() == 0 {
            None
        } else {
            let m = self.inbox.remove(0);
            assert(self.inbox@ =~= old(self).inbox@.drop_first());
            Some(m)
        }
    }

    /// Keeps a message to be sent once the connection is up.
    pub fn queue(&mut self, message: M)
        ensures
            queued(*old(self), *final(self), message),
    {
        self.outbox.push(message);
    }

    /// Takes every message waiting to be sent, oldest first.
    pub fn drain(&mut self) -> (r: Vec<M>)
        ensures
            r@ == old(self).outbox(),
            final(self).outbox() == Seq::<M>::empty(),
            final(self).inbox() == old(self).inbox(),
            final(self).spec_status() == old(self).spec_status(),
    {
        let mut taken: Vec<M> = Vec::new();
        std::mem::swap(&mut taken, &mut self.outbox);
        taken
    }

    /// The messages to send now: every waiting one while connected, none
    /// otherwise.
    pub fn flush(&mut self) -> (r: Vec<M>)
        ensures
            flushed(*old(self), *final(self), r@),
    {
        if self.status == NetworkStatus::Connected {
            self.drain()
        } else {
            Vec::new()
        }
    }
}

/// Messages are read in the order they were received: a message kept in
/// an empty inbox is the next one read; kept behind others, it waits behind
/// them.
pub proof fn law_read_in_order<M>(c0: ConnectionState<M>, c1: ConnectionState<M>, c2: ConnectionState<M>, m: M, r: Option<M>)
    requires
        kept(c0, c1, m),
        read(c1, c2, r),
    ensures
        c0.inbox().len() == 0 ==> r == Some(m) && c2.inbox().len() == 0,
        c0.inbox().len() > 0 ==> r == Some(c0.inbox()[0]) && c2.inbox() == c0.inbox().drop_first().push(m),
{
    if c0.inbox().len() > 0 {
        assert(c1.inbox().drop_first() =~= c0.inbox().drop_first().push(m));
    }
}

/// Waiting messages go out exactly once: a flush while connected sends them
/// all, in order, and a flush right after sends nothing.
pub proof fn law_flush_once<M>(
    c0: ConnectionState<M>,
    c1: ConnectionState<M>,
    first: Seq<M>,
    c2: ConnectionState<M>,
    second: Seq<M>,
)
    requires
        c0.spec_status() == NetworkStatus::Connected,
        flushed(c0, c1, first),
        flushed(c1, c2, second),
    ensures
        first == c0.outbox(),
        second.len() == 0,
        c2.outbox().len() == 0,
{
}

/// Receiving the messages `msgs` one after another keeps them all, in
/// order, behind those already waiting to be read.
pub proof fn law_keeps_all<M>(states: Seq<ConnectionState<M>>, msgs: Seq<M>)
    requires
        states.len() == msgs.len() + 1,
        forall|i: int| 0 <= i < msgs.len() ==> kept(#[trigger] states[i], states[i + 1], msgs[i]),
    ensures
        states.last().inbox() == states[0].inbox() + msgs,
        states.last().outbox() == states[0].outbox(),
        states.last().spec_status() == states[0].spec_status(),
    decreases msgs.len(),
{
    if msgs.len() == 0 {
        assert(states[0].inbox() + msgs =~= states[0].inbox());
    } else {
        let n = msgs.len() - 1;
        let front = states.take(n + 1);
        assert forall|i: int| 0 <= i < msgs.take(n).len() implies kept(#[trigger] front[i], front[i + 1], msgs.take(n)[i]) by {
            assert(kept(states[i], states[i + 1], msgs[i]));
        }
        law_keeps_all(front, msgs.take(n));
        assert(kept(states[n], states[n + 1], msgs[n]));
        assert(msgs =~= msgs.take(n).push(msgs[n]));
        assert(states[0].inbox() + msgs =~= (states[0].inbox() + msgs.take(n)).push(msgs[n]));
    }
}

/// Reading `n` times gives the messages that were waiting, oldest first,
/// and nothing once they are all read.
pub proof fn law_reads_all<M>(states: Seq<ConnectionState<M>>, results: Seq<Option<M>>)
    requires
        states.len() == results.len() + 1,
        forall|i: int| 0 <= i < results.len() ==> read(#[trigger] states[i], states[i + 1], results[i]),
    ensures
        forall|i: int| 0 <= i < results.len() ==> #[trigger] results[i] == (if i < states[0].inbox().len() {
            Some(states[0].inbox()[i])
        } else {
            None::<M>
        }),
        results.len() <= states[0].inbox().len() ==> states.last().inbox() == states[0].inbox().skip(results.len() as int),
        results.len() > states[0].inbox().len() ==> states.last().inbox().len() == 0,
        states.last().outbox() == states[0].outbox(),
        states.last().spec_status() == states[0].spec_status(),
    decreases results.len(),
{
    if results.len() == 0 {
        assert(states[0].inbox().skip(0) =~= states[0].inbox());
    } else {
        let n = results.len() - 1;
        let front = states.take(n + 1);
        assert forall|i: int| 0 <= i < results.take(n).len() implies read(#[trigger] front[i], front[i + 1], results.take(n)[i]) by {
            assert(read(states[i], states[i + 1], results[i]));
        }
        law_reads_all(front, results.take(n));
        assert(read(states[n], states[n + 1], results[n]));
        assert forall|i: int| 0 <= i < results.len() implies #[trigger] results[i] == (if i < states[0].inbox().len() {
            Some(states[0].inbox()[i])
        } else {
            None::<M>
        }) by {
            if i < n {
                assert(results.take(n)[i] == results[i]);
            } else {
                if n < states[0].inbox().len() {
                    assert(states[n].inbox() == states[0].inbox().skip(n));
                    assert(states[0].inbox().skip(n)[0] == states[0].inbox()[n]);
                }
            }
        }
        if results.len() <= states[0].inbox().len() {
            assert(states[0].inbox().skip(n).drop_first() =~= states[0].inbox().skip(n + 1));
        }
    }
}

/// Queueing the messages `msgs` one after another keeps them all, in
/// order, behind those already waiting to be sent.
pub proof fn law_queues_all<M>(states: Seq<ConnectionState<M>>, msgs: Seq<M>)
    requires
        states.len() == msgs.len() + 1,
        forall|i: int| 0 <= i < msgs.len() ==> queued(#[trigger] states[i], states[i + 1], msgs[i]),
    ensures
        states.last().outbox() == states[0].outbox() + msgs,
        states.last().inbox() == states[0].inbox(),
        states.last().spec_status() == states[0].spec_status(),
    decreases msgs.len(),
{
    if msgs.len() == 0 {
        assert(states[0].outbox() + msgs =~= states[0].outbox());
    } else {
        let n = msgs.len() - 1;
        let front = states.take(n + 1);
        assert forall|i: int| 0 <= i < msgs.take(n).len() implies queued(#[trigger] front[i], front[i + 1], msgs.take(n)[i]) by {
            assert(queued(states[i], states[i + 1], msgs[i]));
        }
        law_queues_all(front, msgs.take(n));
        assert(queued(states[n], states[n + 1], msgs[n]));
        assert(msgs =~= msgs.take(n).push(msgs[n]));
        assert(states[0].outbox() + msgs =~= (states[0].outbox() + msgs.take(n)).push(msgs[n]));
    }
}

/// Messages received one after another into an empty inbox are read back
/// in the order they arrived, and then nothing.
pub proof fn law_received_read_in_order<M>(
    arriving: Seq<ConnectionState<M>>,
    msgs: Seq<M>,
    reading: Seq<ConnectionState<M>>,
    results: Seq<Option<M>>,
)
    requires
        arriving.len() == msgs.len() + 1,
        arriving[0].inbox().len() == 0,
        forall|i: int| 0 <= i < msgs.len() ==> kept(#[trigger] arriving[i], arriving[i + 1], msgs[i]),
        reading.len() == results.len() + 1,
        reading[0] == arriving.last(),
        forall|i: int| 0 <= i < results.len() ==> read(#[trigger] reading[i], reading[i + 1], results[i]),
    ensures
        forall|i: int| 0 <= i < results.len() ==> #[trigger] results[i] == (if i < msgs.len() {
            Some(msgs[i])
        } else {
            None::<M>
        }),
{
    law_keeps_all(arriving, msgs);
    assert(arriving.last().inbox() =~= msgs);
    law_reads_all(reading, results);
}

/// Messages queued one after another go out together, in the order they
/// were queued, at the first flush made while connected; a flush made while
/// not connected sends none of them and keeps them all.
pub proof fn law_sent_in_order<M>(
    queueing: Seq<ConnectionState<M>>,
    msgs: Seq<M>,
    after: ConnectionState<M>,
    sent: Seq<M>,
)
    requires
        queueing.len() == msgs.len() + 1,
        queueing[0].outbox().len() == 0,
        forall|i: int| 0 <= i < msgs.len() ==> queued(#[trigger] queueing[i], queueing[i + 1], msgs[i]),
        flushed(queueing.last(), after, sent),
    ensures
        queueing.last().spec_status() == NetworkStatus::Connected ==> sent == msgs && after.outbox().len() == 0,
        queueing.last().spec_status() != NetworkStatus::Connected ==> sent.len() == 0 && after.outbox() == msgs,
{
    law_queues_all(queueing, msgs);
    assert(queueing.last().outbox() =~= msgs);
}

/// A connection starts with no connection; once it is being made, it is up
/// after the network reports the connection and down after it reports the
/// disconnection, and its queues are kept throughout.
pub proof fn law_status_follows_events<M>(
    fresh: ConnectionState<M>,
    connecting: ConnectionState<M>,
    up: ConnectionState<M>,
    down: ConnectionState<M>,
)
    requires
        fresh.spec_status() == NetworkStatus::NotConnected,
        connecting.spec_status() == NetworkStatus::Connecting,
        connecting.inbox() == fresh.inbox(),
        connecting.outbox() == fresh.outbox(),
        up.spec_status() == status_after(LinkEvent::Connected),
        up.inbox() == connecting.inbox(),
        up.outbox() == connecting.outbox(),
        down.spec_status() == status_after(LinkEvent::Disconnected),
        down.inbox() == up.inbox(),
        down.outbox() == up.outbox(),
    ensures
        up.spec_status() == NetworkStatus::Connected,
        down.spec_status() == NetworkStatus::Disconnected,
        down.inbox() == fresh.inbox(),
        down.outbox() == fresh.outbox(),
{
}

} // verus!
