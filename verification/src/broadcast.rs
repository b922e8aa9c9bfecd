//! The broadcaster: every published record goes to every subscriber that was
//! attached when it was published, in order. A subscriber that does not keep up
//! loses its oldest unread records; the publisher never waits.
//!
//! The records travel through a `tokio::sync::broadcast` channel. What the
//! channel does is believed of the `tokio` crate and stated in the first part
//! of this module; what the broadcaster makes of it is proved.

use vstd::prelude::*;
use tokio::sync::broadcast::{Receiver, Sender};
use crate::message::{MessageView, SyslogMessage};
use crate::stats::next_count;

verus! {

/// How many unread records a broadcaster is asked to keep for a subscriber
/// unless it is asked for another number.
pub const DEFAULT_CAPACITY: usize = 1000;

/// How many records a broadcaster publishes in its life: 2^63 - 1. The channel
/// numbers its records in 64 bits, and what is believed of it here holds while
/// no receiver is more than half of that range behind.
pub const PUBLISH_LIMIT: u64 = 0x7fff_ffff_ffff_ffff;

/// What one subscriber has yet to read, as mathematics.
pub struct Subscription {
    /// The unread records, oldest first.
    pub pending: Seq<MessageView>,
    /// How many records were dropped unread since the subscriber last heard of
    /// it.
    pub missed: u64,
}

/// The last `n` items of `s`, or all of `s` where it has fewer.
pub open spec fn keep_last<T>(s: Seq<T>, n: nat) -> Seq<T> {
    if s.len() <= n {
        s
    } else {
        s.subrange(s.len() - n, s.len() as int)
    }
}

impl Subscription {
    /// A subscription with nothing to read.
    pub open spec fn fresh() -> Subscription {
        Subscription { pending: Seq::empty(), missed: 0 }
    }

    /// The subscription after `msg` was published on a channel that keeps
    /// `capacity` records: the record joins the unread ones, and where they
    /// were `capacity` already, the oldest is dropped and counted as missed.
    pub open spec fn offered(self, msg: MessageView, capacity: nat) -> Subscription {
        Subscription {
            pending: keep_last(self.pending.push(msg), capacity),
            missed: if self.pending.len() < capacity {
                self.missed
            } else {
                next_count(self.missed)
            },
        }
    }

    /// The subscription after each of `msgs` was published in turn.
    pub open spec fn offered_all(self, msgs: Seq<MessageView>, capacity: nat) -> Subscription
        decreases msgs.len(),
    {
        if msgs.len() == 0 {
            self
        } else {
            self.offered_all(msgs.drop_last(), capacity).offered(msgs.last(), capacity)
        }
    }
}

/// The broadcaster as mathematics: how many unread records it keeps for a
/// subscriber, how many records it has published, and what each attached
/// subscriber has yet to read.
pub struct BroadcasterView {
    pub capacity: nat,
    pub sent: nat,
    pub subscribers: Map<usize, Subscription>,
}

impl BroadcasterView {
    /// After `msg` was published. A broadcaster that has published as many
    /// records as it publishes in its life drops the record.
    pub open spec fn published(self, msg: MessageView) -> BroadcasterView {
        if self.sent < PUBLISH_LIMIT {
            BroadcasterView {
                capacity: self.capacity,
                sent: self.sent + 1,
                subscribers: Map::new(
                    |id: usize| self.subscribers.dom().contains(id),
                    |id: usize| self.subscribers[id].offered(msg, self.capacity),
                ),
            }
        } else {
            self
        }
    }

    /// After a subscriber attached under `id`.
    pub open spec fn subscribed(self, id: usize) -> BroadcasterView {
        BroadcasterView {
            capacity: self.capacity,
            sent: self.sent,
            subscribers: self.subscribers.insert(id, Subscription::fresh()),
        }
    }

    /// After the subscriber `id` detached.
    pub open spec fn unsubscribed(self, id: usize) -> BroadcasterView {
        BroadcasterView {
            capacity: self.capacity,
            sent: self.sent,
            subscribers: self.subscribers.remove(id),
        }
    }

    /// After the subscriber `id` asked for its next record.
    pub open spec fn polled(self, id: usize) -> BroadcasterView {
        if !self.subscribers.dom().contains(id) {
            self
        } else {
            let s = self.subscribers[id];
            BroadcasterView {
                capacity: self.capacity,
                sent: self.sent,
                subscribers: self.subscribers.insert(
                    id,
                    if s.missed > 0 {
                        Subscription { pending: s.pending, missed: 0 }
                    } else if s.pending.len() > 0 {
                        Subscription { pending: s.pending.drop_first(), missed: 0 }
                    } else {
                        s
                    },
                ),
            }
        }
    }
}

/// What a subscriber gets when it asks for its next record.
#[derive(Debug)]
pub enum Delivery {
    /// The oldest unread record.
    Message(SyslogMessage),
    /// So many records were dropped unread; the next request gives the oldest
    /// that is left.
    Lagged(u64),
    /// Nothing to read yet.
    Empty,
    /// No subscriber is attached under this id.
    Closed,
}

/// Whether `d` is what the subscriber `id` of `v` gets.
pub open spec fn delivers(d: Delivery, v: BroadcasterView, id: usize) -> bool {
    if !v.subscribers.dom().contains(id) {
        d is Closed
    } else if v.subscribers[id].missed > 0 {
        d == Delivery::Lagged(v.subscribers[id].missed)
    } else if v.subscribers[id].pending.len() > 0 {
        d matches Delivery::Message(m) && m@ == v.subscribers[id].pending[0]
    } else {
        d is Empty
    }
}

/// The sending half of the channel of the `tokio` crate, taken as it is.
#[verifier::external_type_specification]
#[verifier::external_body]
#[verifier::reject_recursive_types(T)]
pub struct ExSender<T>(Sender<T>);

/// The receiving half of the channel of the `tokio` crate, taken as it is.
#[verifier::external_type_specification]
#[verifier::external_body]
#[verifier::reject_recursive_types(T)]
pub struct ExReceiver<T>(Receiver<T>);

/// What a receiver holds: the records that were sent since it was made, or
/// since it last received, and that the channel still keeps for it, oldest
/// first.
pub uninterp spec fn unread_of(rx: Receiver<SyslogMessage>) -> Seq<MessageView>;

/// How many records the channel gave up before the receiver could receive
/// them, since the receiver last heard of it.
pub uninterp spec fn missed_of(rx: Receiver<SyslogMessage>) -> u64;

/// How many records the channel of a sender keeps.
pub uninterp spec fn capacity_of(tx: Sender<SyslogMessage>) -> nat;

/// Whether a receiver receives what a sender sends: whether it was made by
/// `subscribe` on that sender.
pub uninterp spec fn attached(rx: Receiver<SyslogMessage>, tx: Sender<SyslogMessage>) -> bool;

/// What a receiver has yet to read.
pub open spec fn state_of(rx: Receiver<SyslogMessage>) -> Subscription {
    Subscription { pending: unread_of(rx), missed: missed_of(rx) }
}

/// Whether a receiver is at most `limit` records behind, counting those it
/// has yet to read and those it missed.
pub open spec fn in_range(rx: Receiver<SyslogMessage>, limit: u64) -> bool {
    unread_of(rx).len() + missed_of(rx) <= limit
}

/// Whether `n` is a power of two.
pub open spec fn is_power_of_two(n: nat) -> bool
    decreases n,
{
    n == 1 || (n > 1 && n % 2 == 0 && is_power_of_two(n / 2))
}

/// Whether a channel asked to keep `asked` records keeps `kept`: the next power
/// of two.
pub open spec fn rounds_up(kept: nat, asked: nat) -> bool {
    asked <= kept < 2 * asked && is_power_of_two(kept)
}

/// How sending `msg` on `tx` changed one place for a receiver: an empty place
/// stays empty, and a receiver gets the record as its newest, giving up its
/// oldest where it held as many as the channel keeps.
pub open spec fn sent_to(
    before: Option<Receiver<SyslogMessage>>,
    after: Option<Receiver<SyslogMessage>>,
    tx: Sender<SyslogMessage>,
    msg: MessageView,
) -> bool {
    match before {
        Some(b) => after matches Some(a) && attached(a, tx) && state_of(a) == state_of(b).offered(
            msg,
            capacity_of(tx),
        ),
        None => after is None,
    }
}

/// How receiving changed a receiver, and what it gave: word of what was
/// missed, if anything was, and then nothing is taken; else the oldest unread
/// record, which is taken; else nothing.
pub open spec fn received(
    before: Receiver<SyslogMessage>,
    after: Receiver<SyslogMessage>,
    d: Delivery,
) -> bool {
    &&& forall|tx: Sender<SyslogMessage>| attached(before, tx) ==> #[trigger] attached(after, tx)
    &&& if missed_of(before) > 0 {
        &&& d == Delivery::Lagged(missed_of(before))
        &&& unread_of(after) == unread_of(before)
        &&& missed_of(after) == 0
    } else if unread_of(before).len() > 0 {
        &&& d matches Delivery::Message(m) && m@ == unread_of(before)[0]
        &&& unread_of(after) == unread_of(before).drop_first()
        &&& missed_of(after) == 0
    } else {
        &&& d is Empty || d is Closed
        &&& unread_of(after) == unread_of(before)
        &&& missed_of(after) == 0
    }
}

/// `tokio::sync::broadcast::channel`, of which the sender is kept: a channel
/// that keeps the next power of two of the records it is asked to keep. The
/// call panics where it is asked to keep none, or more than half of
/// `usize::MAX`.
#[verifier::external_body]
fn channel_new(capacity: usize) -> (tx: Sender<SyslogMessage>)
    requires
        0 < capacity <= usize::MAX / 2,
    ensures
        rounds_up(capacity_of(tx), capacity as nat),
{
    tokio::sync::broadcast::channel(capacity).0
}

/// `Sender::subscribe`: a receiver that receives what is sent from now on, and
/// nothing that was sent before. The call panics where the channel has a
/// quarter of `usize::MAX` receivers, more than memory holds.
#[verifier::external_body]
fn channel_subscribe(tx: &Sender<SyslogMessage>) -> (rx: Receiver<SyslogMessage>)
    ensures
        attached(rx, *tx),
        unread_of(rx).len() == 0,
        missed_of(rx) == 0,
{
    tx.subscribe()
}

/// `Sender::send`: every receiver of the channel gets the record as its
/// newest; one that held as many as the channel keeps gives up its oldest,
/// which counts as missed. The receivers are given so that this can be said of
/// them: the call changes what they will receive, not the values themselves.
/// This is believed of receivers that are less than 2^63 - 1 records behind,
/// and it rests on the broadcaster keeping the sender and every receiver to
/// itself. Whether there was a receiver at all, which is what the call
/// returns, is not used.
#[verifier::external_body]
fn channel_send(
    tx: &Sender<SyslogMessage>,
    rxs: &mut Vec<Option<Receiver<SyslogMessage>>>,
    msg: SyslogMessage,
)
    requires
        forall|i: int|
            0 <= i < old(rxs).len() ==> (#[trigger] old(rxs)[i] matches Some(rx) ==> attached(
                rx,
                *tx,
            ) && in_range(rx, (PUBLISH_LIMIT - 1) as u64)),
    ensures
        final(rxs).len() == old(rxs).len(),
        forall|i: int|
            0 <= i < old(rxs).len() ==> sent_to(old(rxs)[i], #[trigger] final(rxs)[i], *tx, msg@),
{
    let _ = tx.send(msg);
}

/// `Receiver::try_recv`, its answer turned into a `Delivery`: a receiver that
/// missed records hears how many and goes on from the oldest that is kept;
/// else it gets a copy of its oldest unread record; else nothing. Whether
/// "nothing" comes as `Empty` or as `Closed` is not stated.
#[verifier::external_body]
fn channel_try_recv(rx: &mut Receiver<SyslogMessage>) -> (d: Delivery)
    requires
        in_range(*old(rx), PUBLISH_LIMIT),
    ensures
        received(*old(rx), *final(rx), d),
{
    match rx.try_recv() {
        Ok(m) => Delivery::Message(m),
        Err(tokio::sync::broadcast::error::TryRecvError::Lagged(n)) => Delivery::Lagged(n),
        Err(tokio::sync::broadcast::error::TryRecvError::Empty) => Delivery::Empty,
        Err(tokio::sync::broadcast::error::TryRecvError::Closed) => Delivery::Closed,
    }
}

/// The broadcaster.
pub struct Broadcaster {
    sender: Sender<SyslogMessage>,
    /// A subscriber's id is its position here.
    receivers: Vec<Option<Receiver<SyslogMessage>>>,
    /// How many records were published.
    sent: u64,
}

/// Whether a place holds nothing, or a receiver of `tx` that is in order.
spec fn fits(slot: Option<Receiver<SyslogMessage>>, tx: Sender<SyslogMessage>, sent: u64) -> bool {
    slot matches Some(rx) ==> attached(rx, tx) && in_range(rx, sent)
}

impl View for Broadcaster {
    type V = BroadcasterView;

    closed spec fn view(&self) -> BroadcasterView {
        BroadcasterView {
            capacity: capacity_of(self.sender),
            sent: self.sent as nat,
            subscribers: Map::new(
                |id: usize| id < self.receivers.len() && self.receivers[id as int] is Some,
                |id: usize| state_of(self.receivers[id as int]->0),
            ),
        }
    }
}

impl Broadcaster {
    /// Whether the broadcaster is in order. It is when it is made, and every
    /// operation keeps it so.
    pub closed spec fn wf(&self) -> bool {
        &&& self.sent <= PUBLISH_LIMIT
        &&& forall|i: int|
            0 <= i < self.receivers.len() ==> fits(
                #[trigger] self.receivers[i],
                self.sender,
                self.sent,
            )
    }

    /// A broadcaster asked to keep up to `capacity` unread records for each
    /// subscriber; it keeps the next power of two. No subscriber is attached.
    pub fn new(capacity: usize) -> (b: Self)
        requires
            0 < capacity <= usize::MAX / 2,
        ensures
            b.wf(),
            rounds_up(b@.capacity, capacity as nat),
            b@.sent == 0,
            b@.subscribers == Map::<usize, Subscription>::empty(),
    {
        let b = Broadcaster { sender: channel_new(capacity), receivers: Vec::new(), sent: 0 };
        assert(b@.subscribers =~= Map::<usize, Subscription>::empty());
        b
    }

    /// Attaches a subscriber and gives its id. It has nothing to read: what was
    /// published before is not delivered to it.
    #[verifier::rlimit(40)]
    pub fn subscribe(&mut self) -> (id: usize)
        requires
            old(self).wf(),
        ensures
            final(self).wf(),
            !old(self)@.subscribers.dom().contains(id),
            final(self)@ == old(self)@.subscribed(id),
    {
        let mut i: usize = 0;
        while i < self.receivers.len() && self.receivers[i].is_some()
            invariant
                i <= self.receivers.len(),
                *self == *old(self),
                forall|k: int| 0 <= k < i ==> self.receivers[k] is Some,
            decreases self.receivers.len() - i,
        {
            i = i + 1;
        }
        let rx = channel_subscribe(&self.sender);
        assert(state_of(rx).pending =~= Subscription::fresh().pending);
        if i < self.receivers.len() {
            self.receivers.set(i, Some(rx));
        } else {
            self.receivers.push(Some(rx));
        }
        assert forall|k: int| 0 <= k < self.receivers.len() implies fits(
            #[trigger] self.receivers[k],
            self.sender,
            self.sent,
        ) by {
            if k != i {
                assert(fits(old(self).receivers[k], old(self).sender, old(self).sent));
            }
        }
        assert(self@.subscribers =~= old(self)@.subscribed(i).subscribers);
        i
    }

    /// Detaches the subscriber `id`, if there is one.
    pub fn unsubscribe(&mut self, id: usize)
        requires
            old(self).wf(),
        ensures
            final(self).wf(),
            final(self)@ == old(self)@.unsubscribed(id),
    {
        if id < self.receivers.len() {
            self.receivers.set(id, None);
        }
        assert(self@.subscribers =~= old(self)@.unsubscribed(id).subscribers);
    }

    /// Publishes a record to every attached subscriber. Never waits and never
    /// fails: a subscriber that already has as many unread records as are kept
    /// loses the oldest of them. A broadcaster that has published as many
    /// records as it publishes in its life drops the record.
    #[verifier::rlimit(40)]
    pub fn publish(&mut self, msg: SyslogMessage)
        requires
            old(self).wf(),
        ensures
            final(self).wf(),
            final(self)@ == old(self)@.published(msg@),
    {
        if self.sent < PUBLISH_LIMIT {
            channel_send(&self.sender, &mut self.receivers, msg);
            self.sent = self.sent + 1;
            assert forall|i: int| 0 <= i < self.receivers.len() implies fits(
                #[trigger] self.receivers[i],
                self.sender,
                self.sent,
            ) by {
                assert(sent_to(old(self).receivers[i], self.receivers[i], self.sender, msg@));
                assert(fits(old(self).receivers[i], old(self).sender, old(self).sent));
            }
            assert(self@.subscribers =~= old(self)@.published(msg@).subscribers) by {
                assert forall|id: usize| id < self.receivers.len() implies (
                #[trigger] self.receivers[id as int] is Some) == (old(self).receivers[id as int]
                    is Some) && (self.receivers[id as int] is Some ==> state_of(
                    self.receivers[id as int]->0,
                ) == state_of(old(self).receivers[id as int]->0).offered(
                    msg@,
                    capacity_of(self.sender),
                )) by {
                    assert(sent_to(
                        old(self).receivers[id as int],
                        self.receivers[id as int],
                        self.sender,
                        msg@,
                    ));
                }
            }
        }
    }

    /// Gives the subscriber `id` its next record, or tells why there is none.
    #[verifier::rlimit(40)]
    pub fn poll(&mut self, id: usize) -> (d: Delivery)
        requires
            old(self).wf(),
        ensures
            final(self).wf(),
            delivers(d, old(self)@, id),
            final(self)@ == old(self)@.polled(id),
    {
        if id >= self.receivers.len() || self.receivers[id].is_none() {
            return Delivery::Closed;
        }
        assert(fits(self.receivers[id as int], self.sender, self.sent));
        let d = match &mut self.receivers[id] {
            Some(rx) => channel_try_recv(rx),
            None => Delivery::Closed,
        };
        assert(received(old(self).receivers[id as int]->0, self.receivers[id as int]->0, d));
        assert forall|k: int| 0 <= k < self.receivers.len() implies fits(
            #[trigger] self.receivers[k],
            self.sender,
            self.sent,
        ) by {
            if k != id {
                assert(fits(old(self).receivers[k], old(self).sender, old(self).sent));
            }
        }
        assert(self@.subscribers =~= old(self)@.polled(id).subscribers);
        match d {
            // the channel is open as long as the broadcaster holds its sender
            Delivery::Closed => Delivery::Empty,
            other => other,
        }
    }
}

impl BroadcasterView {
    /// After each of `msgs` was published in turn.
    pub open spec fn published_all(self, msgs: Seq<MessageView>) -> BroadcasterView
        decreases msgs.len(),
    {
        if msgs.len() == 0 {
            self
        } else {
            self.published_all(msgs.drop_last()).published(msgs.last())
        }
    }
}

/// By how much `n` exceeds `capacity`.
pub open spec fn excess(n: nat, capacity: nat) -> nat {
    if n > capacity {
        (n - capacity) as nat
    } else {
        0
    }
}

/// A count as a counter holds it: the counter stops at its top.
pub open spec fn saturated(n: nat) -> u64 {
    if n >= u64::MAX {
        u64::MAX
    } else {
        n as u64
    }
}

/// What a subscriber has to read after records were published: what it had,
/// then the new records, cut down to the newest `capacity`; what was cut is
/// counted as missed.
pub proof fn lemma_offered_all(s: Subscription, msgs: Seq<MessageView>, capacity: nat)
    requires
        s.pending.len() <= capacity,
    ensures
        s.offered_all(msgs, capacity).pending == keep_last(s.pending + msgs, capacity),
        s.offered_all(msgs, capacity).missed == saturated(
            s.missed as nat + excess(s.pending.len() + msgs.len(), capacity),
        ),
    decreases msgs.len(),
{
    if msgs.len() == 0 {
        assert(s.pending + msgs =~= s.pending);
    } else {
        let head = msgs.drop_last();
        let t = s.offered_all(head, capacity);
        lemma_offered_all(s, head, capacity);
        let x = s.pending + head;
        assert(s.pending + msgs =~= x.push(msgs.last()));
        assert(keep_last(keep_last(x, capacity).push(msgs.last()), capacity) =~= keep_last(
            x.push(msgs.last()),
            capacity,
        ));
    }
}

/// Every publication reaches each attached subscriber, and no other, as long
/// as the broadcaster has not published all the records of its life.
pub proof fn lemma_published_all(v: BroadcasterView, msgs: Seq<MessageView>, id: usize)
    requires
        v.sent + msgs.len() <= PUBLISH_LIMIT,
    ensures
        v.published_all(msgs).capacity == v.capacity,
        v.published_all(msgs).sent == v.sent + msgs.len(),
        v.published_all(msgs).subscribers.dom() == v.subscribers.dom(),
        v.subscribers.dom().contains(id) ==> v.published_all(msgs).subscribers[id]
            == v.subscribers[id].offered_all(msgs, v.capacity),
    decreases msgs.len(),
{
    if msgs.len() > 0 {
        lemma_published_all(v, msgs.drop_last(), id);
        let w = v.published_all(msgs.drop_last());
        assert(w.published(msgs.last()).subscribers.dom() =~= w.subscribers.dom());
    }
}

/// A subscriber that attaches after any number of records were published gets
/// none of them. Of the records published from then on it gets every one, in
/// order, as long as they are no more than the capacity; once they are more, it
/// has lost the oldest of them, keeps the newest `capacity`, and the loss is
/// counted. The publisher is held up in neither case. All this holds as long
/// as the broadcaster has not published all the records of its life.
pub proof fn lemma_late_subscriber(
    v: BroadcasterView,
    earlier: Seq<MessageView>,
    id: usize,
    later: Seq<MessageView>,
)
    requires
        v.sent + earlier.len() + later.len() <= PUBLISH_LIMIT,
    ensures
        ({
            let attached = v.published_all(earlier).subscribed(id);
            let s = attached.published_all(later).subscribers[id];
            &&& attached.subscribers[id].pending.len() == 0
            &&& s.pending == keep_last(later, v.capacity)
            &&& s.missed == saturated(excess(later.len(), v.capacity))
            &&& later.len() <= v.capacity ==> s.pending == later && s.missed == 0
        }),
{
    let attached = v.published_all(earlier).subscribed(id);
    lemma_published_all(v, earlier, id);
    lemma_published_all(attached, later, id);
    lemma_offered_all(Subscription::fresh(), later, v.capacity);
    assert(Subscription::fresh().pending + later =~= later);
}

} // verus!
