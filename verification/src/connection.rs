//! Connection manager: one pair of message queues per remote peer, and the
//! record of peers coming and going.
//!
//! The manager does no I/O. The embedding program moves messages between the
//! queues and its transport: what the transport received goes in through
//! [`ConnectionManager::deliver`], what the synchronisation loops sent comes
//! out through [`ConnectionManager::take_outgoing`].

use vstd::prelude::*;
use crate::channels::{purpose_taken, ChannelEntry, ChannelRegistry};
use crate::messages::{Channel, Message};

verus! {

/// A change in the set of connected peers.
#[derive(Clone, Copy, Debug, PartialEq, Eq, Structural)]
pub enum NetworkEvent {
    /// A peer connected and got this handle.
    Connected(u32),
    /// The peer with this handle is gone.
    Disconnected(u32),
}

/// Why a message was not queued.
#[derive(Clone, Copy, Debug, PartialEq, Eq, Structural)]
pub enum SendError {
    /// No peer goes by that handle.
    NoSuchConnection,
    /// The channel table has no channel for the message's type.
    MessageTypeUnregistered,
}

/// A message as it was received, with the handle of the peer it came from.
#[derive(Clone, Copy, Debug, PartialEq, Eq, Structural)]
pub struct Inbound {
    pub from: u32,
    pub message: Message,
}

/// The queues of one peer, as sequences: `inbox` is what arrived from the
/// peer and was not read yet, `outbox` what is to be put on the wire for it.
/// The oldest message comes first.
pub struct PeerView {
    pub handle: u32,
    pub inbox: Seq<Message>,
    pub outbox: Seq<Message>,
}

impl PeerView {
    /// A peer with empty queues.
    pub open spec fn idle(handle: u32) -> PeerView {
        PeerView { handle, inbox: Seq::empty(), outbox: Seq::empty() }
    }

    /// The peer with `message` appended to its outbox.
    pub open spec fn with_queued(self, message: Message) -> PeerView {
        PeerView { outbox: self.outbox.push(message), ..self }
    }

    /// The peer with `message` appended to its inbox.
    pub open spec fn with_arrived(self, message: Message) -> PeerView {
        PeerView { inbox: self.inbox.push(message), ..self }
    }

    /// The peer once the messages of `channel` were read from its inbox.
    pub open spec fn with_read(self, channel: Channel) -> PeerView {
        PeerView { inbox: off_channel(self.inbox, channel), ..self }
    }
}

/// The messages of `messages` that travel on `channel`, in their order.
pub open spec fn on_channel(messages: Seq<Message>, channel: Channel) -> Seq<Message>
    decreases messages.len(),
{
    if messages.len() == 0 {
        Seq::empty()
    } else {
        let rest = on_channel(messages.drop_last(), channel);
        if messages.last().channel() == channel {
            rest.push(messages.last())
        } else {
            rest
        }
    }
}

/// The messages of `messages` that travel on another channel than `channel`,
/// in their order.
pub open spec fn off_channel(messages: Seq<Message>, channel: Channel) -> Seq<Message>
    decreases messages.len(),
{
    if messages.len() == 0 {
        Seq::empty()
    } else {
        let rest = off_channel(messages.drop_last(), channel);
        if messages.last().channel() != channel {
            rest.push(messages.last())
        } else {
            rest
        }
    }
}

/// `messages`, each marked as coming from `from`.
pub open spec fn received_from(from: u32, messages: Seq<Message>) -> Seq<Inbound> {
    Seq::new(messages.len(), |i: int| Inbound { from, message: messages[i] })
}

/// What waits on `channel` in the inboxes of `peers`: peer after peer in
/// table order, each peer's messages in the order of their arrival.
pub open spec fn inbound(peers: Seq<PeerView>, channel: Channel) -> Seq<Inbound>
    decreases peers.len(),
{
    if peers.len() == 0 {
        Seq::empty()
    } else {
        inbound(peers.drop_last(), channel) + received_from(
            peers.last().handle,
            on_channel(peers.last().inbox, channel),
        )
    }
}

/// Some peer among `peers` goes by `handle`.
pub open spec fn peer_known(peers: Seq<PeerView>, handle: u32) -> bool {
    exists|i: int| 0 <= i < peers.len() && (#[trigger] peers[i]).handle == handle
}

/// The place among `peers` of the peer that goes by `handle`, where there is
/// one.
pub open spec fn peer_index(peers: Seq<PeerView>, handle: u32) -> int {
    choose|i: int| 0 <= i < peers.len() && (#[trigger] peers[i]).handle == handle
}

/// No handle occurs twice among `peers`.
pub open spec fn distinct_handles(peers: Seq<PeerView>) -> bool {
    forall|i: int, j: int|
        0 <= i < j < peers.len() ==> (#[trigger] peers[i]).handle != (#[trigger] peers[j]).handle
}

/// Where handles are distinct, a peer's place is the place of its handle.
pub proof fn lemma_peer_index(peers: Seq<PeerView>, i: int)
    requires
        distinct_handles(peers),
        0 <= i < peers.len(),
    ensures
        peer_known(peers, peers[i].handle),
        peer_index(peers, peers[i].handle) == i,
{
    let k = peer_index(peers, peers[i].handle);
    assert(0 <= k < peers.len() && peers[k].handle == peers[i].handle);
    if k < i {
        assert(peers[k].handle != peers[i].handle);
    } else if i < k {
        assert(peers[i].handle != peers[k].handle);
    }
}

/// The state of a connection manager: the channel table, the connected peers
/// in the order in which they connected, and the events not yet taken.
pub struct NetView {
    pub channels: Seq<ChannelEntry>,
    pub peers: Seq<PeerView>,
    pub events: Seq<NetworkEvent>,
}

impl NetView {
    /// A peer goes by `handle`.
    pub open spec fn has_peer(self, handle: u32) -> bool {
        peer_known(self.peers, handle)
    }

    /// The channel table has a channel for `message`.
    pub open spec fn accepts(self, message: Message) -> bool {
        purpose_taken(self.channels, message.channel())
    }

    /// What arrived from the peer `handle` and was not read yet.
    pub open spec fn inbox(self, handle: u32) -> Seq<Message> {
        self.peers[peer_index(self.peers, handle)].inbox
    }

    /// What is to be put on the wire for the peer `handle`.
    pub open spec fn outbox(self, handle: u32) -> Seq<Message> {
        self.peers[peer_index(self.peers, handle)].outbox
    }

    /// The state after `message` was sent to the peer `handle`: appended to
    /// that peer's outbox if the peer is known and the message has a channel,
    /// else nothing changes.
    pub open spec fn with_sent(self, handle: u32, message: Message) -> NetView {
        if self.has_peer(handle) && self.accepts(message) {
            let i = peer_index(self.peers, handle);
            NetView { peers: self.peers.update(i, self.peers[i].with_queued(message)), ..self }
        } else {
            self
        }
    }

    /// The state after `message` was sent to every peer.
    pub open spec fn with_broadcast(self, message: Message) -> NetView {
        if self.accepts(message) {
            NetView {
                peers: Seq::new(self.peers.len(), |i: int| self.peers[i].with_queued(message)),
                ..self
            }
        } else {
            self
        }
    }

    /// The state after every message of `messages` was sent to every peer,
    /// one after the other.
    pub open spec fn with_broadcasts(self, messages: Seq<Message>) -> NetView
        decreases messages.len(),
    {
        if messages.len() == 0 {
            self
        } else {
            self.with_broadcasts(messages.drop_last()).with_broadcast(messages.last())
        }
    }

    /// The state after `message` arrived from the peer `handle`.
    pub open spec fn with_delivered(self, handle: u32, message: Message) -> NetView {
        if self.has_peer(handle) && self.accepts(message) {
            let i = peer_index(self.peers, handle);
            NetView { peers: self.peers.update(i, self.peers[i].with_arrived(message)), ..self }
        } else {
            self
        }
    }

    /// The state after the messages of `channel` were read from the inbox of
    /// the peer `handle`.
    pub open spec fn with_received(self, handle: u32, channel: Channel) -> NetView {
        let i = peer_index(self.peers, handle);
        NetView { peers: self.peers.update(i, self.peers[i].with_read(channel)), ..self }
    }

    /// The state after the messages of `channel` were read from every inbox.
    pub open spec fn with_received_all(self, channel: Channel) -> NetView {
        NetView {
            peers: Seq::new(self.peers.len(), |i: int| self.peers[i].with_read(channel)),
            ..self
        }
    }

    /// The state after the outbox of the peer `handle` was emptied.
    pub open spec fn with_outbox_taken(self, handle: u32) -> NetView {
        let i = peer_index(self.peers, handle);
        NetView {
            peers: self.peers.update(i, PeerView { outbox: Seq::empty(), ..self.peers[i] }),
            ..self
        }
    }

    /// The state after a peer connected under `handle`: it joins the table
    /// with empty queues and the event is recorded. A handle that is in use
    /// changes nothing.
    pub open spec fn with_connected(self, handle: u32) -> NetView {
        if self.has_peer(handle) {
            self
        } else {
            NetView {
                peers: self.peers.push(PeerView::idle(handle)),
                events: self.events.push(NetworkEvent::Connected(handle)),
                ..self
            }
        }
    }

    /// The state after the peer `handle` went away: it leaves the table,
    /// whatever its queues still held is dropped, and the event is recorded.
    /// An unknown handle changes nothing.
    pub open spec fn with_disconnected(self, handle: u32) -> NetView {
        if self.has_peer(handle) {
            NetView {
                peers: self.peers.remove(peer_index(self.peers, handle)),
                events: self.events.push(NetworkEvent::Disconnected(handle)),
                ..self
            }
        } else {
            self
        }
    }
}

struct Peer {
    handle: u32,
    inbox: Vec<Message>,
    outbox: Vec<Message>,
}

impl View for Peer {
    type V = PeerView;

    closed spec fn view(&self) -> PeerView {
        PeerView { handle: self.handle, inbox: self.inbox@, outbox: self.outbox@ }
    }
}

/// The connection manager.
pub struct ConnectionManager {
    registry: ChannelRegistry,
    peers: Vec<Peer>,
    events: Vec<NetworkEvent>,
}

impl View for ConnectionManager {
    type V = NetView;

    closed spec fn view(&self) -> NetView {
        NetView {
            channels: self.registry@,
            peers: Seq::new(self.peers@.len(), |i: int| self.peers@[i]@),
            events: self.events@,
        }
    }
}

impl ConnectionManager {
    /// No two peers share a handle.
    pub open spec fn wf(&self) -> bool {
        distinct_handles(self@.peers)
    }

    /// A manager for the channels of `registry`, without peers.
    pub fn new(registry: ChannelRegistry) -> (r: ConnectionManager)
        ensures
            r@ == (NetView {
                channels: registry@,
                peers: Seq::<PeerView>::empty(),
                events: Seq::<NetworkEvent>::empty(),
            }),
            r.wf(),
    {
        let r = ConnectionManager { registry, peers: Vec::new(), events: Vec::new() };
        assert(r@.peers == Seq::<PeerView>::empty());
        r
    }

    /// The channel table.
    pub fn registry(&self) -> (r: &ChannelRegistry)
        ensures
            r@ == self@.channels,
    {
        &self.registry
    }

    /// The number of connected peers.
    pub fn len(&self) -> (r: usize)
        ensures
            r == self@.peers.len(),
    {
        self.peers.len()
    }

    /// The handle of the `i`-th peer.
    pub fn handle(&self, i: usize) -> (r: u32)
        requires
            i < self@.peers.len(),
        ensures
            r == self@.peers[i as int].handle,
    {
        self.peers[i].handle
    }

    fn find(&self, handle: u32) -> (r: Option<usize>)
        ensures
            r is Some <==> self@.has_peer(handle),
            r matches Some(i) ==> i < self.peers@.len() && self.peers@[i as int].handle == handle,
            r matches Some(i) ==> self.wf() ==> i == peer_index(self@.peers, handle),
    {
        let mut i: usize = 0;
        while i < self.peers.len()
            invariant
                i <= self.peers.len(),
                forall|j: int| 0 <= j < i ==> (#[trigger] self@.peers[j]).handle != handle,
            decreases self.peers.len() - i,
        {
            if self.peers[i].handle == handle {
                assert(self@.peers[i as int].handle == handle);
                proof {
                    if self.wf() {
                        lemma_peer_index(self@.peers, i as int);
                    }
                }
                return Some(i);
            }
            i += 1;
        }
        None
    }

    /// Whether a peer goes by `handle`.
    pub fn has_peer(&self, handle: u32) -> (r: bool)
        ensures
            r == self@.has_peer(handle),
    {
        self.find(handle).is_some()
    }

    /// Records that a peer connected under `handle`. Returns whether the
    /// handle was free; one that is in use changes nothing.
    pub fn connect(&mut self, handle: u32) -> (r: bool)
        requires
            old(self).wf(),
        ensures
            final(self).wf(),
            r == !old(self)@.has_peer(handle),
            final(self)@ == old(self)@.with_connected(handle),
    {
        if self.find(handle).is_some() {
            return false;
        }
        self.peers.push(Peer { handle, inbox: Vec::new(), outbox: Vec::new() });
        self.events.push(NetworkEvent::Connected(handle));
        assert(self@.peers == old(self)@.peers.push(PeerView::idle(handle)));
        true
    }

    /// Records that the peer `handle` went away. Returns whether there was
    /// such a peer; an unknown handle changes nothing.
    pub fn disconnect(&mut self, handle: u32) -> (r: bool)
        requires
            old(self).wf(),
        ensures
            final(self).wf(),
            r == old(self)@.has_peer(handle),
            final(self)@ == old(self)@.with_disconnected(handle),
    {
        match self.find(handle) {
            None => false,
            Some(i) => {
                let _ = self.peers.remove(i);
                self.events.push(NetworkEvent::Disconnected(handle));
                assert(self@.peers == old(self)@.peers.remove(i as int));
                true
            },
        }
    }

    /// Hands out the events recorded since the last call, oldest first.
    pub fn take_events(&mut self) -> (r: Vec<NetworkEvent>)
        ensures
            r@ == old(self)@.events,
            final(self)@ == (NetView { events: Seq::<NetworkEvent>::empty(), ..old(self)@ }),
            old(self).wf() ==> final(self).wf(),
    {
        let mut events: Vec<NetworkEvent> = Vec::new();
        core::mem::swap(&mut self.events, &mut events);
        events
    }

    /// Files a message that arrived from the peer `handle`. A message from an
    /// unknown peer, or of a type without a channel, is dropped and the
    /// reason returned.
    pub fn deliver(&mut self, handle: u32, message: Message) -> (r: Result<(), SendError>)
        requires
            old(self).wf(),
        ensures
            final(self).wf(),
            final(self)@ == old(self)@.with_delivered(handle, message),
            !old(self)@.has_peer(handle) ==> r == Err::<(), SendError>(SendError::NoSuchConnection),
            old(self)@.has_peer(handle) && !old(self)@.accepts(message) ==> r == Err::<
                (),
                SendError,
            >(SendError::MessageTypeUnregistered),
            old(self)@.has_peer(handle) && old(self)@.accepts(message) ==> r is Ok,
    {
        match self.find(handle) {
            None => Err(SendError::NoSuchConnection),
            Some(i) => {
                if !self.registry.is_registered(message.channel()) {
                    return Err(SendError::MessageTypeUnregistered);
                }
                self.peers[i].inbox.push(message);
                assert(self@.peers == old(self)@.peers.update(
                    i as int,
                    old(self)@.peers[i as int].with_arrived(message),
                ));
                Ok(())
            },
        }
    }

    /// Queues `message` for the peer `handle`. A message for an unknown peer,
    /// or of a type without a channel, is not queued and the reason returned.
    pub fn send_message(&mut self, handle: u32, message: Message) -> (r: Result<(), SendError>)
        requires
            old(self).wf(),
        ensures
            final(self).wf(),
            final(self)@ == old(self)@.with_sent(handle, message),
            !old(self)@.has_peer(handle) ==> r == Err::<(), SendError>(SendError::NoSuchConnection),
            old(self)@.has_peer(handle) && !old(self)@.accepts(message) ==> r == Err::<
                (),
                SendError,
            >(SendError::MessageTypeUnregistered),
            old(self)@.has_peer(handle) && old(self)@.accepts(message) ==> r is Ok,
    {
        match self.find(handle) {
            None => Err(SendError::NoSuchConnection),
            Some(i) => {
                if !self.registry.is_registered(message.channel()) {
                    return Err(SendError::MessageTypeUnregistered);
                }
                self.peers[i].outbox.push(message);
                assert(self@.peers == old(self)@.peers.update(
                    i as int,
                    old(self)@.peers[i as int].with_queued(message),
                ));
                Ok(())
            },
        }
    }

    /// Queues `message` for every peer. A message of a type without a channel
    /// is queued for none.
    pub fn broadcast_message(&mut self, message: Message) -> (r: Result<(), SendError>)
        ensures
            final(self)@ == old(self)@.with_broadcast(message),
            old(self).wf() ==> final(self).wf(),
            r is Ok <==> old(self)@.accepts(message),
            r is Err ==> r == Err::<(), SendError>(SendError::MessageTypeUnregistered),
    {
        if !self.registry.is_registered(message.channel()) {
            return Err(SendError::MessageTypeUnregistered);
        }
        let mut i: usize = 0;
        while i < self.peers.len()
            invariant
                i <= self.peers.len(),
                self.peers@.len() == old(self).peers@.len(),
                self.registry == old(self).registry,
                self.events == old(self).events,
                forall|j: int|
                    0 <= j < i ==> (#[trigger] self.peers@[j])@ == old(self).peers@[j]@.with_queued(
                        message,
                    ),
                forall|j: int| i <= j < self.peers@.len() ==> (#[trigger] self.peers@[j]) == old(
                    self,
                ).peers@[j],
            decreases self.peers.len() - i,
        {
            self.peers[i].outbox.push(message);
            i += 1;
        }
        assert(self@.peers == old(self)@.with_broadcast(message).peers);
        Ok(())
    }

    /// Reads what waits on `channel` in the inbox of the peer `handle`,
    /// oldest first. What waits on other channels stays.
    pub fn receive_all(&mut self, handle: u32, channel: Channel) -> (r: Vec<Message>)
        requires
            old(self).wf(),
            old(self)@.has_peer(handle),
        ensures
            final(self).wf(),
            r@ == on_channel(old(self)@.inbox(handle), channel),
            final(self)@ == old(self)@.with_received(handle, channel),
    {
        let found = self.find(handle);
        let i = found.unwrap();
        let r = self.receive_at(i, channel);
        assert(self@.peers == old(self)@.peers.update(
            i as int,
            old(self)@.peers[i as int].with_read(channel),
        ));
        r
    }

    fn receive_at(&mut self, i: usize, channel: Channel) -> (r: Vec<Message>)
        requires
            i < old(self).peers@.len(),
        ensures
            r@ == on_channel(old(self).peers@[i as int]@.inbox, channel),
            final(self).peers@.len() == old(self).peers@.len(),
            final(self).peers@[i as int]@ == old(self).peers@[i as int]@.with_read(channel),
            forall|j: int|
                0 <= j < old(self).peers@.len() && j != i ==> final(self).peers@[j] == old(
                    self,
                ).peers@[j],
            final(self).registry == old(self).registry,
            final(self).events == old(self).events,
    {
        let mut inbox: Vec<Message> = Vec::new();
        core::mem::swap(&mut self.peers[i].inbox, &mut inbox);
        let mut taken: Vec<Message> = Vec::new();
        let mut kept: Vec<Message> = Vec::new();
        let mut k: usize = 0;
        while k < inbox.len()
            invariant
                k <= inbox.len(),
                taken@ == on_channel(inbox@.take(k as int), channel),
                kept@ == off_channel(inbox@.take(k as int), channel),
            decreases inbox.len() - k,
        {
            assert(inbox@.take(k + 1).drop_last() == inbox@.take(k as int));
            let message = inbox[k];
            if message.channel() == channel {
                taken.push(message);
            } else {
                kept.push(message);
            }
            k += 1;
        }
        assert(inbox@.take(k as int) == inbox@);
        self.peers[i].inbox = kept;
        taken
    }

    /// Reads what waits on `channel` in every inbox: peer after peer in table
    /// order, each message with the handle it came from.
    pub fn receive_from_all(&mut self, channel: Channel) -> (r: Vec<Inbound>)
        ensures
            r@ == inbound(old(self)@.peers, channel),
            final(self)@ == old(self)@.with_received_all(channel),
            old(self).wf() ==> final(self).wf(),
    {
        let mut out: Vec<Inbound> = Vec::new();
        let mut i: usize = 0;
        while i < self.peers.len()
            invariant
                i <= self.peers.len(),
                self.peers@.len() == old(self).peers@.len(),
                self.registry == old(self).registry,
                self.events == old(self).events,
                forall|j: int|
                    0 <= j < i ==> (#[trigger] self.peers@[j])@ == old(self).peers@[j]@.with_read(
                        channel,
                    ),
                forall|j: int| i <= j < self.peers@.len() ==> (#[trigger] self.peers@[j]) == old(
                    self,
                ).peers@[j],
                out@ == inbound(old(self)@.peers.take(i as int), channel),
            decreases self.peers.len() - i,
        {
            let from = self.peers[i].handle;
            let messages = self.receive_at(i, channel);
            let ghost before = out@;
            let mut k: usize = 0;
            while k < messages.len()
                invariant
                    k <= messages.len(),
                    out@ == before + received_from(from, messages@).take(k as int),
                decreases messages.len() - k,
            {
                out.push(Inbound { from, message: messages[k] });
                k += 1;
            }
            assert(received_from(from, messages@).take(k as int) == received_from(from, messages@));
            assert(old(self)@.peers.take(i + 1).drop_last() == old(self)@.peers.take(i as int));
            i += 1;
        }
        assert(old(self)@.peers.take(i as int) == old(self)@.peers);
        assert(self@.peers == old(self)@.with_received_all(channel).peers);
        out
    }

    /// Hands out what is to be put on the wire for the peer `handle`, oldest
    /// first, and empties that outbox.
    pub fn take_outgoing(&mut self, handle: u32) -> (r: Vec<Message>)
        requires
            old(self).wf(),
            old(self)@.has_peer(handle),
        ensures
            final(self).wf(),
            r@ == old(self)@.outbox(handle),
            final(self)@ == old(self)@.with_outbox_taken(handle),
    {
        let found = self.find(handle);
        let i = found.unwrap();
        let mut outbox: Vec<Message> = Vec::new();
        core::mem::swap(&mut self.peers[i].outbox, &mut outbox);
        assert(self@.peers == old(self)@.peers.update(
            i as int,
            PeerView { outbox: Seq::empty(), ..old(self)@.peers[i as int] },
        ));
        outbox
    }
}

} // verus!
