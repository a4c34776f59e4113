//! The server's synchronisation loop: the authoritative side of the game.
//!
//! A tick has two halves with the integrator between them. [`begin_tick`]
//! takes the connection events, keeps the pool of unowned balls filled,
//! gives the unowned balls their wander input and applies what clients
//! reported. [`end_tick`] stores what the integrator computed and tells
//! every client what changed. Each step is also a function of its own.

use vstd::prelude::*;
use crate::connection::{
    inbound, peer_index, ConnectionManager, Inbound, NetView, NetworkEvent,
};
use crate::messages::{Channel, ComponentKind, Message, ServerMessage};
use crate::model::{BallBundle, BallId, Position, TargetVelocity, Vec2, Velocity};
use crate::registry::{
    all_published, distinct_ids, first_unowned, has_id, highest_id, identities, index_of,
    is_first_unowned, lemma_highest_id, lemma_unowned_count_push, lemma_unowned_count_same,
    lemma_unowned_count_update, lemma_unowned_count_zero, pending_messages, unowned_count, update_position_system,
    update_velocity_system, with_positions, with_velocities, Ball, BallRegistry, Ownership,
};

verus! {

/// The least number of unowned balls the server keeps in play.
pub const UNOWNED_FLOOR: usize = 3;

/// What the server's loop works on: its balls and its connections.
pub struct ServerState {
    pub balls: Seq<Ball>,
    pub net: NetView,
}

/// `balls` after the first unowned ball was bound to the connection `handle`.
pub open spec fn assigned(balls: Seq<Ball>, handle: u32) -> Seq<Ball> {
    let i = first_unowned(balls);
    balls.update(i, balls[i].with_ownership(Some(Ownership::NetworkHandle(handle))))
}

/// `balls` after every ball bound to the connection `handle` was set free.
pub open spec fn released(balls: Seq<Ball>, handle: u32) -> Seq<Ball> {
    Seq::new(
        balls.len(),
        |i: int|
            if balls[i].ownership == Some(Ownership::NetworkHandle(handle)) {
                balls[i].with_ownership(None)
            } else {
                balls[i]
            },
    )
}

/// The message that tells a client which ball it steers.
pub open spec fn welcome(id: BallId) -> Message {
    Message::Server(ServerMessage::Welcome(id))
}

/// Whether the server can take `event` in `state`. A connection must be
/// known to the connection manager and find an unowned ball.
pub open spec fn event_allowed(state: ServerState, event: NetworkEvent) -> bool {
    event matches NetworkEvent::Connected(handle) ==> state.net.has_peer(handle) && unowned_count(
        state.balls,
    ) > 0
}

/// `state` after the server took `event`. A new connection gets the first
/// unowned ball and is told so; a connection that ends sets its ball free.
pub open spec fn after_event(state: ServerState, event: NetworkEvent) -> ServerState {
    match event {
        NetworkEvent::Connected(handle) => ServerState {
            balls: assigned(state.balls, handle),
            net: state.net.with_sent(handle, welcome(state.balls[first_unowned(state.balls)].id())),
        },
        NetworkEvent::Disconnected(handle) => ServerState {
            balls: released(state.balls, handle),
            net: state.net,
        },
    }
}

/// `state` after the server took `events` one after the other.
pub open spec fn after_events(state: ServerState, events: Seq<NetworkEvent>) -> ServerState
    decreases events.len(),
{
    if events.len() == 0 {
        state
    } else {
        after_event(after_events(state, events.drop_last()), events.last())
    }
}

/// Whether the server can take `events` one after the other, starting in
/// `state`.
pub open spec fn events_allowed(state: ServerState, events: Seq<NetworkEvent>) -> bool
    decreases events.len(),
{
    events.len() == 0 || (events_allowed(state, events.drop_last()) && event_allowed(
        after_events(state, events.drop_last()),
        events.last(),
    ))
}

/// Events that can be taken one after the other can be taken up to any point.
pub proof fn lemma_events_allowed_prefix(state: ServerState, events: Seq<NetworkEvent>, k: int)
    requires
        events_allowed(state, events),
        0 <= k <= events.len(),
    ensures
        events_allowed(state, events.take(k)),
    decreases events.len(),
{
    if k == events.len() {
        assert(events.take(k) == events);
    } else {
        lemma_events_allowed_prefix(state, events.drop_last(), k);
        assert(events.drop_last().take(k) == events.take(k));
    }
}

/// The ball the spawn policy adds: the next identity, at `position`, at rest.
pub open spec fn spawned_ball(balls: Seq<Ball>, position: Position) -> Ball {
    Ball::fresh(
        BallBundle {
            ball_id: BallId((highest_id(balls) + 1) as u32),
            position,
            velocity: Velocity(Vec2::zero()),
            target_velocity: TargetVelocity(Vec2::zero()),
        },
    )
}

/// Whether the spawn policy adds a ball to `balls`: fewer than
/// [`UNOWNED_FLOOR`] balls are unowned, and an identity is left to give.
pub open spec fn spawn_due(balls: Seq<Ball>) -> bool {
    unowned_count(balls) < UNOWNED_FLOOR && highest_id(balls) < u32::MAX
}

/// `balls` after one run of the spawn policy.
pub open spec fn after_spawn(balls: Seq<Ball>, position: Position) -> Seq<Ball> {
    if spawn_due(balls) {
        balls.push(spawned_ball(balls, position))
    } else {
        balls
    }
}

/// `balls` after the unowned balls got their wander input: the `i`-th ball,
/// if nobody steers it, takes `draws[i]` as target velocity. A ball that
/// `draws` does not reach keeps its target velocity.
pub open spec fn with_wander(balls: Seq<Ball>, draws: Seq<TargetVelocity>) -> Seq<Ball> {
    Seq::new(
        balls.len(),
        |i: int|
            if balls[i].is_unowned() && i < draws.len() {
                balls[i].with_target_velocity(draws[i])
            } else {
                balls[i]
            },
    )
}

/// `balls` after the server applied `message`: a component message for a
/// ball it holds overwrites that component, whoever sent it; any other
/// message changes nothing.
pub open spec fn overwritten(balls: Seq<Ball>, message: Message) -> Seq<Ball> {
    match message {
        Message::Component(id, component) => if has_id(balls, id) {
            let i = index_of(balls, id);
            balls.update(i, balls[i].with_component(component))
        } else {
            balls
        },
        _ => balls,
    }
}

/// `balls` after the server applied `messages` one after the other.
pub open spec fn overwritten_all(balls: Seq<Ball>, messages: Seq<Inbound>) -> Seq<Ball>
    decreases messages.len(),
{
    if messages.len() == 0 {
        balls
    } else {
        overwritten(overwritten_all(balls, messages.drop_last()), messages.last().message)
    }
}

/// Takes one connection event, see [`after_event`]. Returns the identity of
/// the ball a new connection was given.
pub fn handle_network_event(
    balls: &mut BallRegistry,
    net: &mut ConnectionManager,
    event: NetworkEvent,
) -> (r: Option<BallId>)
    requires
        old(balls).wf(),
        old(net).wf(),
        event_allowed(ServerState { balls: old(balls)@, net: old(net)@ }, event),
    ensures
        final(balls).wf(),
        final(net).wf(),
        (ServerState { balls: final(balls)@, net: final(net)@ }) == after_event(
            ServerState { balls: old(balls)@, net: old(net)@ },
            event,
        ),
        r == match event {
            NetworkEvent::Connected(_) => Some(old(balls)@[first_unowned(old(balls)@)].id()),
            NetworkEvent::Disconnected(_) => None,
        },
{
    match event {
        NetworkEvent::Connected(handle) => {
            let id = assign(balls, handle);
            let _ = net.send_message(handle, Message::Server(ServerMessage::Welcome(id)));
            Some(id)
        },
        NetworkEvent::Disconnected(handle) => {
            release(balls, handle);
            None
        },
    }
}

fn assign(balls: &mut BallRegistry, handle: u32) -> (r: BallId)
    requires
        old(balls).wf(),
        unowned_count(old(balls)@) > 0,
    ensures
        final(balls).wf(),
        final(balls)@ == assigned(old(balls)@, handle),
        r == old(balls)@[first_unowned(old(balls)@)].id(),
{
    let found = balls.first_unowned();
    let i = found.unwrap();
    let id = balls.ball(i).bundle.ball_id;
    balls.set_ownership(i, Some(Ownership::NetworkHandle(handle)));
    id
}

fn release(balls: &mut BallRegistry, handle: u32)
    requires
        old(balls).wf(),
    ensures
        final(balls).wf(),
        final(balls)@ == released(old(balls)@, handle),
{
    let mut i: usize = 0;
    while i < balls.len()
        invariant
            i <= balls@.len(),
            balls@.len() == old(balls)@.len(),
            balls.wf(),
            forall|j: int| 0 <= j < i ==> (#[trigger] balls@[j]) == released(old(balls)@, handle)[j],
            forall|j: int| i <= j < balls@.len() ==> (#[trigger] balls@[j]) == old(balls)@[j],
        decreases balls@.len() - i,
    {
        if balls.ball(i).ownership == Some(Ownership::NetworkHandle(handle)) {
            balls.set_ownership(i, None);
        }
        i += 1;
    }
    assert(balls@ == released(old(balls)@, handle));
}

proof fn lemma_after_events_keeps_peers(state: ServerState, events: Seq<NetworkEvent>, handle: u32)
    ensures
        after_events(state, events).net.has_peer(handle) == state.net.has_peer(handle),
    decreases events.len(),
{
    if events.len() > 0 {
        let before = after_events(state, events.drop_last());
        lemma_after_events_keeps_peers(state, events.drop_last(), handle);
        match events.last() {
            NetworkEvent::Connected(to) => {
                let message = welcome(before.balls[first_unowned(before.balls)].id());
                let after = before.net.with_sent(to, message);
                if before.net.has_peer(to) && before.net.accepts(message) {
                    if before.net.has_peer(handle) {
                        let j = peer_index(before.net.peers, handle);
                        assert(after.peers[j].handle == handle);
                    }
                    if after.has_peer(handle) {
                        let j = peer_index(after.peers, handle);
                        assert(before.net.peers[j].handle == handle);
                    }
                }
            },
            NetworkEvent::Disconnected(_) => {},
        }
    }
}

/// Whether the server can take `events` one after the other: every new
/// connection among them is known to the connection manager and finds an
/// unowned ball when its turn comes.
pub fn network_events_allowed(
    balls: &BallRegistry,
    net: &ConnectionManager,
    events: &Vec<NetworkEvent>,
) -> (r: bool)
    requires
        balls.wf(),
    ensures
        r == events_allowed(ServerState { balls: balls@, net: net@ }, events@),
{
    let ghost start = ServerState { balls: balls@, net: net@ };
    let mut trial = balls.duplicate();
    let mut k: usize = 0;
    while k < events.len()
        invariant
            k <= events@.len(),
            trial.wf(),
            start == (ServerState { balls: balls@, net: net@ }),
            events_allowed(start, events@.take(k as int)),
            trial@ == after_events(start, events@.take(k as int)).balls,
        decreases events@.len() - k,
    {
        proof {
            assert(events@.take(k + 1).drop_last() == events@.take(k as int));
            if events_allowed(start, events@) {
                lemma_events_allowed_prefix(start, events@, k + 1);
            }
        }
        match events[k] {
            NetworkEvent::Connected(handle) => {
                proof {
                    lemma_after_events_keeps_peers(start, events@.take(k as int), handle);
                }
                if !net.has_peer(handle) || trial.unowned_count() == 0 {
                    return false;
                }
                let _ = assign(&mut trial, handle);
            },
            NetworkEvent::Disconnected(handle) => {
                release(&mut trial, handle);
            },
        }
        k += 1;
    }
    assert(events@.take(k as int) == events@);
    true
}

/// Takes the connection events of this tick, oldest first: see
/// [`after_events`].
pub fn handle_network_events_system(
    balls: &mut BallRegistry,
    net: &mut ConnectionManager,
    events: &Vec<NetworkEvent>,
)
    requires
        old(balls).wf(),
        old(net).wf(),
        events_allowed(ServerState { balls: old(balls)@, net: old(net)@ }, events@),
    ensures
        final(balls).wf(),
        final(net).wf(),
        (ServerState { balls: final(balls)@, net: final(net)@ }) == after_events(
            ServerState { balls: old(balls)@, net: old(net)@ },
            events@,
        ),
{
    let ghost start = ServerState { balls: balls@, net: net@ };
    let mut k: usize = 0;
    while k < events.len()
        invariant
            k <= events@.len(),
            balls.wf(),
            net.wf(),
            events_allowed(start, events@),
            (ServerState { balls: balls@, net: net@ }) == after_events(start, events@.take(k as int)),
        decreases events@.len() - k,
    {
        proof {
            lemma_events_allowed_prefix(start, events@, k + 1);
            assert(events@.take(k + 1).drop_last() == events@.take(k as int));
        }
        let _ = handle_network_event(balls, net, events[k]);
        k += 1;
    }
    assert(events@.take(k as int) == events@);
}

/// The spawn policy, see [`after_spawn`]: where fewer than
/// [`UNOWNED_FLOOR`] balls are unowned, adds one ball at `position`, at
/// rest, under the identity that follows the greatest one in the registry.
/// Returns the identity of the ball it added.
pub fn spawn_ball_system(balls: &mut BallRegistry, position: Position) -> (r: Option<BallId>)
    requires
        old(balls).wf(),
    ensures
        final(balls).wf(),
        final(balls)@ == after_spawn(old(balls)@, position),
        r == if spawn_due(old(balls)@) {
            Some(BallId((highest_id(old(balls)@) + 1) as u32))
        } else {
            None
        },
{
    let count = balls.unowned_count();
    let highest = balls.highest_id();
    if count < UNOWNED_FLOOR && highest < u32::MAX {
        let id = BallId(highest + 1);
        let ball = Ball::fresh(
            BallBundle {
                ball_id: id,
                position,
                velocity: Velocity(Vec2::zero()),
                target_velocity: TargetVelocity(Vec2::zero()),
            },
        );
        proof {
            assert forall|j: int| 0 <= j < balls@.len() implies (#[trigger] balls@[j]).id() != id by {
                lemma_highest_id(balls@, j);
            }
        }
        let _ = balls.insert(ball);
        Some(id)
    } else {
        None
    }
}

/// Autonomous wander, see [`with_wander`]: every unowned ball takes the
/// target velocity drawn for it.
pub fn unowned_ball_input_system(balls: &mut BallRegistry, draws: &Vec<TargetVelocity>)
    ensures
        final(balls)@ == with_wander(old(balls)@, draws@),
        old(balls).wf() ==> final(balls).wf(),
{
    let mut i: usize = 0;
    while i < balls.len() && i < draws.len()
        invariant
            i <= balls@.len(),
            i <= draws@.len(),
            balls@.len() == old(balls)@.len(),
            old(balls).wf() ==> balls.wf(),
            forall|j: int| 0 <= j < i ==> (#[trigger] balls@[j]) == with_wander(old(balls)@, draws@)[j],
            forall|j: int| i <= j < balls@.len() ==> (#[trigger] balls@[j]) == old(balls)@[j],
        decreases balls@.len() - i,
    {
        if balls.ball(i).ownership.is_none() {
            balls.set_component(i, crate::messages::Component::TargetVelocity(draws[i]));
        }
        i += 1;
    }
    assert(balls@ == with_wander(old(balls)@, draws@));
}

/// Reads what clients reported of one component type and applies it, peer
/// after peer: see [`overwritten_all`]. A message about an identity the
/// server does not hold is passed over.
pub fn read_component_channel_system(
    balls: &mut BallRegistry,
    net: &mut ConnectionManager,
    kind: ComponentKind,
)
    requires
        old(balls).wf(),
    ensures
        final(balls).wf(),
        old(net).wf() ==> final(net).wf(),
        final(net)@ == old(net)@.with_received_all(Channel::Component(kind)),
        final(balls)@ == overwritten_all(
            old(balls)@,
            inbound(old(net)@.peers, Channel::Component(kind)),
        ),
{
    let messages = net.receive_from_all(Channel::Component(kind));
    let mut k: usize = 0;
    while k < messages.len()
        invariant
            k <= messages@.len(),
            balls.wf(),
            balls@ == overwritten_all(old(balls)@, messages@.take(k as int)),
        decreases messages@.len() - k,
    {
        assert(messages@.take(k + 1).drop_last() == messages@.take(k as int));
        match messages[k].message {
            Message::Component(id, component) => {
                match balls.find(id) {
                    Some(i) => {
                        balls.set_component(i, component);
                    },
                    None => {},
                }
            },
            _ => {},
        }
        k += 1;
    }
    assert(messages@.take(k as int) == messages@);
}

/// Reads what clients announced on the control channel, peer after peer.
pub fn read_network_channels_system(net: &mut ConnectionManager) -> (r: Vec<Inbound>)
    ensures
        r@ == inbound(old(net)@.peers, Channel::ClientMessage),
        final(net)@ == old(net)@.with_received_all(Channel::ClientMessage),
        old(net).wf() ==> final(net).wf(),
{
    net.receive_from_all(Channel::ClientMessage)
}

/// The publishing pass: sends every peer the target velocity, then the
/// position, of each ball on which that component differs from what was
/// published last.
pub fn broadcast_changes_system(balls: &mut BallRegistry, net: &mut ConnectionManager)
    ensures
        final(balls)@ == all_published(old(balls)@),
        final(net)@ == old(net)@.with_broadcasts(pending_messages(old(balls)@, false)),
        old(balls).wf() ==> final(balls).wf(),
        old(net).wf() ==> final(net).wf(),
{
    let messages = balls.take_changes(false);
    let mut k: usize = 0;
    while k < messages.len()
        invariant
            k <= messages@.len(),
            old(net).wf() ==> net.wf(),
            net@ == old(net)@.with_broadcasts(messages@.take(k as int)),
        decreases messages@.len() - k,
    {
        assert(messages@.take(k + 1).drop_last() == messages@.take(k as int));
        let _ = net.broadcast_message(messages[k]);
        k += 1;
    }
    assert(messages@.take(k as int) == messages@);
}

/// `state` after the first half of a tick, which takes in what came from
/// outside: the connection events, then the spawn policy with `spawn_at`
/// for the new ball's position, then wander input from `draws`, then what
/// clients reported of positions and of target velocities.
pub open spec fn tick_begun(
    state: ServerState,
    events: Seq<NetworkEvent>,
    spawn_at: Position,
    draws: Seq<TargetVelocity>,
) -> ServerState {
    let served = after_events(state, events);
    let wandering = with_wander(after_spawn(served.balls, spawn_at), draws);
    let positions = Channel::Component(ComponentKind::Position);
    let targets = Channel::Component(ComponentKind::TargetVelocity);
    let net = served.net.with_received_all(positions);
    ServerState {
        balls: overwritten_all(
            overwritten_all(wandering, inbound(served.net.peers, positions)),
            inbound(net.peers, targets),
        ),
        net: net.with_received_all(targets),
    }
}

/// `state` after the second half of a tick, which stores the integrator's
/// results and runs the publishing pass.
pub open spec fn tick_ended(
    state: ServerState,
    velocities: Seq<Velocity>,
    positions: Seq<Position>,
) -> ServerState {
    let moved = with_positions(with_velocities(state.balls, velocities), positions);
    ServerState {
        balls: all_published(moved),
        net: state.net.with_broadcasts(pending_messages(moved, false)),
    }
}

/// The first half of a tick, see [`tick_begun`]. The integrator runs on
/// the registry as this leaves it.
pub fn begin_tick(
    balls: &mut BallRegistry,
    net: &mut ConnectionManager,
    events: &Vec<NetworkEvent>,
    spawn_at: Position,
    draws: &Vec<TargetVelocity>,
)
    requires
        old(balls).wf(),
        old(net).wf(),
        events_allowed(ServerState { balls: old(balls)@, net: old(net)@ }, events@),
    ensures
        final(balls).wf(),
        final(net).wf(),
        (ServerState { balls: final(balls)@, net: final(net)@ }) == tick_begun(
            ServerState { balls: old(balls)@, net: old(net)@ },
            events@,
            spawn_at,
            draws@,
        ),
{
    handle_network_events_system(balls, net, events);
    let _ = spawn_ball_system(balls, spawn_at);
    unowned_ball_input_system(balls, draws);
    read_component_channel_system(balls, net, ComponentKind::Position);
    read_component_channel_system(balls, net, ComponentKind::TargetVelocity);
}

/// The second half of a tick, see [`tick_ended`]. `velocities` and
/// `positions` hold what the integrator computed, ball by ball.
pub fn end_tick(
    balls: &mut BallRegistry,
    net: &mut ConnectionManager,
    velocities: &Vec<Velocity>,
    positions: &Vec<Position>,
)
    ensures
        old(balls).wf() ==> final(balls).wf(),
        old(net).wf() ==> final(net).wf(),
        (ServerState { balls: final(balls)@, net: final(net)@ }) == tick_ended(
            ServerState { balls: old(balls)@, net: old(net)@ },
            velocities@,
            positions@,
        ),
{
    update_velocity_system(balls, velocities);
    update_position_system(balls, positions);
    broadcast_changes_system(balls, net);
}

/// `balls` after the spawn policy ran once for each of `positions`.
pub open spec fn after_spawns(balls: Seq<Ball>, positions: Seq<Position>) -> Seq<Ball>
    decreases positions.len(),
{
    if positions.len() == 0 {
        balls
    } else {
        after_spawn(after_spawns(balls, positions.drop_last()), positions.last())
    }
}

proof fn lemma_after_spawn(balls: Seq<Ball>, position: Position)
    ensures
        spawn_due(balls) ==> highest_id(after_spawn(balls, position)) == highest_id(balls) + 1
            && unowned_count(after_spawn(balls, position)) == unowned_count(balls) + 1,
        !spawn_due(balls) ==> after_spawn(balls, position) == balls,
{
    if spawn_due(balls) {
        let ball = spawned_ball(balls, position);
        assert(balls.push(ball).drop_last() == balls);
        lemma_unowned_count_push(balls, ball);
    }
}

proof fn lemma_after_spawns(balls: Seq<Ball>, positions: Seq<Position>)
    requires
        highest_id(balls) + positions.len() <= u32::MAX,
    ensures
        highest_id(after_spawns(balls, positions)) <= highest_id(balls) + positions.len(),
        unowned_count(after_spawns(balls, positions)) >= UNOWNED_FLOOR || unowned_count(
            after_spawns(balls, positions),
        ) >= unowned_count(balls) + positions.len(),
    decreases positions.len(),
{
    if positions.len() > 0 {
        lemma_after_spawns(balls, positions.drop_last());
        lemma_after_spawn(after_spawns(balls, positions.drop_last()), positions.last());
    }
}

/// The spawn floor. Where the unowned balls and the runs of the spawn
/// policy together number at least [`UNOWNED_FLOOR`], and the identities
/// do not run out, at least [`UNOWNED_FLOOR`] balls are unowned after the
/// runs. So one run restores the floor after one connection took a ball,
/// and three runs reach it from any registry.
pub proof fn law_spawn_floor(balls: Seq<Ball>, positions: Seq<Position>)
    requires
        unowned_count(balls) + positions.len() >= UNOWNED_FLOOR,
        highest_id(balls) + positions.len() <= u32::MAX,
    ensures
        unowned_count(after_spawns(balls, positions)) >= UNOWNED_FLOOR,
{
    lemma_after_spawns(balls, positions);
}

proof fn lemma_overwritten_keeps(balls: Seq<Ball>, message: Message)
    ensures
        overwritten(balls, message).len() == balls.len(),
        forall|j: int|
            0 <= j < balls.len() ==> (#[trigger] overwritten(balls, message)[j]).ownership
                == balls[j].ownership && overwritten(balls, message)[j].id() == balls[j].id(),
{
    match message {
        Message::Component(id, component) => {
            if has_id(balls, id) {
                let i = index_of(balls, id);
                assert(0 <= i < balls.len());
            }
        },
        _ => {},
    }
}

proof fn lemma_overwritten_all_keeps(balls: Seq<Ball>, messages: Seq<Inbound>)
    ensures
        overwritten_all(balls, messages).len() == balls.len(),
        forall|j: int|
            0 <= j < balls.len() ==> (#[trigger] overwritten_all(balls, messages)[j]).ownership
                == balls[j].ownership && overwritten_all(balls, messages)[j].id() == balls[j].id(),
    decreases messages.len(),
{
    if messages.len() > 0 {
        lemma_overwritten_all_keeps(balls, messages.drop_last());
        lemma_overwritten_keeps(
            overwritten_all(balls, messages.drop_last()),
            messages.last().message,
        );
    }
}

/// Nothing but connections lowers the number of unowned balls: wander
/// input, what clients report, the integrator's results and the
/// publishing pass leave it as it is, and a connection that ends does not
/// lower it.
pub proof fn law_unowned_count_kept(
    balls: Seq<Ball>,
    draws: Seq<TargetVelocity>,
    messages: Seq<Inbound>,
    velocities: Seq<Velocity>,
    positions: Seq<Position>,
    handle: u32,
)
    ensures
        unowned_count(with_wander(balls, draws)) == unowned_count(balls),
        unowned_count(overwritten_all(balls, messages)) == unowned_count(balls),
        unowned_count(with_velocities(balls, velocities)) == unowned_count(balls),
        unowned_count(with_positions(balls, positions)) == unowned_count(balls),
        unowned_count(all_published(balls)) == unowned_count(balls),
        unowned_count(released(balls, handle)) >= unowned_count(balls),
{
    lemma_unowned_count_same(with_wander(balls, draws), balls);
    lemma_overwritten_all_keeps(balls, messages);
    lemma_unowned_count_same(overwritten_all(balls, messages), balls);
    lemma_unowned_count_same(with_velocities(balls, velocities), balls);
    lemma_unowned_count_same(with_positions(balls, positions), balls);
    lemma_unowned_count_same(all_published(balls), balls);
    lemma_unowned_count_grows(balls, released(balls, handle));
}

proof fn lemma_unowned_count_grows(a: Seq<Ball>, b: Seq<Ball>)
    requires
        a.len() == b.len(),
        forall|j: int| 0 <= j < a.len() ==> !(#[trigger] a[j]).is_unowned() || b[j].is_unowned(),
    ensures
        unowned_count(a) <= unowned_count(b),
    decreases a.len(),
{
    if a.len() > 0 {
        assert forall|j: int| 0 <= j < a.drop_last().len() implies !(#[trigger] a.drop_last()[j]).is_unowned()
            || b.drop_last()[j].is_unowned() by {
            assert(!a[j].is_unowned() || b[j].is_unowned());
        }
        lemma_unowned_count_grows(a.drop_last(), b.drop_last());
        assert(!a[a.len() - 1].is_unowned() || b[a.len() - 1].is_unowned());
    }
}

/// Identities only grow. Every ball the spawn policy adds gets an identity
/// greater than that of every ball that was in the registry before it, the
/// balls that were there stay in their places, and so no identity is given
/// twice.
pub proof fn law_identities_increase(balls: Seq<Ball>, positions: Seq<Position>)
    ensures
        balls.len() <= after_spawns(balls, positions).len(),
        after_spawns(balls, positions).take(balls.len() as int) == balls,
        forall|i: int, j: int|
            0 <= i < j < after_spawns(balls, positions).len() && balls.len() <= j ==> (
            #[trigger] after_spawns(balls, positions)[i]).id().0 < (#[trigger] after_spawns(
                balls,
                positions,
            )[j]).id().0,
        distinct_ids(balls) ==> distinct_ids(after_spawns(balls, positions)),
    decreases positions.len(),
{
    let now = after_spawns(balls, positions);
    if positions.len() > 0 {
        let before = after_spawns(balls, positions.drop_last());
        law_identities_increase(balls, positions.drop_last());
        assert(before.take(balls.len() as int) == balls);
        if spawn_due(before) {
            let ball = spawned_ball(before, positions.last());
            assert(now == before.push(ball));
            assert(now.take(balls.len() as int) == before.take(balls.len() as int));
            assert forall|i: int, j: int|
                0 <= i < j < now.len() && balls.len() <= j implies (#[trigger] now[i]).id().0 < (
            #[trigger] now[j]).id().0 by {
                if j < before.len() {
                    assert(before[i].id().0 < before[j].id().0);
                } else {
                    lemma_highest_id(before, i);
                }
            }
            if distinct_ids(balls) {
                assert forall|i: int, j: int| 0 <= i < j < now.len() implies (#[trigger] now[i]).id() != (
                #[trigger] now[j]).id() by {
                    if j < before.len() {
                        assert(before[i].id() != before[j].id());
                    } else {
                        lemma_highest_id(before, i);
                    }
                }
            }
        } else {
            assert(now == before);
        }
    } else {
        assert(now.take(balls.len() as int) == balls);
    }
}

proof fn lemma_after_events_keeps(state: ServerState, events: Seq<NetworkEvent>)
    requires
        events_allowed(state, events),
    ensures
        identities(after_events(state, events).balls) == identities(state.balls),
    decreases events.len(),
{
    if events.len() > 0 {
        let before = after_events(state, events.drop_last());
        lemma_after_events_keeps(state, events.drop_last());
        match events.last() {
            NetworkEvent::Connected(handle) => {
                lemma_unowned_count_zero(before.balls);
                let i = choose|i: int|
                    0 <= i < before.balls.len() && (#[trigger] before.balls[i]).is_unowned();
                lemma_some_first_unowned(before.balls, i);
                let k = first_unowned(before.balls);
                assert(0 <= k < before.balls.len());
                assert(identities(assigned(before.balls, handle)) == identities(before.balls));
            },
            NetworkEvent::Disconnected(handle) => {
                assert(identities(released(before.balls, handle)) == identities(before.balls));
            },
        }
    }
}

proof fn lemma_some_first_unowned(balls: Seq<Ball>, i: int)
    requires
        0 <= i < balls.len(),
        balls[i].is_unowned(),
    ensures
        is_first_unowned(balls, first_unowned(balls)),
    decreases i,
{
    if exists|j: int| 0 <= j < i && (#[trigger] balls[j]).is_unowned() {
        let j = choose|j: int| 0 <= j < i && (#[trigger] balls[j]).is_unowned();
        lemma_some_first_unowned(balls, j);
    } else {
        assert(is_first_unowned(balls, i));
    }
}

/// Identities are never taken back or changed: but for the spawn policy,
/// which appends, every step of the server's tick leaves the sequence of
/// identities in the registry as it is.
pub proof fn law_identities_kept(
    state: ServerState,
    events: Seq<NetworkEvent>,
    draws: Seq<TargetVelocity>,
    messages: Seq<Inbound>,
    velocities: Seq<Velocity>,
    positions: Seq<Position>,
)
    requires
        events_allowed(state, events),
    ensures
        identities(after_events(state, events).balls) == identities(state.balls),
        identities(with_wander(state.balls, draws)) == identities(state.balls),
        identities(overwritten_all(state.balls, messages)) == identities(state.balls),
        identities(with_velocities(state.balls, velocities)) == identities(state.balls),
        identities(with_positions(state.balls, positions)) == identities(state.balls),
        identities(all_published(state.balls)) == identities(state.balls),
{
    lemma_after_events_keeps(state, events);
    lemma_overwritten_all_keeps(state.balls, messages);
    assert(identities(with_wander(state.balls, draws)) == identities(state.balls));
    assert(identities(overwritten_all(state.balls, messages)) == identities(state.balls));
    assert(identities(with_velocities(state.balls, velocities)) == identities(state.balls));
    assert(identities(with_positions(state.balls, positions)) == identities(state.balls));
    assert(identities(all_published(state.balls)) == identities(state.balls));
}

/// The number of new connections among `events`.
pub open spec fn connections(events: Seq<NetworkEvent>) -> nat
    decreases events.len(),
{
    if events.len() == 0 {
        0
    } else {
        connections(events.drop_last()) + if events.last() is Connected {
            1nat
        } else {
            0nat
        }
    }
}

proof fn lemma_first_unowned_exists(balls: Seq<Ball>)
    requires
        unowned_count(balls) > 0,
    ensures
        is_first_unowned(balls, first_unowned(balls)),
{
    lemma_unowned_count_zero(balls);
    let i = choose|i: int| 0 <= i < balls.len() && (#[trigger] balls[i]).is_unowned();
    lemma_some_first_unowned(balls, i);
}

proof fn lemma_after_events_counts(state: ServerState, events: Seq<NetworkEvent>)
    requires
        events_allowed(state, events),
    ensures
        unowned_count(after_events(state, events).balls) + connections(events) >= unowned_count(
            state.balls,
        ),
    decreases events.len(),
{
    if events.len() > 0 {
        let before = after_events(state, events.drop_last());
        lemma_after_events_counts(state, events.drop_last());
        match events.last() {
            NetworkEvent::Connected(handle) => {
                lemma_first_unowned_exists(before.balls);
                let i = first_unowned(before.balls);
                lemma_unowned_count_update(
                    before.balls,
                    i,
                    before.balls[i].with_ownership(Some(Ownership::NetworkHandle(handle))),
                );
            },
            NetworkEvent::Disconnected(handle) => {
                lemma_unowned_count_grows(before.balls, released(before.balls, handle));
            },
        }
    }
}

proof fn lemma_highest_id_same(a: Seq<Ball>, b: Seq<Ball>)
    requires
        identities(a) == identities(b),
    ensures
        highest_id(a) == highest_id(b),
    decreases a.len(),
{
    assert(a.len() == identities(a).len());
    assert(b.len() == identities(b).len());
    if a.len() > 0 {
        assert(identities(a.drop_last()) == identities(a).drop_last());
        assert(identities(b.drop_last()) == identities(b).drop_last());
        lemma_highest_id_same(a.drop_last(), b.drop_last());
        assert(a.last().id() == identities(a)[a.len() - 1]);
        assert(b.last().id() == identities(b)[b.len() - 1]);
    }
}

proof fn lemma_tick_keeps(
    state: ServerState,
    events: Seq<NetworkEvent>,
    spawn_at: Position,
    draws: Seq<TargetVelocity>,
    velocities: Seq<Velocity>,
    positions: Seq<Position>,
)
    requires
        events_allowed(state, events),
    ensures
        ({
            let spawned = after_spawn(after_events(state, events).balls, spawn_at);
            let ended = tick_ended(tick_begun(state, events, spawn_at, draws), velocities, positions);
            &&& identities(ended.balls) == identities(spawned)
            &&& unowned_count(ended.balls) == unowned_count(spawned)
        }),
{
    let served = after_events(state, events);
    let spawned = after_spawn(served.balls, spawn_at);
    let wandering = with_wander(spawned, draws);
    let net = served.net.with_received_all(Channel::Component(ComponentKind::Position));
    let first = inbound(served.net.peers, Channel::Component(ComponentKind::Position));
    let second = inbound(net.peers, Channel::Component(ComponentKind::TargetVelocity));
    let read = overwritten_all(wandering, first);
    let begun = overwritten_all(read, second);
    let moved = with_positions(with_velocities(begun, velocities), positions);
    let ended = all_published(moved);
    lemma_overwritten_all_keeps(wandering, first);
    lemma_overwritten_all_keeps(read, second);
    assert(identities(wandering) == identities(spawned));
    assert(identities(read) == identities(wandering));
    assert(identities(begun) == identities(read));
    assert(identities(ended) == identities(begun));
    lemma_unowned_count_same(wandering, spawned);
    lemma_unowned_count_same(read, wandering);
    lemma_unowned_count_same(begun, read);
    lemma_unowned_count_same(ended, begun);
}

/// The spawn floor, tick by tick. Let the unowned balls before a tick
/// number at least [`UNOWNED_FLOOR`] less one, not counting those that the
/// tick's new connections take, and let an identity be left to give. Then
/// at least [`UNOWNED_FLOOR`] balls are unowned after the tick. So a tick
/// without new connections keeps the floor once it is reached, and restores
/// it after a tick in which one connection took a ball.
pub proof fn law_floor_after_tick(
    state: ServerState,
    events: Seq<NetworkEvent>,
    spawn_at: Position,
    draws: Seq<TargetVelocity>,
    velocities: Seq<Velocity>,
    positions: Seq<Position>,
)
    requires
        events_allowed(state, events),
        unowned_count(state.balls) + 1 >= UNOWNED_FLOOR + connections(events),
        highest_id(state.balls) < u32::MAX,
    ensures
        unowned_count(
            tick_ended(tick_begun(state, events, spawn_at, draws), velocities, positions).balls,
        ) >= UNOWNED_FLOOR,
{
    let served = after_events(state, events);
    lemma_after_events_counts(state, events);
    lemma_after_events_keeps(state, events);
    lemma_highest_id_same(served.balls, state.balls);
    lemma_after_spawn(served.balls, spawn_at);
    lemma_tick_keeps(state, events, spawn_at, draws, velocities, positions);
}

/// Identities, tick by tick. A tick leaves every ball in its place under
/// its identity and adds at most one ball, whose identity is greater than
/// every identity the registry held before the tick.
pub proof fn law_identities_after_tick(
    state: ServerState,
    events: Seq<NetworkEvent>,
    spawn_at: Position,
    draws: Seq<TargetVelocity>,
    velocities: Seq<Velocity>,
    positions: Seq<Position>,
)
    requires
        events_allowed(state, events),
    ensures
        ({
            let before = identities(state.balls);
            let after = identities(
                tick_ended(tick_begun(state, events, spawn_at, draws), velocities, positions).balls,
            );
            &&& before.len() <= after.len() <= before.len() + 1
            &&& after.take(before.len() as int) == before
            &&& forall|i: int, j: int|
                0 <= i < before.len() <= j < after.len() ==> (#[trigger] before[i]).0 < (
                #[trigger] after[j]).0
        }),
{
    let served = after_events(state, events);
    let spawned = after_spawn(served.balls, spawn_at);
    let before = identities(state.balls);
    let after = identities(
        tick_ended(tick_begun(state, events, spawn_at, draws), velocities, positions).balls,
    );
    lemma_after_events_keeps(state, events);
    lemma_tick_keeps(state, events, spawn_at, draws, velocities, positions);
    lemma_after_spawn(served.balls, spawn_at);
    assert(after == identities(spawned));
    if spawn_due(served.balls) {
        assert(after == before.push(spawned_ball(served.balls, spawn_at).id()));
        assert(after.take(before.len() as int) == before);
        assert forall|i: int, j: int| 0 <= i < before.len() <= j < after.len() implies (
        #[trigger] before[i]).0 < (#[trigger] after[j]).0 by {
            lemma_highest_id(served.balls, i);
            assert(served.balls[i].id() == identities(served.balls)[i]);
        }
    } else {
        assert(after.take(before.len() as int) == before);
    }
}

} // verus!
