//! The client's synchronisation loop: a mirror of the server's balls, of
//! which the client steers one.
//!
//! A tick has two halves with the integrator between them. [`begin_tick`]
//! announces the client on new connections, takes the server's welcomes,
//! mirrors what arrived about balls and reads the pointer. [`end_tick`]
//! stores what the integrator computed and tells the server what changed on
//! the local player's ball. Each step is also a function of its own.

use vstd::prelude::*;
use crate::connection::{inbound, ConnectionManager, Inbound, NetView, NetworkEvent};
use crate::messages::{Channel, ClientMessage, Component, ComponentKind, Message, ServerMessage};
use crate::model::{BallBundle, BallId, Position, TargetVelocity, Vec2, Velocity};
use crate::registry::{
    all_published, distinct_ids, first_local_player, has_id, has_local_player, index_of,
    is_first_local_player, lemma_index_of, lemma_local_player_count_none,
    lemma_local_player_count_push, lemma_local_player_count_same,
    lemma_local_player_count_update, local_player_count, pending_messages, with_positions,
    update_position_system, update_velocity_system,
    with_velocities, Ball, BallRegistry, Ownership,
};

verus! {

/// The message by which a client announces itself.
pub open spec fn hello() -> Message {
    Message::Client(ClientMessage::Hello)
}

/// Every connection that `events` report is known to `net`.
pub open spec fn connections_known(net: NetView, events: Seq<NetworkEvent>) -> bool {
    forall|k: int|
        0 <= k < events.len() ==> ((#[trigger] events[k]) matches NetworkEvent::Connected(handle)
            ==> net.has_peer(handle))
}

/// `net` after the client took `events`: it announced itself on every new
/// connection, in the order of the events.
pub open spec fn with_hellos(net: NetView, events: Seq<NetworkEvent>) -> NetView
    decreases events.len(),
{
    if events.len() == 0 {
        net
    } else {
        let before = with_hellos(net, events.drop_last());
        match events.last() {
            NetworkEvent::Connected(handle) => before.with_sent(handle, hello()),
            NetworkEvent::Disconnected(_) => before,
        }
    }
}

/// `balls` with the local-player marker taken off every ball that carries it.
pub open spec fn unmarked(balls: Seq<Ball>) -> Seq<Ball> {
    Seq::new(
        balls.len(),
        |i: int|
            if balls[i].is_local_player() {
                balls[i].with_ownership(None)
            } else {
                balls[i]
            },
    )
}

/// The ball a client makes up when it first hears of `id` through a welcome:
/// at rest at the origin, marked as the local player's.
pub open spec fn welcomed_ball(id: BallId) -> Ball {
    Ball::fresh(BallBundle::new(id)).with_ownership(Some(Ownership::LocalPlayer))
}

/// `balls` after the server said that this client steers the ball `id`:
/// that ball carries the local-player marker, made up at rest at the origin
/// if the client did not hold it, and no other ball carries the marker.
pub open spec fn welcomed(balls: Seq<Ball>, id: BallId) -> Seq<Ball> {
    let cleared = unmarked(balls);
    if has_id(balls, id) {
        let i = index_of(balls, id);
        cleared.update(i, cleared[i].with_ownership(Some(Ownership::LocalPlayer)))
    } else {
        cleared.push(welcomed_ball(id))
    }
}

/// `balls` after the client took `message` from the server's control
/// channel. A message that is no welcome changes nothing.
pub open spec fn after_server_message(balls: Seq<Ball>, message: Message) -> Seq<Ball> {
    match message {
        Message::Server(ServerMessage::Welcome(id)) => welcomed(balls, id),
        _ => balls,
    }
}

/// `balls` after the client took `messages` from the server's control
/// channel, one after the other.
pub open spec fn after_server_messages(balls: Seq<Ball>, messages: Seq<Inbound>) -> Seq<Ball>
    decreases messages.len(),
{
    if messages.len() == 0 {
        balls
    } else {
        after_server_message(
            after_server_messages(balls, messages.drop_last()),
            messages.last().message,
        )
    }
}

/// The ball a client makes up when it first hears of `id` through a
/// component message: at rest at the origin but for that component, steered
/// by nobody here.
pub open spec fn sighted_ball(id: BallId, component: Component) -> Ball {
    Ball::fresh(BallBundle::new(id)).with_component(component)
}

/// `balls` after the client took the component message `message`. What it
/// says of the local player's ball is discarded; of another ball the client
/// holds, the component is overwritten; of a ball the client does not hold,
/// the ball is made up. A message that carries no component changes nothing.
pub open spec fn mirrored(balls: Seq<Ball>, message: Message) -> Seq<Ball> {
    match message {
        Message::Component(id, component) => if has_id(balls, id) {
            let i = index_of(balls, id);
            if balls[i].is_local_player() {
                balls
            } else {
                balls.update(i, balls[i].with_component(component))
            }
        } else {
            balls.push(sighted_ball(id, component))
        },
        _ => balls,
    }
}

/// `balls` after the client took `messages`, one after the other.
pub open spec fn mirrored_all(balls: Seq<Ball>, messages: Seq<Inbound>) -> Seq<Ball>
    decreases messages.len(),
{
    if messages.len() == 0 {
        balls
    } else {
        mirrored(mirrored_all(balls, messages.drop_last()), messages.last().message)
    }
}

/// `balls` after the pointer was read. While the button is held, the last
/// of `targets`, the target velocities computed from the pointer's moves
/// during the tick, becomes the target velocity of the local player's ball;
/// without a move it stays. Once the button is up it is zero. No other ball
/// changes, and without a local player's ball none does.
pub open spec fn steered(balls: Seq<Ball>, mouse_down: bool, targets: Seq<TargetVelocity>) -> Seq<
    Ball,
> {
    if has_local_player(balls) {
        let i = first_local_player(balls);
        if !mouse_down {
            balls.update(i, balls[i].with_target_velocity(TargetVelocity(Vec2::zero())))
        } else if targets.len() > 0 {
            balls.update(i, balls[i].with_target_velocity(targets.last()))
        } else {
            balls
        }
    } else {
        balls
    }
}

/// Takes the connection events of this tick: on every new connection the
/// client announces itself, see [`with_hellos`].
pub fn network_events(net: &mut ConnectionManager, events: &Vec<NetworkEvent>)
    requires
        old(net).wf(),
        connections_known(old(net)@, events@),
    ensures
        final(net).wf(),
        final(net)@ == with_hellos(old(net)@, events@),
{
    let mut k: usize = 0;
    while k < events.len()
        invariant
            k <= events@.len(),
            net.wf(),
            net@ == with_hellos(old(net)@, events@.take(k as int)),
        decreases events@.len() - k,
    {
        assert(events@.take(k + 1).drop_last() == events@.take(k as int));
        match events[k] {
            NetworkEvent::Connected(handle) => {
                let _ = net.send_message(handle, Message::Client(ClientMessage::Hello));
            },
            NetworkEvent::Disconnected(_) => {},
        }
        k += 1;
    }
    assert(events@.take(k as int) == events@);
}

fn welcome_ball(balls: &mut BallRegistry, id: BallId)
    requires
        old(balls).wf(),
    ensures
        final(balls).wf(),
        final(balls)@ == welcomed(old(balls)@, id),
{
    let mut i: usize = 0;
    while i < balls.len()
        invariant
            i <= balls@.len(),
            balls@.len() == old(balls)@.len(),
            forall|j: int| 0 <= j < i ==> (#[trigger] balls@[j]) == unmarked(old(balls)@)[j],
            forall|j: int| i <= j < balls@.len() ==> (#[trigger] balls@[j]) == old(balls)@[j],
        decreases balls@.len() - i,
    {
        if balls.ball(i).ownership == Some(Ownership::LocalPlayer) {
            balls.set_ownership(i, None);
        }
        i += 1;
    }
    assert(balls@ == unmarked(old(balls)@));
    assert(balls.wf()) by {
        assert forall|a: int, b: int| 0 <= a < b < balls@.len() implies (#[trigger] balls@[a]).id() != (
        #[trigger] balls@[b]).id() by {
            assert(old(balls)@[a].id() != old(balls)@[b].id());
        }
    }
    match balls.find(id) {
        Some(i) => {
            proof {
                assert(old(balls)@[i as int].id() == id);
                lemma_index_of(old(balls)@, i as int);
            }
            balls.set_ownership(i, Some(Ownership::LocalPlayer));
        },
        None => {
            proof {
                if has_id(old(balls)@, id) {
                    let j = index_of(old(balls)@, id);
                    assert(balls@[j].id() == id);
                }
            }
            let _ = balls.insert(
                Ball {
                    bundle: BallBundle::new(id),
                    ownership: Some(Ownership::LocalPlayer),
                    published_position: None,
                    published_target_velocity: None,
                },
            );
        },
    }
}

/// Reads the server's control channel: every welcome moves the local-player
/// marker to the ball it names, see [`welcomed`].
pub fn read_server_message_channel(balls: &mut BallRegistry, net: &mut ConnectionManager)
    requires
        old(balls).wf(),
    ensures
        final(balls).wf(),
        old(net).wf() ==> final(net).wf(),
        final(net)@ == old(net)@.with_received_all(Channel::ServerMessage),
        final(balls)@ == after_server_messages(
            old(balls)@,
            inbound(old(net)@.peers, Channel::ServerMessage),
        ),
{
    let messages = net.receive_from_all(Channel::ServerMessage);
    let mut k: usize = 0;
    while k < messages.len()
        invariant
            k <= messages@.len(),
            balls.wf(),
            balls@ == after_server_messages(old(balls)@, messages@.take(k as int)),
        decreases messages@.len() - k,
    {
        assert(messages@.take(k + 1).drop_last() == messages@.take(k as int));
        match messages[k].message {
            Message::Server(ServerMessage::Welcome(id)) => {
                welcome_ball(balls, id);
            },
            _ => {},
        }
        k += 1;
    }
    assert(messages@.take(k as int) == messages@);
}

/// Reads what arrived of one component type and mirrors it, peer after
/// peer: see [`mirrored_all`].
pub fn read_component_channel(
    balls: &mut BallRegistry,
    net: &mut ConnectionManager,
    kind: ComponentKind,
)
    requires
        old(balls).wf(),
    ensures
        final(balls).wf(),
        old(net).wf() ==> final(net).wf(),
        final(net)@ == old(net)@.with_received_all(Channel::Component(kind)),
        final(balls)@ == mirrored_all(
            old(balls)@,
            inbound(old(net)@.peers, Channel::Component(kind)),
        ),
{
    let messages = net.receive_from_all(Channel::Component(kind));
    let mut k: usize = 0;
    while k < messages.len()
        invariant
            k <= messages@.len(),
            balls.wf(),
            balls@ == mirrored_all(old(balls)@, messages@.take(k as int)),
        decreases messages@.len() - k,
    {
        assert(messages@.take(k + 1).drop_last() == messages@.take(k as int));
        match messages[k].message {
            Message::Component(id, component) => {
                match balls.find(id) {
                    Some(i) => {
                        if balls.ball(i).ownership != Some(Ownership::LocalPlayer) {
                            balls.set_component(i, component);
                        }
                    },
                    None => {
                        let mut ball = Ball::fresh(BallBundle::new(id));
                        match component {
                            Component::Position(p) => {
                                ball.bundle.position = p;
                            },
                            Component::Velocity(v) => {
                                ball.bundle.velocity = v;
                            },
                            Component::TargetVelocity(t) => {
                                ball.bundle.target_velocity = t;
                            },
                        }
                        let _ = balls.insert(ball);
                    },
                }
            },
            _ => {},
        }
        k += 1;
    }
    assert(messages@.take(k as int) == messages@);
}

/// Turns pointer input into the target velocity of the local player's ball:
/// see [`steered`]. `targets` holds one target velocity per move of the
/// pointer during the tick, oldest first.
pub fn pointer_target(balls: &mut BallRegistry, mouse_down: bool, targets: &Vec<TargetVelocity>)
    ensures
        final(balls)@ == steered(old(balls)@, mouse_down, targets@),
        old(balls).wf() ==> final(balls).wf(),
{
    match balls.local_player() {
        Some(i) => {
            if !mouse_down {
                balls.set_component(i, Component::TargetVelocity(TargetVelocity(Vec2::zero())));
            } else if targets.len() > 0 {
                balls.set_component(i, Component::TargetVelocity(targets[targets.len() - 1]));
            }
        },
        None => {},
    }
}

/// The publishing pass: sends the server the target velocity, then the
/// position, of the local player's ball where that component differs from
/// what was published last. No other ball is spoken of.
pub fn broadcast_local_changes(balls: &mut BallRegistry, net: &mut ConnectionManager)
    ensures
        final(balls)@ == all_published(old(balls)@),
        final(net)@ == old(net)@.with_broadcasts(pending_messages(old(balls)@, true)),
        old(balls).wf() ==> final(balls).wf(),
        old(net).wf() ==> final(net).wf(),
{
    let messages = balls.take_changes(true);
    let mut k: usize = 0;
    while k < messages.len()
        invariant
            k <= messages@.len(),
            old(net).wf() ==> net.wf(),
            net@ == old(net)@.with_broadcasts(messages@.take(k as int)),
        decreases messages@.len() - k,
    {
        assert(messages@.take(k + 1).drop_last() == messages@.take(k as int));
        let _ = net.broadcast_message(messages[k]);
        k += 1;
    }
    assert(messages@.take(k as int) == messages@);
}

/// What the client's loop works on: its balls and its connections.
pub struct ClientState {
    pub balls: Seq<Ball>,
    pub net: NetView,
}

/// `state` after the messages of one component type were read and mirrored.
pub open spec fn after_components(state: ClientState, kind: ComponentKind) -> ClientState {
    ClientState {
        balls: mirrored_all(state.balls, inbound(state.net.peers, Channel::Component(kind))),
        net: state.net.with_received_all(Channel::Component(kind)),
    }
}

/// `state` after the first half of a tick, which takes in what came from
/// outside: the connection events, then the server's welcomes, then what
/// arrived of positions, of velocities and of target velocities, then the
/// pointer.
pub open spec fn tick_begun(
    state: ClientState,
    events: Seq<NetworkEvent>,
    mouse_down: bool,
    targets: Seq<TargetVelocity>,
) -> ClientState {
    let announced = with_hellos(state.net, events);
    let welcomed = ClientState {
        balls: after_server_messages(state.balls, inbound(announced.peers, Channel::ServerMessage)),
        net: announced.with_received_all(Channel::ServerMessage),
    };
    let mirrored = after_components(
        after_components(
            after_components(welcomed, ComponentKind::Position),
            ComponentKind::Velocity,
        ),
        ComponentKind::TargetVelocity,
    );
    ClientState { balls: steered(mirrored.balls, mouse_down, targets), net: mirrored.net }
}

/// `state` after the second half of a tick, which stores the integrator's
/// results and runs the publishing pass for the local player's ball.
pub open spec fn tick_ended(
    state: ClientState,
    velocities: Seq<Velocity>,
    positions: Seq<Position>,
) -> ClientState {
    let moved = with_positions(with_velocities(state.balls, velocities), positions);
    ClientState {
        balls: all_published(moved),
        net: state.net.with_broadcasts(pending_messages(moved, true)),
    }
}

/// The first half of a tick, see [`tick_begun`]. The integrator runs on
/// the registry as this leaves it.
pub fn begin_tick(
    balls: &mut BallRegistry,
    net: &mut ConnectionManager,
    events: &Vec<NetworkEvent>,
    mouse_down: bool,
    targets: &Vec<TargetVelocity>,
)
    requires
        old(balls).wf(),
        old(net).wf(),
        connections_known(old(net)@, events@),
    ensures
        final(balls).wf(),
        final(net).wf(),
        (ClientState { balls: final(balls)@, net: final(net)@ }) == tick_begun(
            ClientState { balls: old(balls)@, net: old(net)@ },
            events@,
            mouse_down,
            targets@,
        ),
{
    network_events(net, events);
    read_server_message_channel(balls, net);
    read_component_channel(balls, net, ComponentKind::Position);
    read_component_channel(balls, net, ComponentKind::Velocity);
    read_component_channel(balls, net, ComponentKind::TargetVelocity);
    pointer_target(balls, mouse_down, targets);
}

/// The second half of a tick, see [`tick_ended`]. `velocities` and
/// `positions` hold what the integrator computed, ball by ball.
pub fn end_tick(
    balls: &mut BallRegistry,
    net: &mut ConnectionManager,
    velocities: &Vec<Velocity>,
    positions: &Vec<Position>,
)
    ensures
        old(balls).wf() ==> final(balls).wf(),
        old(net).wf() ==> final(net).wf(),
        (ClientState { balls: final(balls)@, net: final(net)@ }) == tick_ended(
            ClientState { balls: old(balls)@, net: old(net)@ },
            velocities@,
            positions@,
        ),
{
    update_velocity_system(balls, velocities);
    update_position_system(balls, positions);
    broadcast_local_changes(balls, net);
}

/// After a welcome the ball it names, and no other, carries the
/// local-player marker, whatever the registry held before.
pub proof fn law_welcome_marks_one(balls: Seq<Ball>, id: BallId)
    requires
        distinct_ids(balls),
    ensures
        distinct_ids(welcomed(balls, id)),
        local_player_count(welcomed(balls, id)) == 1,
        has_id(welcomed(balls, id), id),
        welcomed(balls, id)[index_of(welcomed(balls, id), id)].is_local_player(),
{
    let cleared = unmarked(balls);
    let now = welcomed(balls, id);
    let marked = Some(Ownership::LocalPlayer);
    lemma_local_player_count_none(cleared);
    if has_id(balls, id) {
        let i = index_of(balls, id);
        lemma_local_player_count_update(cleared, i, cleared[i].with_ownership(marked));
        assert forall|a: int, b: int| 0 <= a < b < now.len() implies (#[trigger] now[a]).id() != (
        #[trigger] now[b]).id() by {
            assert(balls[a].id() != balls[b].id());
        }
        assert(now[i].id() == id);
        lemma_index_of(now, i);
    } else {
        lemma_local_player_count_push(cleared, welcomed_ball(id));
        assert forall|a: int, b: int| 0 <= a < b < now.len() implies (#[trigger] now[a]).id() != (
        #[trigger] now[b]).id() by {
            if b < balls.len() {
                assert(balls[a].id() != balls[b].id());
            } else {
                assert(balls[a].id() != id);
            }
        }
        assert(now[balls.len() as int].id() == id);
        lemma_index_of(now, balls.len() as int);
    }
}

/// Ownership is exclusive. Whatever welcomes arrive, in whatever order, a
/// client that had at most one ball with the local-player marker has at
/// most one afterwards, and exactly one once a welcome arrived.
pub proof fn law_one_local_player(balls: Seq<Ball>, messages: Seq<Inbound>)
    requires
        distinct_ids(balls),
        local_player_count(balls) <= 1,
    ensures
        distinct_ids(after_server_messages(balls, messages)),
        local_player_count(after_server_messages(balls, messages)) <= 1,
    decreases messages.len(),
{
    if messages.len() > 0 {
        let before = after_server_messages(balls, messages.drop_last());
        law_one_local_player(balls, messages.drop_last());
        match messages.last().message {
            Message::Server(ServerMessage::Welcome(id)) => {
                law_welcome_marks_one(before, id);
            },
            _ => {},
        }
    }
}

proof fn lemma_mirrored_keeps(balls: Seq<Ball>, message: Message)
    ensures
        local_player_count(mirrored(balls, message)) == local_player_count(balls),
{
    match message {
        Message::Component(id, component) => {
            if has_id(balls, id) {
                let i = index_of(balls, id);
                assert(0 <= i < balls.len());
                lemma_local_player_count_same(mirrored(balls, message), balls);
            } else {
                lemma_local_player_count_push(balls, sighted_ball(id, component));
            }
        },
        _ => {},
    }
}

proof fn lemma_mirrored_all_keeps(balls: Seq<Ball>, messages: Seq<Inbound>)
    ensures
        local_player_count(mirrored_all(balls, messages)) == local_player_count(balls),
    decreases messages.len(),
{
    if messages.len() > 0 {
        lemma_mirrored_all_keeps(balls, messages.drop_last());
        lemma_mirrored_keeps(mirrored_all(balls, messages.drop_last()), messages.last().message);
    }
}

proof fn lemma_some_first_local_player(balls: Seq<Ball>, i: int)
    requires
        0 <= i < balls.len(),
        balls[i].is_local_player(),
    ensures
        is_first_local_player(balls, first_local_player(balls)),
    decreases i,
{
    if exists|j: int| 0 <= j < i && (#[trigger] balls[j]).is_local_player() {
        let j = choose|j: int| 0 <= j < i && (#[trigger] balls[j]).is_local_player();
        lemma_some_first_local_player(balls, j);
    } else {
        assert(is_first_local_player(balls, i));
    }
}

/// Only welcomes move the local-player marker: mirroring what arrived,
/// reading the pointer, the integrator's results and the publishing pass
/// leave the number of balls that carry it as it is.
pub proof fn law_local_player_kept(
    balls: Seq<Ball>,
    messages: Seq<Inbound>,
    mouse_down: bool,
    targets: Seq<TargetVelocity>,
    velocities: Seq<Velocity>,
    positions: Seq<Position>,
)
    ensures
        local_player_count(mirrored_all(balls, messages)) == local_player_count(balls),
        local_player_count(steered(balls, mouse_down, targets)) == local_player_count(balls),
        local_player_count(with_velocities(balls, velocities)) == local_player_count(balls),
        local_player_count(with_positions(balls, positions)) == local_player_count(balls),
        local_player_count(all_published(balls)) == local_player_count(balls),
{
    lemma_mirrored_all_keeps(balls, messages);
    if has_local_player(balls) {
        let i = choose|i: int| 0 <= i < balls.len() && (#[trigger] balls[i]).is_local_player();
        lemma_some_first_local_player(balls, i);
        lemma_local_player_count_same(steered(balls, mouse_down, targets), balls);
    }
    lemma_local_player_count_same(with_velocities(balls, velocities), balls);
    lemma_local_player_count_same(with_positions(balls, positions), balls);
    lemma_local_player_count_same(all_published(balls), balls);
}

/// Ownership stays exclusive, tick by tick. A client that had at most one
/// ball with the local-player marker before a tick has at most one after
/// it, whatever arrived during the tick and whatever the pointer did.
pub proof fn law_one_local_player_after_tick(
    state: ClientState,
    events: Seq<NetworkEvent>,
    mouse_down: bool,
    targets: Seq<TargetVelocity>,
    velocities: Seq<Velocity>,
    positions: Seq<Position>,
)
    requires
        distinct_ids(state.balls),
        local_player_count(state.balls) <= 1,
    ensures
        local_player_count(
            tick_ended(tick_begun(state, events, mouse_down, targets), velocities, positions).balls,
        ) <= 1,
{
    let announced = with_hellos(state.net, events);
    let welcomes = inbound(announced.peers, Channel::ServerMessage);
    let welcomed = ClientState {
        balls: after_server_messages(state.balls, welcomes),
        net: announced.with_received_all(Channel::ServerMessage),
    };
    law_one_local_player(state.balls, welcomes);
    let first = after_components(welcomed, ComponentKind::Position);
    let second = after_components(first, ComponentKind::Velocity);
    let third = after_components(second, ComponentKind::TargetVelocity);
    law_local_player_kept(
        welcomed.balls,
        inbound(welcomed.net.peers, Channel::Component(ComponentKind::Position)),
        mouse_down,
        targets,
        velocities,
        positions,
    );
    law_local_player_kept(
        first.balls,
        inbound(first.net.peers, Channel::Component(ComponentKind::Velocity)),
        mouse_down,
        targets,
        velocities,
        positions,
    );
    law_local_player_kept(
        second.balls,
        inbound(second.net.peers, Channel::Component(ComponentKind::TargetVelocity)),
        mouse_down,
        targets,
        velocities,
        positions,
    );
    law_local_player_kept(third.balls, Seq::empty(), mouse_down, targets, velocities, positions);
    let begun = steered(third.balls, mouse_down, targets);
    law_local_player_kept(begun, Seq::empty(), mouse_down, targets, velocities, positions);
    let sped = with_velocities(begun, velocities);
    law_local_player_kept(sped, Seq::empty(), mouse_down, targets, velocities, positions);
    let moved = with_positions(sped, positions);
    law_local_player_kept(moved, Seq::empty(), mouse_down, targets, velocities, positions);
}

} // verus!
