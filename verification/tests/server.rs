use arugio::channels::network_channels_setup;
use arugio::connection::{ConnectionManager, Inbound, NetworkEvent};
use arugio::messages::{
    Channel, ClientMessage, Component, ComponentKind, Message, ServerMessage,
};
use arugio::model::{BallBundle, BallId, Position, TargetVelocity, Vec2, Velocity};
use arugio::registry::{Ball, BallRegistry, Ownership};
use arugio::server::{
    begin_tick, broadcast_changes_system, end_tick, handle_network_event, handle_network_events_system,
    network_events_allowed, read_component_channel_system, read_network_channels_system, spawn_ball_system,
    unowned_ball_input_system, UNOWNED_FLOOR,
};

fn vec2(x: f32, y: f32) -> Vec2 {
    Vec2::from_bits(x.to_bits(), y.to_bits())
}

fn manager() -> ConnectionManager {
    ConnectionManager::new(network_channels_setup())
}

fn three_balls() -> BallRegistry {
    let mut balls = BallRegistry::new();
    for i in 0..3 {
        spawn_ball_system(&mut balls, Position(vec2(i as f32, 0.0)));
    }
    balls
}

fn ids(balls: &BallRegistry) -> Vec<u32> {
    (0..balls.len()).map(|i| balls.ball(i).bundle.ball_id.0).collect()
}

#[test]
fn floor_is_three() {
    assert_eq!(UNOWNED_FLOOR, 3);
}

#[test]
fn spawn_adds_one_ball_per_run_up_to_the_floor() {
    let mut balls = BallRegistry::new();
    assert_eq!(
        spawn_ball_system(&mut balls, Position(vec2(1.0, -1.0))),
        Some(BallId(1))
    );
    assert_eq!(balls.len(), 1);
    assert_eq!(
        spawn_ball_system(&mut balls, Position(vec2(2.0, -2.0))),
        Some(BallId(2))
    );
    assert_eq!(
        spawn_ball_system(&mut balls, Position(vec2(3.0, -3.0))),
        Some(BallId(3))
    );
    assert_eq!(balls.unowned_count(), 3);
    assert_eq!(spawn_ball_system(&mut balls, Position(vec2(4.0, -4.0))), None);
    assert_eq!(balls.len(), 3);
    assert_eq!(ids(&balls), vec![1, 2, 3]);
}

#[test]
fn spawned_ball_rests_at_the_given_position() {
    let mut balls = BallRegistry::new();
    spawn_ball_system(&mut balls, Position(vec2(4.5, -2.5)));
    let ball = balls.ball(0);
    assert_eq!(ball.bundle.position, Position(vec2(4.5, -2.5)));
    assert_eq!(ball.bundle.velocity, Velocity(Vec2::zero()));
    assert_eq!(ball.bundle.target_velocity, TargetVelocity(Vec2::zero()));
    assert_eq!(ball.ownership, None);
    assert_eq!(ball.published_position, None);
    assert_eq!(ball.published_target_velocity, None);
}

#[test]
fn spawn_restores_the_floor_after_a_connection() {
    let mut balls = three_balls();
    let mut net = manager();
    net.connect(0);
    handle_network_event(&mut balls, &mut net, NetworkEvent::Connected(0));
    assert_eq!(balls.unowned_count(), 2);
    assert_eq!(
        spawn_ball_system(&mut balls, Position(Vec2::zero())),
        Some(BallId(4))
    );
    assert_eq!(balls.unowned_count(), 3);
}

#[test]
fn spawn_counts_owned_balls_when_it_picks_the_identity() {
    let mut balls = three_balls();
    let mut net = manager();
    for handle in 0..3 {
        net.connect(handle);
        handle_network_event(&mut balls, &mut net, NetworkEvent::Connected(handle));
    }
    assert_eq!(balls.unowned_count(), 0);
    assert_eq!(
        spawn_ball_system(&mut balls, Position(Vec2::zero())),
        Some(BallId(4))
    );
    assert_eq!(
        spawn_ball_system(&mut balls, Position(Vec2::zero())),
        Some(BallId(5))
    );
    assert_eq!(ids(&balls), vec![1, 2, 3, 4, 5]);
}

#[test]
fn identities_grow_and_are_not_given_twice() {
    let mut balls = BallRegistry::new();
    let mut net = manager();
    let mut given = Vec::new();
    for handle in 0..20 {
        if let Some(id) = spawn_ball_system(&mut balls, Position(Vec2::zero())) {
            given.push(id.0);
        }
        if handle % 2 == 0 && balls.unowned_count() > 0 {
            net.connect(handle);
            handle_network_event(&mut balls, &mut net, NetworkEvent::Connected(handle));
        }
        if handle % 5 == 4 {
            net.disconnect(handle - 4);
            handle_network_event(&mut balls, &mut net, NetworkEvent::Disconnected(handle - 4));
        }
    }
    assert!(given.len() > 3);
    for pair in given.windows(2) {
        assert!(pair[0] < pair[1]);
    }
    assert_eq!(ids(&balls), given);
}

#[test]
fn spawn_stops_when_identities_run_out() {
    let mut balls = BallRegistry::new();
    balls.insert(Ball::fresh(BallBundle::new(BallId(u32::MAX))));
    assert_eq!(spawn_ball_system(&mut balls, Position(Vec2::zero())), None);
    assert_eq!(balls.len(), 1);
    let mut balls = BallRegistry::new();
    balls.insert(Ball::fresh(BallBundle::new(BallId(u32::MAX - 1))));
    assert_eq!(
        spawn_ball_system(&mut balls, Position(Vec2::zero())),
        Some(BallId(u32::MAX))
    );
}

#[test]
fn connection_gets_the_first_unowned_ball_and_a_welcome() {
    let mut balls = three_balls();
    let mut net = manager();
    net.connect(11);
    net.connect(12);
    let got = handle_network_event(&mut balls, &mut net, NetworkEvent::Connected(12));
    assert_eq!(got, Some(BallId(1)));
    assert_eq!(balls.ball(0).ownership, Some(Ownership::NetworkHandle(12)));
    assert_eq!(balls.ball(1).ownership, None);
    assert_eq!(balls.ball(2).ownership, None);
    assert_eq!(
        net.take_outgoing(12),
        vec![Message::Server(ServerMessage::Welcome(BallId(1)))]
    );
    assert_eq!(net.take_outgoing(11), vec![]);
    let got = handle_network_event(&mut balls, &mut net, NetworkEvent::Connected(11));
    assert_eq!(got, Some(BallId(2)));
    assert_eq!(balls.ball(1).ownership, Some(Ownership::NetworkHandle(11)));
    assert_eq!(
        net.take_outgoing(11),
        vec![Message::Server(ServerMessage::Welcome(BallId(2)))]
    );
}

#[test]
fn disconnection_sets_the_ball_free_and_keeps_it() {
    let mut balls = three_balls();
    let mut net = manager();
    net.connect(0);
    net.connect(1);
    handle_network_event(&mut balls, &mut net, NetworkEvent::Connected(0));
    handle_network_event(&mut balls, &mut net, NetworkEvent::Connected(1));
    net.disconnect(0);
    let got = handle_network_event(&mut balls, &mut net, NetworkEvent::Disconnected(0));
    assert_eq!(got, None);
    assert_eq!(balls.len(), 3);
    assert_eq!(balls.ball(0).ownership, None);
    assert_eq!(balls.ball(1).ownership, Some(Ownership::NetworkHandle(1)));
    assert_eq!(balls.unowned_count(), 2);
}

#[test]
fn events_of_one_tick_are_taken_in_order() {
    let mut balls = three_balls();
    let mut net = manager();
    net.connect(5);
    net.connect(6);
    net.connect(7);
    net.disconnect(6);
    let events = net.take_events();
    assert_eq!(
        events,
        vec![
            NetworkEvent::Connected(5),
            NetworkEvent::Connected(6),
            NetworkEvent::Connected(7),
            NetworkEvent::Disconnected(6),
        ]
    );
    net.connect(6);
    net.take_events();
    handle_network_events_system(&mut balls, &mut net, &events);
    assert_eq!(balls.ball(0).ownership, Some(Ownership::NetworkHandle(5)));
    assert_eq!(balls.ball(1).ownership, None);
    assert_eq!(balls.ball(2).ownership, Some(Ownership::NetworkHandle(7)));
    assert_eq!(
        net.take_outgoing(5),
        vec![Message::Server(ServerMessage::Welcome(BallId(1)))]
    );
    assert_eq!(
        net.take_outgoing(6),
        vec![Message::Server(ServerMessage::Welcome(BallId(2)))]
    );
    assert_eq!(
        net.take_outgoing(7),
        vec![Message::Server(ServerMessage::Welcome(BallId(3)))]
    );
}

#[test]
fn no_events_change_nothing() {
    let mut balls = three_balls();
    let mut net = manager();
    handle_network_events_system(&mut balls, &mut net, &vec![]);
    assert_eq!(balls.unowned_count(), 3);
    assert_eq!(net.len(), 0);
}

#[test]
fn wander_input_goes_to_unowned_balls_only() {
    let mut balls = three_balls();
    let mut net = manager();
    net.connect(0);
    handle_network_event(&mut balls, &mut net, NetworkEvent::Connected(0));
    let draws = vec![
        TargetVelocity(vec2(0.1, -0.1)),
        TargetVelocity(vec2(0.2, -0.2)),
        TargetVelocity(vec2(0.3, -0.3)),
    ];
    unowned_ball_input_system(&mut balls, &draws);
    assert_eq!(balls.ball(0).bundle.target_velocity, TargetVelocity(Vec2::zero()));
    assert_eq!(balls.ball(1).bundle.target_velocity, draws[1]);
    assert_eq!(balls.ball(2).bundle.target_velocity, draws[2]);
}

#[test]
fn wander_input_that_runs_short_leaves_the_rest() {
    let mut balls = three_balls();
    unowned_ball_input_system(&mut balls, &vec![TargetVelocity(vec2(1.0, 1.0))]);
    assert_eq!(balls.ball(0).bundle.target_velocity, TargetVelocity(vec2(1.0, 1.0)));
    assert_eq!(balls.ball(1).bundle.target_velocity, TargetVelocity(Vec2::zero()));
    assert_eq!(balls.ball(2).bundle.target_velocity, TargetVelocity(Vec2::zero()));
}

#[test]
fn reported_components_overwrite_verbatim() {
    let mut balls = three_balls();
    let mut net = manager();
    net.connect(0);
    net.connect(1);
    let t = TargetVelocity(vec2(0.5, 0.0));
    let p = Position(vec2(100.0, -100.0));
    net.deliver(0, Message::Component(BallId(2), Component::TargetVelocity(t)))
        .unwrap();
    net.deliver(1, Message::Component(BallId(2), Component::Position(p)))
        .unwrap();
    read_component_channel_system(&mut balls, &mut net, ComponentKind::TargetVelocity);
    assert_eq!(balls.ball(1).bundle.target_velocity, t);
    assert_eq!(balls.ball(1).bundle.position, Position(vec2(1.0, 0.0)));
    read_component_channel_system(&mut balls, &mut net, ComponentKind::Position);
    assert_eq!(balls.ball(1).bundle.position, p);
    assert_eq!(balls.ball(0).bundle.position, Position(vec2(0.0, 0.0)));
    assert_eq!(balls.ball(2).bundle.position, Position(vec2(2.0, 0.0)));
}

#[test]
fn report_from_a_peer_that_does_not_own_the_ball_is_applied() {
    let mut balls = three_balls();
    let mut net = manager();
    net.connect(0);
    net.connect(1);
    handle_network_event(&mut balls, &mut net, NetworkEvent::Connected(0));
    let t = TargetVelocity(vec2(-1.0, 0.0));
    net.deliver(1, Message::Component(BallId(1), Component::TargetVelocity(t)))
        .unwrap();
    read_component_channel_system(&mut balls, &mut net, ComponentKind::TargetVelocity);
    assert_eq!(balls.ball(0).bundle.target_velocity, t);
}

#[test]
fn report_about_an_unknown_identity_is_passed_over() {
    let mut balls = three_balls();
    let mut net = manager();
    net.connect(0);
    let p = Position(vec2(9.0, 9.0));
    net.deliver(0, Message::Component(BallId(77), Component::Position(p)))
        .unwrap();
    read_component_channel_system(&mut balls, &mut net, ComponentKind::Position);
    assert_eq!(balls.len(), 3);
    for i in 0..3 {
        assert_eq!(balls.ball(i).bundle.position, Position(vec2(i as f32, 0.0)));
    }
    assert_eq!(
        net.receive_all(0, Channel::Component(ComponentKind::Position)),
        vec![]
    );
}

#[test]
fn later_report_wins() {
    let mut balls = three_balls();
    let mut net = manager();
    net.connect(0);
    net.connect(1);
    let first = Position(vec2(1.0, 1.0));
    let second = Position(vec2(2.0, 2.0));
    let third = Position(vec2(3.0, 3.0));
    net.deliver(1, Message::Component(BallId(3), Component::Position(third)))
        .unwrap();
    net.deliver(0, Message::Component(BallId(3), Component::Position(first)))
        .unwrap();
    net.deliver(0, Message::Component(BallId(3), Component::Position(second)))
        .unwrap();
    read_component_channel_system(&mut balls, &mut net, ComponentKind::Position);
    assert_eq!(balls.ball(2).bundle.position, third);
}

#[test]
fn reading_one_component_type_leaves_the_others_waiting() {
    let mut balls = three_balls();
    let mut net = manager();
    net.connect(0);
    let v = Velocity(vec2(7.0, 7.0));
    let p = Position(vec2(8.0, 8.0));
    net.deliver(0, Message::Component(BallId(1), Component::Velocity(v)))
        .unwrap();
    net.deliver(0, Message::Component(BallId(1), Component::Position(p)))
        .unwrap();
    read_component_channel_system(&mut balls, &mut net, ComponentKind::Velocity);
    assert_eq!(balls.ball(0).bundle.velocity, v);
    assert_eq!(balls.ball(0).bundle.position, Position(vec2(0.0, 0.0)));
    assert_eq!(
        net.receive_all(0, Channel::Component(ComponentKind::Position)),
        vec![Message::Component(BallId(1), Component::Position(p))]
    );
}

#[test]
fn announcements_are_read_with_their_sender() {
    let mut net = manager();
    net.connect(3);
    net.connect(4);
    net.deliver(4, Message::Client(ClientMessage::Hello)).unwrap();
    net.deliver(3, Message::Client(ClientMessage::Hello)).unwrap();
    let got = read_network_channels_system(&mut net);
    assert_eq!(
        got,
        vec![
            Inbound { from: 3, message: Message::Client(ClientMessage::Hello) },
            Inbound { from: 4, message: Message::Client(ClientMessage::Hello) },
        ]
    );
    assert_eq!(read_network_channels_system(&mut net), vec![]);
}

#[test]
fn changes_are_broadcast_to_every_peer_once() {
    let mut balls = three_balls();
    let mut net = manager();
    net.connect(0);
    net.connect(1);
    broadcast_changes_system(&mut balls, &mut net);
    let first = net.take_outgoing(0);
    assert_eq!(first.len(), 6);
    assert_eq!(net.take_outgoing(1), first);
    for i in 0..3 {
        let id = BallId(i as u32 + 1);
        assert_eq!(
            first[i],
            Message::Component(id, Component::TargetVelocity(TargetVelocity(Vec2::zero())))
        );
        assert_eq!(
            first[3 + i],
            Message::Component(id, Component::Position(Position(vec2(i as f32, 0.0))))
        );
    }
    broadcast_changes_system(&mut balls, &mut net);
    assert_eq!(net.take_outgoing(0), vec![]);
    assert_eq!(net.take_outgoing(1), vec![]);
    let t = TargetVelocity(vec2(0.25, 0.75));
    for _ in 0..4 {
        unowned_ball_input_system(&mut balls, &vec![TargetVelocity(Vec2::zero()), t]);
        broadcast_changes_system(&mut balls, &mut net);
    }
    let expected = vec![Message::Component(BallId(2), Component::TargetVelocity(t))];
    assert_eq!(net.take_outgoing(0), expected);
    assert_eq!(net.take_outgoing(1), expected);
}

#[test]
fn broadcast_without_peers_still_marks_balls_published() {
    let mut balls = three_balls();
    let mut net = manager();
    broadcast_changes_system(&mut balls, &mut net);
    net.connect(0);
    broadcast_changes_system(&mut balls, &mut net);
    assert_eq!(net.take_outgoing(0), vec![]);
}

#[test]
fn events_are_allowed_while_connections_find_a_ball() {
    let balls = three_balls();
    let mut net = manager();
    for handle in 0..5 {
        net.connect(handle);
    }
    let connected = |n: u32| -> Vec<NetworkEvent> {
        (0..n).map(NetworkEvent::Connected).collect()
    };
    assert!(network_events_allowed(&balls, &net, &vec![]));
    assert!(network_events_allowed(&balls, &net, &connected(3)));
    assert!(!network_events_allowed(&balls, &net, &connected(4)));
    let mut with_a_release = connected(3);
    with_a_release.push(NetworkEvent::Disconnected(1));
    with_a_release.push(NetworkEvent::Connected(3));
    assert!(network_events_allowed(&balls, &net, &with_a_release));
    with_a_release.push(NetworkEvent::Connected(4));
    assert!(!network_events_allowed(&balls, &net, &with_a_release));
    assert_eq!(balls.unowned_count(), 3);
}

#[test]
fn events_are_not_allowed_for_an_unknown_connection() {
    let balls = three_balls();
    let mut net = manager();
    net.connect(1);
    assert!(network_events_allowed(
        &balls,
        &net,
        &vec![NetworkEvent::Connected(1)]
    ));
    assert!(!network_events_allowed(
        &balls,
        &net,
        &vec![NetworkEvent::Connected(2)]
    ));
    assert!(network_events_allowed(
        &balls,
        &net,
        &vec![NetworkEvent::Disconnected(2)]
    ));
    assert!(!network_events_allowed(
        &BallRegistry::new(),
        &net,
        &vec![NetworkEvent::Connected(1)]
    ));
}

#[test]
fn duplicate_registry_holds_the_same_balls() {
    let mut balls = three_balls();
    let copy = balls.duplicate();
    assert_eq!(copy.len(), 3);
    for i in 0..3 {
        assert_eq!(copy.ball(i), balls.ball(i));
    }
    spawn_ball_system(&mut balls, Position(Vec2::zero()));
    unowned_ball_input_system(&mut balls, &vec![TargetVelocity(vec2(1.0, 1.0))]);
    assert_eq!(copy.ball(0).bundle.target_velocity, TargetVelocity(Vec2::zero()));
}

#[test]
fn floor_holds_after_every_tick_once_reached() {
    let mut balls = BallRegistry::new();
    let mut net = manager();
    for tick in 0..3 {
        begin_tick(&mut balls, &mut net, &vec![], Position(Vec2::zero()), &vec![]);
        end_tick(&mut balls, &mut net, &vec![], &vec![]);
        assert_eq!(balls.unowned_count(), tick + 1);
    }
    let mut next_ids = vec![];
    for tick in 0..12u32 {
        if tick % 2 == 0 {
            net.connect(tick);
        }
        if tick % 3 == 2 {
            net.disconnect(tick - 2);
        }
        let events = net.take_events();
        assert!(network_events_allowed(&balls, &net, &events));
        let before = balls.len();
        begin_tick(&mut balls, &mut net, &events, Position(Vec2::zero()), &vec![]);
        end_tick(&mut balls, &mut net, &vec![], &vec![]);
        assert!(balls.unowned_count() >= UNOWNED_FLOOR);
        assert!(balls.len() <= before + 1);
        if balls.len() > before {
            next_ids.push(balls.ball(before).bundle.ball_id.0);
        }
    }
    assert_eq!(next_ids, vec![4, 5, 6, 7]);
    assert_eq!(ids(&balls), vec![1, 2, 3, 4, 5, 6, 7]);
}
