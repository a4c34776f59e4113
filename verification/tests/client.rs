use arugio::channels::network_channels_setup;
use arugio::client::{
    broadcast_local_changes, network_events, pointer_target, read_component_channel,
    read_server_message_channel,
};
use arugio::connection::{ConnectionManager, NetworkEvent};
use arugio::messages::{ClientMessage, Component, ComponentKind, Message, ServerMessage};
use arugio::model::{BallBundle, BallId, Position, TargetVelocity, Vec2, Velocity};
use arugio::registry::{Ball, BallRegistry, Ownership};

fn vec2(x: f32, y: f32) -> Vec2 {
    Vec2::from_bits(x.to_bits(), y.to_bits())
}

fn connected() -> ConnectionManager {
    let mut net = ConnectionManager::new(network_channels_setup());
    net.connect(0);
    net
}

fn welcome(net: &mut ConnectionManager, id: u32) {
    net.deliver(0, Message::Server(ServerMessage::Welcome(BallId(id))))
        .unwrap();
}

fn local_players(balls: &BallRegistry) -> Vec<u32> {
    (0..balls.len())
        .filter(|i| balls.ball(*i).ownership == Some(Ownership::LocalPlayer))
        .map(|i| balls.ball(i).bundle.ball_id.0)
        .collect()
}

fn client_with_local_ball(id: u32) -> (BallRegistry, ConnectionManager) {
    let mut balls = BallRegistry::new();
    let mut net = connected();
    welcome(&mut net, id);
    read_server_message_channel(&mut balls, &mut net);
    (balls, net)
}

#[test]
fn client_announces_itself_on_connection() {
    let mut net = connected();
    let events = net.take_events();
    assert_eq!(events, vec![NetworkEvent::Connected(0)]);
    network_events(&mut net, &events);
    assert_eq!(
        net.take_outgoing(0),
        vec![Message::Client(ClientMessage::Hello)]
    );
}

#[test]
fn client_says_nothing_on_disconnection() {
    let mut net = connected();
    net.connect(1);
    network_events(
        &mut net,
        &vec![NetworkEvent::Disconnected(5), NetworkEvent::Connected(1)],
    );
    assert_eq!(net.take_outgoing(0), vec![]);
    assert_eq!(
        net.take_outgoing(1),
        vec![Message::Client(ClientMessage::Hello)]
    );
}

#[test]
fn welcome_creates_the_ball_and_marks_it() {
    let (balls, _) = client_with_local_ball(1);
    assert_eq!(balls.len(), 1);
    let ball = balls.ball(0);
    assert_eq!(ball.bundle, BallBundle::new(BallId(1)));
    assert_eq!(ball.ownership, Some(Ownership::LocalPlayer));
    assert_eq!(balls.local_player(), Some(0));
}

#[test]
fn welcome_marks_a_ball_the_client_already_holds() {
    let mut balls = BallRegistry::new();
    let mut net = connected();
    let p = Position(vec2(3.0, 4.0));
    net.deliver(0, Message::Component(BallId(1), Component::Position(p)))
        .unwrap();
    net.deliver(0, Message::Component(BallId(2), Component::Position(p)))
        .unwrap();
    read_component_channel(&mut balls, &mut net, ComponentKind::Position);
    welcome(&mut net, 2);
    read_server_message_channel(&mut balls, &mut net);
    assert_eq!(balls.len(), 2);
    assert_eq!(balls.ball(0).ownership, None);
    assert_eq!(balls.ball(1).ownership, Some(Ownership::LocalPlayer));
    assert_eq!(balls.ball(1).bundle.position, p);
    assert_eq!(balls.ball(1).bundle.ball_id, BallId(2));
}

#[test]
fn at_most_one_ball_is_the_local_players() {
    let mut balls = BallRegistry::new();
    let mut net = connected();
    for id in [1, 2, 1, 3, 3, 2] {
        welcome(&mut net, id);
        read_server_message_channel(&mut balls, &mut net);
        assert_eq!(local_players(&balls), vec![id]);
    }
    assert_eq!(balls.len(), 3);
}

#[test]
fn welcomes_of_one_tick_leave_the_last_one_marked() {
    let mut balls = BallRegistry::new();
    let mut net = connected();
    welcome(&mut net, 4);
    welcome(&mut net, 5);
    welcome(&mut net, 6);
    read_server_message_channel(&mut balls, &mut net);
    assert_eq!(local_players(&balls), vec![6]);
    assert_eq!(balls.len(), 3);
    assert_eq!(balls.ball(0).bundle.ball_id, BallId(4));
    assert_eq!(balls.ball(0).ownership, None);
}

#[test]
fn repeated_welcome_keeps_the_ball_as_it_is() {
    let (mut balls, mut net) = client_with_local_ball(1);
    let t = TargetVelocity(vec2(0.5, 0.5));
    pointer_target(&mut balls, true, &vec![t]);
    welcome(&mut net, 1);
    read_server_message_channel(&mut balls, &mut net);
    assert_eq!(balls.len(), 1);
    assert_eq!(balls.ball(0).bundle.target_velocity, t);
    assert_eq!(local_players(&balls), vec![1]);
}

#[test]
fn first_sighting_creates_an_unowned_ball() {
    let mut balls = BallRegistry::new();
    let mut net = connected();
    let t = TargetVelocity(vec2(0.5, -0.5));
    let v = Velocity(vec2(1.5, 2.5));
    net.deliver(0, Message::Component(BallId(9), Component::TargetVelocity(t)))
        .unwrap();
    net.deliver(0, Message::Component(BallId(8), Component::Velocity(v)))
        .unwrap();
    read_component_channel(&mut balls, &mut net, ComponentKind::TargetVelocity);
    read_component_channel(&mut balls, &mut net, ComponentKind::Velocity);
    assert_eq!(balls.len(), 2);
    let first = balls.ball(0);
    assert_eq!(first.bundle.ball_id, BallId(9));
    assert_eq!(first.bundle.target_velocity, t);
    assert_eq!(first.bundle.position, Position(Vec2::zero()));
    assert_eq!(first.bundle.velocity, Velocity(Vec2::zero()));
    assert_eq!(first.ownership, None);
    let second = balls.ball(1);
    assert_eq!(second.bundle.ball_id, BallId(8));
    assert_eq!(second.bundle.velocity, v);
    assert_eq!(second.ownership, None);
}

#[test]
fn update_for_a_known_ball_overwrites_the_component() {
    let mut balls = BallRegistry::new();
    let mut net = connected();
    let first = Position(vec2(1.0, 1.0));
    let second = Position(vec2(2.0, 2.0));
    net.deliver(0, Message::Component(BallId(9), Component::Position(first)))
        .unwrap();
    net.deliver(0, Message::Component(BallId(9), Component::Position(second)))
        .unwrap();
    read_component_channel(&mut balls, &mut net, ComponentKind::Position);
    assert_eq!(balls.len(), 1);
    assert_eq!(balls.ball(0).bundle.position, second);
}

#[test]
fn update_for_the_local_players_ball_is_discarded() {
    let (mut balls, mut net) = client_with_local_ball(1);
    let mine = TargetVelocity(vec2(1.0, 0.0));
    pointer_target(&mut balls, true, &vec![mine]);
    let echo = TargetVelocity(vec2(-1.0, 0.0));
    let p = Position(vec2(5.0, 5.0));
    net.deliver(0, Message::Component(BallId(1), Component::TargetVelocity(echo)))
        .unwrap();
    net.deliver(0, Message::Component(BallId(1), Component::Position(p)))
        .unwrap();
    net.deliver(0, Message::Component(BallId(2), Component::Position(p)))
        .unwrap();
    read_component_channel(&mut balls, &mut net, ComponentKind::TargetVelocity);
    read_component_channel(&mut balls, &mut net, ComponentKind::Position);
    assert_eq!(balls.ball(0).bundle.target_velocity, mine);
    assert_eq!(balls.ball(0).bundle.position, Position(Vec2::zero()));
    assert_eq!(balls.len(), 2);
    assert_eq!(balls.ball(1).bundle.position, p);
}

#[test]
fn pointer_sets_the_target_of_the_local_players_ball_only() {
    let (mut balls, mut net) = client_with_local_ball(2);
    net.deliver(
        0,
        Message::Component(BallId(1), Component::Position(Position(Vec2::zero()))),
    )
    .unwrap();
    read_component_channel(&mut balls, &mut net, ComponentKind::Position);
    let moves = vec![
        TargetVelocity(vec2(0.1, 0.0)),
        TargetVelocity(vec2(0.2, 0.0)),
        TargetVelocity(vec2(0.3, 0.0)),
    ];
    pointer_target(&mut balls, true, &moves);
    assert_eq!(balls.ball(0).bundle.ball_id, BallId(2));
    assert_eq!(balls.ball(0).bundle.target_velocity, moves[2]);
    assert_eq!(balls.ball(1).bundle.target_velocity, TargetVelocity(Vec2::zero()));
}

#[test]
fn held_button_without_a_move_keeps_the_target() {
    let (mut balls, _) = client_with_local_ball(1);
    let t = TargetVelocity(vec2(0.7, 0.1));
    pointer_target(&mut balls, true, &vec![t]);
    pointer_target(&mut balls, true, &vec![]);
    assert_eq!(balls.ball(0).bundle.target_velocity, t);
}

#[test]
fn released_button_resets_the_target_to_zero() {
    let (mut balls, _) = client_with_local_ball(1);
    let t = TargetVelocity(vec2(0.7, 0.1));
    pointer_target(&mut balls, true, &vec![t]);
    pointer_target(&mut balls, false, &vec![TargetVelocity(vec2(0.9, 0.9))]);
    assert_eq!(balls.ball(0).bundle.target_velocity, TargetVelocity(Vec2::zero()));
    pointer_target(&mut balls, false, &vec![]);
    assert_eq!(balls.ball(0).bundle.target_velocity, TargetVelocity(Vec2::zero()));
}

#[test]
fn pointer_without_a_local_player_changes_nothing() {
    let mut balls = BallRegistry::new();
    balls.insert(Ball::fresh(BallBundle::new(BallId(1))));
    pointer_target(&mut balls, true, &vec![TargetVelocity(vec2(1.0, 0.0))]);
    pointer_target(&mut balls, false, &vec![]);
    assert_eq!(balls.ball(0), Ball::fresh(BallBundle::new(BallId(1))));
    let mut empty = BallRegistry::new();
    pointer_target(&mut empty, true, &vec![TargetVelocity(vec2(1.0, 0.0))]);
    assert_eq!(empty.len(), 0);
}

#[test]
fn deadzone_pointer_yields_zero_target() {
    let deadzone: f32 = 30.0;
    let offset: (f32, f32) = (6.0, -8.0);
    let length = (offset.0 * offset.0 + offset.1 * offset.1).sqrt();
    assert_eq!(length, 10.0);
    let power = 1.0 - (deadzone / length).min(1.0);
    assert_eq!(power, 0.0);
    let target = TargetVelocity(vec2(offset.0 / length * power, offset.1 / length * power));
    let (mut balls, mut net) = client_with_local_ball(1);
    broadcast_local_changes(&mut balls, &mut net);
    net.take_outgoing(0);
    pointer_target(&mut balls, true, &vec![target]);
    let stored = balls.ball(0).bundle.target_velocity.0;
    let (x, y) = (f32::from_bits(stored.x), f32::from_bits(stored.y));
    let magnitude = (x * x + y * y).sqrt();
    assert_eq!(magnitude, 0.0);
    assert!(magnitude >= 0.0);
}

#[test]
fn only_the_local_players_changes_are_sent() {
    let (mut balls, mut net) = client_with_local_ball(1);
    let p = Position(vec2(5.0, 5.0));
    net.deliver(0, Message::Component(BallId(2), Component::Position(p)))
        .unwrap();
    read_component_channel(&mut balls, &mut net, ComponentKind::Position);
    broadcast_local_changes(&mut balls, &mut net);
    assert_eq!(
        net.take_outgoing(0),
        vec![
            Message::Component(
                BallId(1),
                Component::TargetVelocity(TargetVelocity(Vec2::zero()))
            ),
            Message::Component(BallId(1), Component::Position(Position(Vec2::zero()))),
        ]
    );
    broadcast_local_changes(&mut balls, &mut net);
    assert_eq!(net.take_outgoing(0), vec![]);
    let t = TargetVelocity(vec2(0.5, 0.0));
    for _ in 0..3 {
        pointer_target(&mut balls, true, &vec![t]);
        broadcast_local_changes(&mut balls, &mut net);
    }
    assert_eq!(
        net.take_outgoing(0),
        vec![Message::Component(BallId(1), Component::TargetVelocity(t))]
    );
}

#[test]
fn nothing_is_sent_without_a_local_player() {
    let mut balls = BallRegistry::new();
    let mut net = connected();
    let p = Position(vec2(5.0, 5.0));
    net.deliver(0, Message::Component(BallId(2), Component::Position(p)))
        .unwrap();
    read_component_channel(&mut balls, &mut net, ComponentKind::Position);
    broadcast_local_changes(&mut balls, &mut net);
    assert_eq!(net.take_outgoing(0), vec![]);
}
