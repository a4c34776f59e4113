//! What travels between peers, and on which logical channel.

use vstd::prelude::*;
use crate::model::{BallId, Position, TargetVelocity, Velocity};

verus! {

/// What a client tells the server on the reliable control channel.
#[derive(Clone, Copy, Debug, PartialEq, Eq, Structural)]
pub enum ClientMessage {
    /// The client announces itself.
    Hello,
}

/// What the server tells a client on the reliable control channel.
#[derive(Clone, Copy, Debug, PartialEq, Eq, Structural)]
pub enum ServerMessage {
    /// "You steer the ball with this identity."
    Welcome(BallId),
}

/// The replicated component types.
#[derive(Clone, Copy, Debug, PartialEq, Eq, Hash, Structural)]
pub enum ComponentKind {
    Position,
    Velocity,
    TargetVelocity,
}

/// A value of one of the replicated component types.
#[derive(Clone, Copy, Debug, PartialEq, Eq, Structural)]
pub enum Component {
    Position(Position),
    Velocity(Velocity),
    TargetVelocity(TargetVelocity),
}

impl Component {
    /// The component type of this value.
    pub open spec fn spec_kind(&self) -> ComponentKind {
        match *self {
            Component::Position(_) => ComponentKind::Position,
            Component::Velocity(_) => ComponentKind::Velocity,
            Component::TargetVelocity(_) => ComponentKind::TargetVelocity,
        }
    }

    /// The component type of this value.
    #[verifier::when_used_as_spec(spec_kind)]
    pub fn kind(&self) -> (r: ComponentKind)
        ensures
            r == self.spec_kind(),
    {
        match *self {
            Component::Position(_) => ComponentKind::Position,
            Component::Velocity(_) => ComponentKind::Velocity,
            Component::TargetVelocity(_) => ComponentKind::TargetVelocity,
        }
    }
}

/// A logical channel. There is one per message type: two reliable control
/// channels, one for each direction of the handshake, and one best-effort
/// channel per replicated component type.
#[derive(Clone, Copy, Debug, PartialEq, Eq, Hash, Structural)]
pub enum Channel {
    /// Client to server, carries [`ClientMessage`].
    ClientMessage,
    /// Server to client, carries [`ServerMessage`].
    ServerMessage,
    /// Either way, carries one component type tagged with a ball identity.
    Component(ComponentKind),
}

/// A message together with the channel it belongs to.
#[derive(Clone, Copy, Debug, PartialEq, Eq, Structural)]
pub enum Message {
    Client(ClientMessage),
    Server(ServerMessage),
    /// A component value of the ball with the given identity.
    Component(BallId, Component),
}

impl Message {
    /// The channel this message travels on.
    pub open spec fn spec_channel(&self) -> Channel {
        match *self {
            Message::Client(_) => Channel::ClientMessage,
            Message::Server(_) => Channel::ServerMessage,
            Message::Component(_, c) => Channel::Component(c.kind()),
        }
    }

    /// The channel this message travels on.
    #[verifier::when_used_as_spec(spec_channel)]
    pub fn channel(&self) -> (r: Channel)
        ensures
            r == self.spec_channel(),
    {
        match *self {
            Message::Client(_) => Channel::ClientMessage,
            Message::Server(_) => Channel::ServerMessage,
            Message::Component(_, c) => Channel::Component(c.kind()),
        }
    }
}

} // verus!
