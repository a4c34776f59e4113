//! The ball registry: every ball a peer knows, filed by identity, together
//! with what the peer last told others about it.

use vstd::prelude::*;
use crate::messages::{Component, Message};
use crate::model::{BallBundle, BallId, Position, TargetVelocity, Velocity};

verus! {

/// Who steers a ball.
#[derive(Clone, Copy, Debug, PartialEq, Eq, Structural)]
pub enum Ownership {
    /// On the server: the connection whose client steers the ball.
    NetworkHandle(u32),
    /// On a client: the ball this client steers.
    LocalPlayer,
}

/// A ball as a peer holds it: its components, who steers it, and the
/// position and target velocity last published to other peers (`None` while
/// nothing was published).
#[derive(Clone, Copy, Debug, PartialEq, Eq, Structural)]
pub struct Ball {
    pub bundle: BallBundle,
    pub ownership: Option<Ownership>,
    pub published_position: Option<Position>,
    pub published_target_velocity: Option<TargetVelocity>,
}

impl Ball {
    /// The ball's identity.
    pub open spec fn id(self) -> BallId {
        self.bundle.ball_id
    }

    /// A ball nobody steers and of which nothing was published yet.
    pub open spec fn spec_fresh(bundle: BallBundle) -> Ball {
        Ball {
            bundle,
            ownership: None,
            published_position: None,
            published_target_velocity: None,
        }
    }

    /// A ball nobody steers and of which nothing was published yet.
    #[verifier::when_used_as_spec(spec_fresh)]
    pub fn fresh(bundle: BallBundle) -> (r: Ball)
        ensures
            r == Ball::spec_fresh(bundle),
    {
        Ball {
            bundle,
            ownership: None,
            published_position: None,
            published_target_velocity: None,
        }
    }

    /// Nobody steers the ball.
    pub open spec fn is_unowned(self) -> bool {
        self.ownership is None
    }

    /// The ball is the one this client steers.
    pub open spec fn is_local_player(self) -> bool {
        self.ownership == Some(Ownership::LocalPlayer)
    }

    /// The position differs from the one last published.
    pub open spec fn position_changed(self) -> bool {
        self.published_position != Some(self.bundle.position)
    }

    /// The target velocity differs from the one last published.
    pub open spec fn target_velocity_changed(self) -> bool {
        self.published_target_velocity != Some(self.bundle.target_velocity)
    }

    /// The ball with its position replaced.
    pub open spec fn with_position(self, position: Position) -> Ball {
        Ball { bundle: BallBundle { position, ..self.bundle }, ..self }
    }

    /// The ball with its velocity replaced.
    pub open spec fn with_velocity(self, velocity: Velocity) -> Ball {
        Ball { bundle: BallBundle { velocity, ..self.bundle }, ..self }
    }

    /// The ball with its target velocity replaced.
    pub open spec fn with_target_velocity(self, target_velocity: TargetVelocity) -> Ball {
        Ball { bundle: BallBundle { target_velocity, ..self.bundle }, ..self }
    }

    /// The ball with one component replaced, whichever `component` is.
    pub open spec fn with_component(self, component: Component) -> Ball {
        match component {
            Component::Position(p) => self.with_position(p),
            Component::Velocity(v) => self.with_velocity(v),
            Component::TargetVelocity(t) => self.with_target_velocity(t),
        }
    }

    /// The ball with another owner, or none.
    pub open spec fn with_ownership(self, ownership: Option<Ownership>) -> Ball {
        Ball { ownership, ..self }
    }

    /// The ball once its present position and target velocity are published.
    pub open spec fn published(self) -> Ball {
        Ball {
            published_position: Some(self.bundle.position),
            published_target_velocity: Some(self.bundle.target_velocity),
            ..self
        }
    }

    /// The message that publishes the ball's position.
    pub open spec fn position_message(self) -> Message {
        Message::Component(self.id(), Component::Position(self.bundle.position))
    }

    /// The message that publishes the ball's target velocity.
    pub open spec fn target_velocity_message(self) -> Message {
        Message::Component(self.id(), Component::TargetVelocity(self.bundle.target_velocity))
    }
}

/// No identity occurs twice among `balls`.
pub open spec fn distinct_ids(balls: Seq<Ball>) -> bool {
    forall|i: int, j: int|
        0 <= i < j < balls.len() ==> (#[trigger] balls[i]).id() != (#[trigger] balls[j]).id()
}

/// Some ball among `balls` has the identity `id`.
pub open spec fn has_id(balls: Seq<Ball>, id: BallId) -> bool {
    exists|i: int| 0 <= i < balls.len() && (#[trigger] balls[i]).id() == id
}

/// The place of the ball with identity `id` among `balls`, where there is one.
pub open spec fn index_of(balls: Seq<Ball>, id: BallId) -> int {
    choose|i: int| 0 <= i < balls.len() && (#[trigger] balls[i]).id() == id
}

/// The number of balls among `balls` that nobody steers.
pub open spec fn unowned_count(balls: Seq<Ball>) -> nat
    decreases balls.len(),
{
    if balls.len() == 0 {
        0
    } else {
        unowned_count(balls.drop_last()) + if balls.last().is_unowned() {
            1nat
        } else {
            0nat
        }
    }
}

/// The number of balls among `balls` that carry the local-player marker.
pub open spec fn local_player_count(balls: Seq<Ball>) -> nat
    decreases balls.len(),
{
    if balls.len() == 0 {
        0
    } else {
        local_player_count(balls.drop_last()) + if balls.last().is_local_player() {
            1nat
        } else {
            0nat
        }
    }
}

/// The greatest identity among `balls`, and 0 where there is no ball.
pub open spec fn highest_id(balls: Seq<Ball>) -> nat
    decreases balls.len(),
{
    if balls.len() == 0 {
        0
    } else {
        let rest = highest_id(balls.drop_last());
        let last = balls.last().id().0 as nat;
        if last > rest {
            last
        } else {
            rest
        }
    }
}

/// `i` is the place of the first ball among `balls` that nobody steers.
pub open spec fn is_first_unowned(balls: Seq<Ball>, i: int) -> bool {
    &&& 0 <= i < balls.len()
    &&& balls[i].is_unowned()
    &&& forall|j: int| 0 <= j < i ==> !(#[trigger] balls[j]).is_unowned()
}

/// The place of the first ball among `balls` that nobody steers, where there
/// is one.
pub open spec fn first_unowned(balls: Seq<Ball>) -> int {
    choose|i: int| is_first_unowned(balls, i)
}

/// `i` is the place of the first ball among `balls` that carries the
/// local-player marker.
pub open spec fn is_first_local_player(balls: Seq<Ball>, i: int) -> bool {
    &&& 0 <= i < balls.len()
    &&& balls[i].is_local_player()
    &&& forall|j: int| 0 <= j < i ==> !(#[trigger] balls[j]).is_local_player()
}

/// Some ball among `balls` carries the local-player marker.
pub open spec fn has_local_player(balls: Seq<Ball>) -> bool {
    exists|i: int| 0 <= i < balls.len() && (#[trigger] balls[i]).is_local_player()
}

/// The place of the first ball among `balls` that carries the local-player
/// marker, where there is one.
pub open spec fn first_local_player(balls: Seq<Ball>) -> int {
    choose|i: int| is_first_local_player(balls, i)
}

/// Whether a publishing pass restricted to the local player's ball
/// (`local_only`), or to no ball in particular, looks at `ball`.
pub open spec fn selected(ball: Ball, local_only: bool) -> bool {
    !local_only || ball.is_local_player()
}

/// The target-velocity messages of a publishing pass over `balls`: one for
/// each selected ball whose target velocity changed, in registry order.
pub open spec fn target_velocity_messages(balls: Seq<Ball>, local_only: bool) -> Seq<Message>
    decreases balls.len(),
{
    if balls.len() == 0 {
        Seq::empty()
    } else {
        let rest = target_velocity_messages(balls.drop_last(), local_only);
        let ball = balls.last();
        if selected(ball, local_only) && ball.target_velocity_changed() {
            rest.push(ball.target_velocity_message())
        } else {
            rest
        }
    }
}

/// The position messages of a publishing pass over `balls`: one for each
/// selected ball whose position changed, in registry order.
pub open spec fn position_messages(balls: Seq<Ball>, local_only: bool) -> Seq<Message>
    decreases balls.len(),
{
    if balls.len() == 0 {
        Seq::empty()
    } else {
        let rest = position_messages(balls.drop_last(), local_only);
        let ball = balls.last();
        if selected(ball, local_only) && ball.position_changed() {
            rest.push(ball.position_message())
        } else {
            rest
        }
    }
}

/// Everything a publishing pass over `balls` sends: the target velocities
/// first, then the positions.
pub open spec fn pending_messages(balls: Seq<Ball>, local_only: bool) -> Seq<Message> {
    target_velocity_messages(balls, local_only) + position_messages(balls, local_only)
}

/// `balls` after a publishing pass: every ball's present position and target
/// velocity count as published, whether or not the pass sent them.
pub open spec fn all_published(balls: Seq<Ball>) -> Seq<Ball> {
    Seq::new(balls.len(), |i: int| balls[i].published())
}

/// `balls` with the velocity of the `i`-th ball replaced by `next[i]`, for
/// every `i` that `next` reaches.
pub open spec fn with_velocities(balls: Seq<Ball>, next: Seq<Velocity>) -> Seq<Ball> {
    Seq::new(
        balls.len(),
        |i: int|
            if i < next.len() {
                balls[i].with_velocity(next[i])
            } else {
                balls[i]
            },
    )
}

/// `balls` with the position of the `i`-th ball replaced by `next[i]`, for
/// every `i` that `next` reaches.
pub open spec fn with_positions(balls: Seq<Ball>, next: Seq<Position>) -> Seq<Ball> {
    Seq::new(
        balls.len(),
        |i: int|
            if i < next.len() {
                balls[i].with_position(next[i])
            } else {
                balls[i]
            },
    )
}

/// Where identities are distinct, a ball's place is the place of its identity.
pub proof fn lemma_index_of(balls: Seq<Ball>, i: int)
    requires
        distinct_ids(balls),
        0 <= i < balls.len(),
    ensures
        has_id(balls, balls[i].id()),
        index_of(balls, balls[i].id()) == i,
{
    let id = balls[i].id();
    let k = index_of(balls, id);
    assert(0 <= k < balls.len() && balls[k].id() == id);
    if k < i {
        assert(balls[k].id() != balls[i].id());
    } else if i < k {
        assert(balls[i].id() != balls[k].id());
    }
}

/// No identity among `balls` exceeds `highest_id(balls)`.
pub proof fn lemma_highest_id(balls: Seq<Ball>, i: int)
    requires
        0 <= i < balls.len(),
    ensures
        balls[i].id().0 <= highest_id(balls),
    decreases balls.len(),
{
    if i < balls.len() - 1 {
        lemma_highest_id(balls.drop_last(), i);
    }
}

/// The first unowned ball is the only one that can be called so.
pub proof fn lemma_first_unowned(balls: Seq<Ball>, i: int)
    requires
        is_first_unowned(balls, i),
    ensures
        first_unowned(balls) == i,
{
    let k = first_unowned(balls);
    assert(is_first_unowned(balls, k));
    if k < i {
        assert(!balls[k].is_unowned());
    } else if i < k {
        assert(!balls[i].is_unowned());
    }
}

/// The first ball with the local-player marker is the only one that can be
/// called so.
pub proof fn lemma_first_local_player(balls: Seq<Ball>, i: int)
    requires
        is_first_local_player(balls, i),
    ensures
        first_local_player(balls) == i,
{
    let k = first_local_player(balls);
    assert(is_first_local_player(balls, k));
    if k < i {
        assert(!balls[k].is_local_player());
    } else if i < k {
        assert(!balls[i].is_local_player());
    }
}

/// A registry without an unowned ball counts none, and conversely.
pub proof fn lemma_unowned_count_zero(balls: Seq<Ball>)
    ensures
        unowned_count(balls) == 0 <==> forall|j: int|
            0 <= j < balls.len() ==> !(#[trigger] balls[j]).is_unowned(),
    decreases balls.len(),
{
    if balls.len() > 0 {
        lemma_unowned_count_zero(balls.drop_last());
        if unowned_count(balls) == 0 {
            assert forall|j: int| 0 <= j < balls.len() implies !(#[trigger] balls[j]).is_unowned() by {
                if j < balls.len() - 1 {
                    assert(balls.drop_last()[j] == balls[j]);
                }
            }
        } else {
            if !balls.last().is_unowned() {
                let j = choose|j: int|
                    0 <= j < balls.drop_last().len() && (#[trigger] balls.drop_last()[j]).is_unowned();
                assert(balls[j] == balls.drop_last()[j]);
            }
        }
    }
}

/// The identities of `balls`, in registry order.
pub open spec fn identities(balls: Seq<Ball>) -> Seq<BallId> {
    Seq::new(balls.len(), |i: int| balls[i].id())
}

/// One more ball raises the count of unowned balls by one if nobody steers
/// it, and not at all if somebody does.
pub proof fn lemma_unowned_count_push(balls: Seq<Ball>, ball: Ball)
    ensures
        unowned_count(balls.push(ball)) == unowned_count(balls) + if ball.is_unowned() {
            1nat
        } else {
            0nat
        },
{
    assert(balls.push(ball).drop_last() == balls);
}

/// Swapping one ball for another changes the count of unowned balls by what
/// the two balls differ in.
pub proof fn lemma_unowned_count_update(balls: Seq<Ball>, i: int, ball: Ball)
    requires
        0 <= i < balls.len(),
    ensures
        unowned_count(balls.update(i, ball)) + (if balls[i].is_unowned() {
            1nat
        } else {
            0nat
        }) == unowned_count(balls) + if ball.is_unowned() {
            1nat
        } else {
            0nat
        },
    decreases balls.len(),
{
    if i == balls.len() - 1 {
        assert(balls.update(i, ball).drop_last() == balls.drop_last());
    } else {
        lemma_unowned_count_update(balls.drop_last(), i, ball);
        assert(balls.update(i, ball).drop_last() == balls.drop_last().update(i, ball));
    }
}

/// Two registries whose balls agree, place by place, on whether somebody
/// steers them count the same number of unowned balls.
pub proof fn lemma_unowned_count_same(a: Seq<Ball>, b: Seq<Ball>)
    requires
        a.len() == b.len(),
        forall|j: int| 0 <= j < a.len() ==> (#[trigger] a[j]).is_unowned() == b[j].is_unowned(),
    ensures
        unowned_count(a) == unowned_count(b),
    decreases a.len(),
{
    if a.len() > 0 {
        assert forall|j: int| 0 <= j < a.drop_last().len() implies (#[trigger] a.drop_last()[j]).is_unowned()
            == b.drop_last()[j].is_unowned() by {
            assert(a[j].is_unowned() == b[j].is_unowned());
        }
        lemma_unowned_count_same(a.drop_last(), b.drop_last());
        assert(a[a.len() - 1].is_unowned() == b[a.len() - 1].is_unowned());
    }
}

/// One more ball raises the count of local players by one if it carries the
/// marker, and not at all if it does not.
pub proof fn lemma_local_player_count_push(balls: Seq<Ball>, ball: Ball)
    ensures
        local_player_count(balls.push(ball)) == local_player_count(balls)
            + if ball.is_local_player() {
            1nat
        } else {
            0nat
        },
{
    assert(balls.push(ball).drop_last() == balls);
}

/// Swapping one ball for another changes the count of local players by what
/// the two balls differ in.
pub proof fn lemma_local_player_count_update(balls: Seq<Ball>, i: int, ball: Ball)
    requires
        0 <= i < balls.len(),
    ensures
        local_player_count(balls.update(i, ball)) + (if balls[i].is_local_player() {
            1nat
        } else {
            0nat
        }) == local_player_count(balls) + if ball.is_local_player() {
            1nat
        } else {
            0nat
        },
    decreases balls.len(),
{
    if i == balls.len() - 1 {
        assert(balls.update(i, ball).drop_last() == balls.drop_last());
    } else {
        lemma_local_player_count_update(balls.drop_last(), i, ball);
        assert(balls.update(i, ball).drop_last() == balls.drop_last().update(i, ball));
    }
}

/// Two registries whose balls agree, place by place, on whether they carry
/// the local-player marker count the same number of local players.
pub proof fn lemma_local_player_count_same(a: Seq<Ball>, b: Seq<Ball>)
    requires
        a.len() == b.len(),
        forall|j: int|
            0 <= j < a.len() ==> (#[trigger] a[j]).is_local_player() == b[j].is_local_player(),
    ensures
        local_player_count(a) == local_player_count(b),
    decreases a.len(),
{
    if a.len() > 0 {
        assert forall|j: int| 0 <= j < a.drop_last().len() implies (#[trigger] a.drop_last()[j]).is_local_player()
            == b.drop_last()[j].is_local_player() by {
            assert(a[j].is_local_player() == b[j].is_local_player());
        }
        lemma_local_player_count_same(a.drop_last(), b.drop_last());
        assert(a[a.len() - 1].is_local_player() == b[a.len() - 1].is_local_player());
    }
}

/// A registry in which no ball carries the local-player marker counts no
/// local player.
pub proof fn lemma_local_player_count_none(balls: Seq<Ball>)
    requires
        forall|j: int| 0 <= j < balls.len() ==> !(#[trigger] balls[j]).is_local_player(),
    ensures
        local_player_count(balls) == 0,
    decreases balls.len(),
{
    if balls.len() > 0 {
        assert forall|j: int| 0 <= j < balls.drop_last().len() implies !(
        #[trigger] balls.drop_last()[j]).is_local_player() by {
            assert(!balls[j].is_local_player());
        }
        lemma_local_player_count_none(balls.drop_last());
        assert(!balls[balls.len() - 1].is_local_player());
    }
}

/// The number of messages among `messages` that speak of the ball `id`.
pub open spec fn messages_about(messages: Seq<Message>, id: BallId) -> nat
    decreases messages.len(),
{
    if messages.len() == 0 {
        0
    } else {
        messages_about(messages.drop_last(), id) + if messages.last() matches Message::Component(
            about,
            _,
        ) && about == id {
            1nat
        } else {
            0nat
        }
    }
}

/// `balls` after `target_velocity` was written to the `i`-th ball.
pub open spec fn with_target_written(balls: Seq<Ball>, i: int, target_velocity: TargetVelocity) -> Seq<
    Ball,
> {
    balls.update(i, balls[i].with_target_velocity(target_velocity))
}

/// The number of target-velocity messages about the `i`-th ball that `rounds`
/// rounds send, where each round writes `target_velocity` to that ball and
/// then runs a publishing pass.
pub open spec fn sent_over_rounds(
    balls: Seq<Ball>,
    i: int,
    target_velocity: TargetVelocity,
    local_only: bool,
    rounds: nat,
) -> nat
    decreases rounds,
{
    if rounds == 0 {
        0
    } else {
        let written = with_target_written(balls, i, target_velocity);
        messages_about(target_velocity_messages(written, local_only), balls[i].id())
            + sent_over_rounds(
            all_published(written),
            i,
            target_velocity,
            local_only,
            (rounds - 1) as nat,
        )
    }
}

proof fn lemma_messages_about_push(messages: Seq<Message>, message: Message, id: BallId)
    ensures
        messages_about(messages.push(message), id) == messages_about(messages, id) + if message matches Message::Component(
            about,
            _,
        ) && about == id {
            1nat
        } else {
            0nat
        },
{
    assert(messages.push(message).drop_last() == messages);
}

proof fn lemma_no_message_about_stranger(balls: Seq<Ball>, local_only: bool, id: BallId)
    requires
        !has_id(balls, id),
    ensures
        messages_about(target_velocity_messages(balls, local_only), id) == 0,
    decreases balls.len(),
{
    if balls.len() > 0 {
        let rest = balls.drop_last();
        assert forall|j: int| 0 <= j < rest.len() implies (#[trigger] rest[j]).id() != id by {
            assert(balls[j].id() != id);
        }
        lemma_no_message_about_stranger(rest, local_only, id);
        assert(balls[balls.len() - 1].id() != id);
        lemma_messages_about_push(
            target_velocity_messages(rest, local_only),
            balls.last().target_velocity_message(),
            id,
        );
    }
}

/// A publishing pass sends one target-velocity message about a ball it
/// looks at whose target velocity changed, and none about any other ball.
pub proof fn lemma_one_message_per_change(balls: Seq<Ball>, local_only: bool, i: int)
    requires
        distinct_ids(balls),
        0 <= i < balls.len(),
    ensures
        messages_about(target_velocity_messages(balls, local_only), balls[i].id()) == if selected(
            balls[i],
            local_only,
        ) && balls[i].target_velocity_changed() {
            1nat
        } else {
            0nat
        },
    decreases balls.len(),
{
    let rest = balls.drop_last();
    let id = balls[i].id();
    lemma_messages_about_push(
        target_velocity_messages(rest, local_only),
        balls.last().target_velocity_message(),
        id,
    );
    if i == balls.len() - 1 {
        assert forall|j: int| 0 <= j < rest.len() implies (#[trigger] rest[j]).id() != id by {
            assert(balls[j].id() != balls[i].id());
        }
        lemma_no_message_about_stranger(rest, local_only, id);
    } else {
        assert(rest[i] == balls[i]);
        assert(balls[i].id() != balls[balls.len() - 1].id());
        lemma_one_message_per_change(rest, local_only, i);
    }
}

/// Change detection goes by value. Let a ball that the publishing pass looks
/// at be written the same target velocity round after round, with a
/// publishing pass after each write. Then over all the rounds one message
/// about the ball is sent if the value differs from what was published
/// before the first round, and none if it does not: the first pass sends
/// it, the later ones find nothing changed.
pub proof fn law_identical_writes_publish_once(
    balls: Seq<Ball>,
    i: int,
    target_velocity: TargetVelocity,
    local_only: bool,
    rounds: nat,
)
    requires
        distinct_ids(balls),
        0 <= i < balls.len(),
        selected(balls[i], local_only),
    ensures
        sent_over_rounds(balls, i, target_velocity, local_only, rounds) == if rounds > 0
            && balls[i].published_target_velocity != Some(target_velocity) {
            1nat
        } else {
            0nat
        },
    decreases rounds,
{
    if rounds > 0 {
        let written = with_target_written(balls, i, target_velocity);
        let next = all_published(written);
        assert(distinct_ids(written));
        assert(distinct_ids(next));
        lemma_one_message_per_change(written, local_only, i);
        law_identical_writes_publish_once(next, i, target_velocity, local_only, (rounds - 1) as nat);
        assert(next[i].published_target_velocity == Some(target_velocity));
    }
}

/// The registry of balls. Its view is the sequence of its balls in the order
/// in which they were added.
pub struct BallRegistry {
    balls: Vec<Ball>,
}

impl View for BallRegistry {
    type V = Seq<Ball>;

    closed spec fn view(&self) -> Seq<Ball> {
        self.balls@
    }
}

impl BallRegistry {
    /// No two balls share an identity.
    pub open spec fn wf(&self) -> bool {
        distinct_ids(self@)
    }

    /// The empty registry.
    pub fn new() -> (r: BallRegistry)
        ensures
            r@ == Seq::<Ball>::empty(),
            r.wf(),
    {
        BallRegistry { balls: Vec::new() }
    }

    /// A registry with the same balls in the same order.
    pub fn duplicate(&self) -> (r: BallRegistry)
        ensures
            r@ == self@,
    {
        let mut balls: Vec<Ball> = Vec::new();
        let mut i: usize = 0;
        while i < self.balls.len()
            invariant
                i <= self.balls.len(),
                balls@ == self.balls@.take(i as int),
            decreases self.balls.len() - i,
        {
            balls.push(self.balls[i]);
            assert(self.balls@.take(i + 1) == self.balls@.take(i as int).push(self.balls@[i as int]));
            i += 1;
        }
        assert(self.balls@.take(i as int) == self.balls@);
        BallRegistry { balls }
    }

    /// The number of balls.
    pub fn len(&self) -> (r: usize)
        ensures
            r == self@.len(),
    {
        self.balls.len()
    }

    /// The `i`-th ball.
    pub fn ball(&self, i: usize) -> (r: Ball)
        requires
            i < self@.len(),
        ensures
            r == self@[i as int],
    {
        self.balls[i]
    }

    /// The place of the ball with identity `id`: `Some` exactly when the
    /// registry holds such a ball.
    pub fn find(&self, id: BallId) -> (r: Option<usize>)
        ensures
            r is Some <==> has_id(self@, id),
            r matches Some(i) ==> i < self@.len() && self@[i as int].id() == id && forall|j: int|
                0 <= j < i ==> (#[trigger] self@[j]).id() != id,
            r matches Some(i) ==> self.wf() ==> i == index_of(self@, id),
    {
        let mut i: usize = 0;
        while i < self.balls.len()
            invariant
                i <= self.balls.len(),
                forall|j: int| 0 <= j < i ==> (#[trigger] self.balls@[j]).id() != id,
            decreases self.balls.len() - i,
        {
            if self.balls[i].bundle.ball_id == id {
                proof {
                    if self.wf() {
                        lemma_index_of(self@, i as int);
                    }
                }
                return Some(i);
            }
            i += 1;
        }
        None
    }

    /// Adds `ball` at the end of the registry, unless the registry holds a
    /// ball of that identity already: then nothing changes. Returns whether
    /// the ball was added.
    pub fn insert(&mut self, ball: Ball) -> (r: bool)
        ensures
            r == !has_id(old(self)@, ball.id()),
            final(self)@ == if r {
                old(self)@.push(ball)
            } else {
                old(self)@
            },
            old(self).wf() ==> final(self).wf(),
    {
        if self.find(ball.bundle.ball_id).is_some() {
            return false;
        }
        self.balls.push(ball);
        true
    }

    /// Replaces one component of the `i`-th ball.
    pub fn set_component(&mut self, i: usize, component: Component)
        requires
            i < old(self)@.len(),
        ensures
            final(self)@ == old(self)@.update(i as int, old(self)@[i as int].with_component(component)),
            old(self).wf() ==> final(self).wf(),
    {
        match component {
            Component::Position(p) => {
                self.balls[i].bundle.position = p;
            },
            Component::Velocity(v) => {
                self.balls[i].bundle.velocity = v;
            },
            Component::TargetVelocity(t) => {
                self.balls[i].bundle.target_velocity = t;
            },
        }
    }

    /// Says who steers the `i`-th ball from now on.
    pub fn set_ownership(&mut self, i: usize, ownership: Option<Ownership>)
        requires
            i < old(self)@.len(),
        ensures
            final(self)@ == old(self)@.update(i as int, old(self)@[i as int].with_ownership(ownership)),
            old(self).wf() ==> final(self).wf(),
    {
        self.balls[i].ownership = ownership;
    }

    /// The number of balls nobody steers.
    pub fn unowned_count(&self) -> (r: usize)
        ensures
            r == unowned_count(self@),
    {
        let mut count: usize = 0;
        let mut i: usize = 0;
        while i < self.balls.len()
            invariant
                i <= self.balls.len(),
                count == unowned_count(self.balls@.take(i as int)),
                count <= i,
            decreases self.balls.len() - i,
        {
            assert(self.balls@.take(i + 1).drop_last() == self.balls@.take(i as int));
            if self.balls[i].ownership.is_none() {
                count += 1;
            }
            i += 1;
        }
        assert(self.balls@.take(i as int) == self.balls@);
        count
    }

    /// The greatest identity in the registry, 0 where it is empty.
    pub fn highest_id(&self) -> (r: u32)
        ensures
            r == highest_id(self@),
    {
        let mut highest: u32 = 0;
        let mut i: usize = 0;
        while i < self.balls.len()
            invariant
                i <= self.balls.len(),
                highest == highest_id(self.balls@.take(i as int)),
            decreases self.balls.len() - i,
        {
            assert(self.balls@.take(i + 1).drop_last() == self.balls@.take(i as int));
            if self.balls[i].bundle.ball_id.0 > highest {
                highest = self.balls[i].bundle.ball_id.0;
            }
            i += 1;
        }
        assert(self.balls@.take(i as int) == self.balls@);
        highest
    }

    /// The place of the first ball nobody steers: `Some` exactly when there
    /// is one.
    pub fn first_unowned(&self) -> (r: Option<usize>)
        ensures
            r is Some <==> unowned_count(self@) > 0,
            r matches Some(i) ==> is_first_unowned(self@, i as int) && i == first_unowned(self@),
    {
        let mut i: usize = 0;
        while i < self.balls.len()
            invariant
                i <= self.balls.len(),
                forall|j: int| 0 <= j < i ==> !(#[trigger] self.balls@[j]).is_unowned(),
            decreases self.balls.len() - i,
        {
            if self.balls[i].ownership.is_none() {
                proof {
                    lemma_first_unowned(self@, i as int);
                    lemma_unowned_count_zero(self@);
                }
                return Some(i);
            }
            i += 1;
        }
        proof {
            lemma_unowned_count_zero(self@);
        }
        None
    }

    /// The place of the ball that carries the local-player marker, the first
    /// one if the registry holds several: `Some` exactly when there is one.
    pub fn local_player(&self) -> (r: Option<usize>)
        ensures
            r is Some <==> has_local_player(self@),
            r matches Some(i) ==> is_first_local_player(self@, i as int) && i
                == first_local_player(self@),
    {
        let mut i: usize = 0;
        while i < self.balls.len()
            invariant
                i <= self.balls.len(),
                forall|j: int| 0 <= j < i ==> !(#[trigger] self.balls@[j]).is_local_player(),
            decreases self.balls.len() - i,
        {
            if self.balls[i].ownership == Some(Ownership::LocalPlayer) {
                assert(self@[i as int].is_local_player());
                proof {
                    lemma_first_local_player(self@, i as int);
                }
                return Some(i);
            }
            i += 1;
        }
        None
    }

    /// One publishing pass. Returns what is to be sent, see
    /// [`pending_messages`], and records every ball's present position and
    /// target velocity as published. With `local_only` the pass sends for
    /// the local player's ball alone.
    pub fn take_changes(&mut self, local_only: bool) -> (r: Vec<Message>)
        ensures
            r@ == pending_messages(old(self)@, local_only),
            final(self)@ == all_published(old(self)@),
            old(self).wf() ==> final(self).wf(),
    {
        let mut out: Vec<Message> = Vec::new();
        let mut i: usize = 0;
        while i < self.balls.len()
            invariant
                i <= self.balls.len(),
                self.balls@ == old(self).balls@,
                out@ == target_velocity_messages(self.balls@.take(i as int), local_only),
            decreases self.balls.len() - i,
        {
            assert(self.balls@.take(i + 1).drop_last() == self.balls@.take(i as int));
            let ball = self.balls[i];
            let chosen = !local_only || ball.ownership == Some(Ownership::LocalPlayer);
            if chosen && ball.published_target_velocity != Some(ball.bundle.target_velocity) {
                out.push(
                    Message::Component(
                        ball.bundle.ball_id,
                        Component::TargetVelocity(ball.bundle.target_velocity),
                    ),
                );
            }
            i += 1;
        }
        assert(self.balls@.take(i as int) == self.balls@);
        let ghost targets = out@;
        i = 0;
        while i < self.balls.len()
            invariant
                i <= self.balls.len(),
                self.balls@.len() == old(self).balls@.len(),
                forall|j: int| 0 <= j < i ==> (#[trigger] self.balls@[j]) == old(self).balls@[j].published(),
                forall|j: int| i <= j < self.balls@.len() ==> (#[trigger] self.balls@[j]) == old(self).balls@[j],
                out@ == targets + position_messages(old(self).balls@.take(i as int), local_only),
            decreases self.balls.len() - i,
        {
            assert(old(self).balls@.take(i + 1).drop_last() == old(self).balls@.take(i as int));
            let ball = self.balls[i];
            let chosen = !local_only || ball.ownership == Some(Ownership::LocalPlayer);
            if chosen && ball.published_position != Some(ball.bundle.position) {
                out.push(
                    Message::Component(ball.bundle.ball_id, Component::Position(ball.bundle.position)),
                );
            }
            self.balls[i].published_position = Some(ball.bundle.position);
            self.balls[i].published_target_velocity = Some(ball.bundle.target_velocity);
            i += 1;
        }
        assert(old(self).balls@.take(i as int) == old(self).balls@);
        out
    }
}

/// Stores the velocities the integrator computed for this tick: the `i`-th
/// ball gets `next[i]`; a ball that `next` does not reach keeps its velocity.
pub fn update_velocity_system(balls: &mut BallRegistry, next: &Vec<Velocity>)
    ensures
        final(balls)@ == with_velocities(old(balls)@, next@),
        old(balls).wf() ==> final(balls).wf(),
{
    let mut i: usize = 0;
    while i < balls.balls.len() && i < next.len()
        invariant
            i <= balls.balls.len(),
            i <= next.len(),
            balls.balls@.len() == old(balls).balls@.len(),
            forall|j: int|
                0 <= j < i ==> (#[trigger] balls.balls@[j]) == old(balls).balls@[j].with_velocity(
                    next@[j],
                ),
            forall|j: int|
                i <= j < balls.balls@.len() ==> (#[trigger] balls.balls@[j]) == old(balls).balls@[j],
        decreases balls.balls.len() - i,
    {
        balls.balls[i].bundle.velocity = next[i];
        i += 1;
    }
}

/// Stores the positions the integrator computed for this tick: the `i`-th
/// ball gets `next[i]`; a ball that `next` does not reach keeps its position.
pub fn update_position_system(balls: &mut BallRegistry, next: &Vec<Position>)
    ensures
        final(balls)@ == with_positions(old(balls)@, next@),
        old(balls).wf() ==> final(balls).wf(),
{
    let mut i: usize = 0;
    while i < balls.balls.len() && i < next.len()
        invariant
            i <= balls.balls.len(),
            i <= next.len(),
            balls.balls@.len() == old(balls).balls@.len(),
            forall|j: int|
                0 <= j < i ==> (#[trigger] balls.balls@[j]) == old(balls).balls@[j].with_position(
                    next@[j],
                ),
            forall|j: int|
                i <= j < balls.balls@.len() ==> (#[trigger] balls.balls@[j]) == old(balls).balls@[j],
        decreases balls.balls.len() - i,
    {
        balls.balls[i].bundle.position = next[i];
        i += 1;
    }
}

} // verus!
