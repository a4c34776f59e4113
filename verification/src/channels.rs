//! Channel registry: the fixed table of logical channels and their delivery
//! settings.

use vstd::prelude::*;
use crate::messages::{Channel, ComponentKind};

verus! {

/// Tuning of a reliable channel. Durations are in milliseconds, the two
/// factors in thousandths.
#[derive(Clone, Copy, Debug, PartialEq, Eq, Structural)]
pub struct ReliableChannelSettings {
    /// Target outgoing bandwidth, bytes per second.
    pub bandwidth: u32,
    /// Size of the incoming ring buffer.
    pub recv_window_size: u32,
    /// Size of the outgoing ring buffer.
    pub send_window_size: u32,
    /// Most bytes sent in one burst.
    pub burst_bandwidth: u32,
    /// Bytes sent beyond what the remote window is believed to hold.
    pub init_send: u32,
    /// Period of the retransmission task.
    pub wakeup_time_ms: u64,
    /// First estimate of the round-trip time.
    pub initial_rtt_ms: u64,
    /// Ceiling for round-trip measurements.
    pub max_rtt_ms: u64,
    /// Weight of a new measurement in the round-trip estimate.
    pub rtt_update_permille: u32,
    /// Multiple of the estimate after which an unacknowledged packet is sent again.
    pub rtt_resend_permille: u32,
}

/// The delivery guarantee of a channel.
#[derive(Clone, Copy, Debug, PartialEq, Eq, Structural)]
pub enum MessageChannelMode {
    /// Best effort: messages may be lost or overtake each other.
    Unreliable,
    /// Every message arrives, in order.
    Reliable { reliability_settings: ReliableChannelSettings, max_message_len: usize },
}

/// Settings of one logical channel.
#[derive(Clone, Copy, Debug, PartialEq, Eq, Structural)]
pub struct MessageChannelSettings {
    /// The number that tags the channel's packets on the wire.
    pub channel: u8,
    pub channel_mode: MessageChannelMode,
    /// Messages buffered between the application and the network task.
    pub message_buffer_size: usize,
    /// Packets buffered between the network task and the multiplexer.
    pub packet_buffer_size: usize,
}

/// The tuning shared by both control channels.
pub open spec fn control_reliability() -> ReliableChannelSettings {
    ReliableChannelSettings {
        bandwidth: 4096,
        recv_window_size: 1024,
        send_window_size: 1024,
        burst_bandwidth: 1024,
        init_send: 512,
        wakeup_time_ms: 100,
        initial_rtt_ms: 200,
        max_rtt_ms: 2000,
        rtt_update_permille: 100,
        rtt_resend_permille: 1500,
    }
}

/// A reliable control channel with the given wire number.
pub open spec fn control_settings(channel: u8) -> MessageChannelSettings {
    MessageChannelSettings {
        channel,
        channel_mode: MessageChannelMode::Reliable {
            reliability_settings: control_reliability(),
            max_message_len: 1024,
        },
        message_buffer_size: 8,
        packet_buffer_size: 8,
    }
}

/// A best-effort component channel with the given wire number.
pub open spec fn component_settings(channel: u8) -> MessageChannelSettings {
    MessageChannelSettings {
        channel,
        channel_mode: MessageChannelMode::Unreliable,
        message_buffer_size: 8,
        packet_buffer_size: 8,
    }
}

fn reliable_control_settings(channel: u8) -> (r: MessageChannelSettings)
    ensures
        r == control_settings(channel),
{
    MessageChannelSettings {
        channel,
        channel_mode: MessageChannelMode::Reliable {
            reliability_settings: ReliableChannelSettings {
                bandwidth: 4096,
                recv_window_size: 1024,
                send_window_size: 1024,
                burst_bandwidth: 1024,
                init_send: 512,
                wakeup_time_ms: 100,
                initial_rtt_ms: 200,
                max_rtt_ms: 2000,
                rtt_update_permille: 100,
                rtt_resend_permille: 1500,
            },
            max_message_len: 1024,
        },
        message_buffer_size: 8,
        packet_buffer_size: 8,
    }
}

/// Settings of the channel on which clients announce themselves: reliable,
/// wire number 0.
pub fn client_message_settings() -> (r: MessageChannelSettings)
    ensures
        r == control_settings(0),
{
    reliable_control_settings(0)
}

/// Settings of the channel on which the server assigns balls: reliable,
/// wire number 1.
pub fn server_message_settings() -> (r: MessageChannelSettings)
    ensures
        r == control_settings(1),
{
    reliable_control_settings(1)
}

/// Settings of a component channel: best effort, on the given wire number.
pub fn player_component_message_settings(channel: u8) -> (r: MessageChannelSettings)
    ensures
        r == component_settings(channel),
{
    MessageChannelSettings {
        channel,
        channel_mode: MessageChannelMode::Unreliable,
        message_buffer_size: 8,
        packet_buffer_size: 8,
    }
}

/// Why a registration was turned down.
#[derive(Clone, Copy, Debug, PartialEq, Eq, Structural)]
pub enum ChannelAlreadyRegistered {
    /// The message type already has a channel.
    MessageType,
    /// The wire number is already taken.
    Channel,
}

/// One line of the channel table.
#[derive(Clone, Copy, Debug, PartialEq, Eq, Structural)]
pub struct ChannelEntry {
    pub purpose: Channel,
    pub settings: MessageChannelSettings,
}

/// Some line of `table` carries the wire number `number`.
pub open spec fn number_taken(table: Seq<ChannelEntry>, number: u8) -> bool {
    exists|i: int| 0 <= i < table.len() && (#[trigger] table[i]).settings.channel == number
}

/// Some line of `table` is for `purpose`.
pub open spec fn purpose_taken(table: Seq<ChannelEntry>, purpose: Channel) -> bool {
    exists|i: int| 0 <= i < table.len() && (#[trigger] table[i]).purpose == purpose
}

/// No wire number and no purpose occurs twice in `table`.
pub open spec fn table_consistent(table: Seq<ChannelEntry>) -> bool {
    forall|i: int, j: int|
        0 <= i < j < table.len() ==> (#[trigger] table[i]).settings.channel != (
        #[trigger] table[j]).settings.channel && table[i].purpose != table[j].purpose
}

/// The channel table the game runs on: the two control channels, then one
/// component channel each for position, velocity and target velocity, on
/// wire numbers 0 to 4.
pub open spec fn standard_table() -> Seq<ChannelEntry> {
    seq![
        ChannelEntry { purpose: Channel::ClientMessage, settings: control_settings(0) },
        ChannelEntry { purpose: Channel::ServerMessage, settings: control_settings(1) },
        ChannelEntry {
            purpose: Channel::Component(ComponentKind::Position),
            settings: component_settings(2),
        },
        ChannelEntry {
            purpose: Channel::Component(ComponentKind::Velocity),
            settings: component_settings(3),
        },
        ChannelEntry {
            purpose: Channel::Component(ComponentKind::TargetVelocity),
            settings: component_settings(4),
        },
    ]
}

/// The table of logical channels. Its view is the sequence of its lines in
/// the order of registration.
pub struct ChannelRegistry {
    entries: Vec<ChannelEntry>,
}

impl View for ChannelRegistry {
    type V = Seq<ChannelEntry>;

    closed spec fn view(&self) -> Seq<ChannelEntry> {
        self.entries@
    }
}

impl ChannelRegistry {
    /// The table is consistent: see [`table_consistent`].
    pub open spec fn wf(&self) -> bool {
        table_consistent(self@)
    }

    /// The empty table.
    pub fn new() -> (r: ChannelRegistry)
        ensures
            r@ == Seq::<ChannelEntry>::empty(),
            r.wf(),
    {
        ChannelRegistry { entries: Vec::new() }
    }

    /// The number of lines.
    pub fn len(&self) -> (r: usize)
        ensures
            r == self@.len(),
    {
        self.entries.len()
    }

    /// The `i`-th line.
    pub fn entry(&self, i: usize) -> (r: ChannelEntry)
        requires
            i < self@.len(),
        ensures
            r == self@[i as int],
    {
        self.entries[i]
    }

    /// The settings registered for `purpose`, if any: those of the first
    /// line for it.
    pub fn lookup(&self, purpose: Channel) -> (r: Option<MessageChannelSettings>)
        ensures
            r is Some <==> purpose_taken(self@, purpose),
            r matches Some(s) ==> exists|i: int|
                0 <= i < self@.len() && (#[trigger] self@[i]) == (ChannelEntry {
                    purpose,
                    settings: s,
                }) && forall|j: int| 0 <= j < i ==> (#[trigger] self@[j]).purpose != purpose,
    {
        let mut i: usize = 0;
        while i < self.entries.len()
            invariant
                i <= self.entries.len(),
                forall|j: int| 0 <= j < i ==> (#[trigger] self.entries@[j]).purpose != purpose,
            decreases self.entries.len() - i,
        {
            if self.entries[i].purpose == purpose {
                return Some(self.entries[i].settings);
            }
            i += 1;
        }
        None
    }

    /// Whether `purpose` has a channel.
    pub fn is_registered(&self, purpose: Channel) -> (r: bool)
        ensures
            r == purpose_taken(self@, purpose),
    {
        let mut i: usize = 0;
        while i < self.entries.len()
            invariant
                i <= self.entries.len(),
                forall|j: int| 0 <= j < i ==> (#[trigger] self.entries@[j]).purpose != purpose,
            decreases self.entries.len() - i,
        {
            if self.entries[i].purpose == purpose {
                return true;
            }
            i += 1;
        }
        false
    }

    fn number_in_use(&self, number: u8) -> (r: bool)
        ensures
            r == number_taken(self@, number),
    {
        let mut i: usize = 0;
        while i < self.entries.len()
            invariant
                i <= self.entries.len(),
                forall|j: int|
                    0 <= j < i ==> (#[trigger] self.entries@[j]).settings.channel != number,
            decreases self.entries.len() - i,
        {
            if self.entries[i].settings.channel == number {
                return true;
            }
            i += 1;
        }
        false
    }

    /// Adds a line for `purpose`. A wire number that is taken is turned down
    /// first, then a purpose that already has a channel; a registration that
    /// is turned down leaves the table as it was.
    pub fn register(&mut self, purpose: Channel, settings: MessageChannelSettings) -> (r: Result<
        (),
        ChannelAlreadyRegistered,
    >)
        ensures
            old(self).wf() ==> final(self).wf(),
            number_taken(old(self)@, settings.channel) ==> r == Err::<
                (),
                ChannelAlreadyRegistered,
            >(ChannelAlreadyRegistered::Channel) && final(self)@ == old(self)@,
            !number_taken(old(self)@, settings.channel) && purpose_taken(old(self)@, purpose)
                ==> r == Err::<(), ChannelAlreadyRegistered>(
                ChannelAlreadyRegistered::MessageType,
            ) && final(self)@ == old(self)@,
            !number_taken(old(self)@, settings.channel) && !purpose_taken(old(self)@, purpose)
                ==> r is Ok && final(self)@ == old(self)@.push(ChannelEntry { purpose, settings }),
    {
        if self.number_in_use(settings.channel) {
            return Err(ChannelAlreadyRegistered::Channel);
        }
        if self.is_registered(purpose) {
            return Err(ChannelAlreadyRegistered::MessageType);
        }
        self.entries.push(ChannelEntry { purpose, settings });
        Ok(())
    }
}

/// Builds the channel table of the game: see [`standard_table`].
pub fn network_channels_setup() -> (r: ChannelRegistry)
    ensures
        r@ == standard_table(),
        r.wf(),
{
    let mut registry = ChannelRegistry::new();
    let _ = registry.register(Channel::ClientMessage, client_message_settings());
    assert(registry@ == standard_table().take(1));
    let _ = registry.register(Channel::ServerMessage, server_message_settings());
    assert(registry@ == standard_table().take(2));
    let _ = registry.register(
        Channel::Component(ComponentKind::Position),
        player_component_message_settings(2),
    );
    assert(registry@ == standard_table().take(3));
    let _ = registry.register(
        Channel::Component(ComponentKind::Velocity),
        player_component_message_settings(3),
    );
    assert(registry@ == standard_table().take(4));
    let _ = registry.register(
        Channel::Component(ComponentKind::TargetVelocity),
        player_component_message_settings(4),
    );
    assert(registry@ == standard_table().take(5));
    assert(standard_table().take(5) == standard_table());
    registry
}

} // verus!
