//! The BLE side of the bridge: what the link reports, and the decisions of the loop that
//! keeps the device connected and writes each new haptic state to it.
use vstd::prelude::*;

verus! {

/// UUID of the device's haptic service.
pub const SERVICE_UUID: u128 = 0xab96bc38_67c5_44a5_94bf_3146bf493198;
/// UUID of the characteristic that takes the haptic frame.
pub const HAPTIC_UUID: u128 = 0x5db0ca73_7963_492d_8a9c_40bb6b84c2f0;
/// Pause after a failed search or write, in milliseconds.
pub const RECONNECT_BACKOFF_MS: u64 = 500;

/// What the BLE client reports about the device.
#[derive(Clone, Copy, Debug, PartialEq, Eq, Structural)]
pub enum Status {
    /// The device was connected (`true`) or lost (`false`).
    Connection(bool),
    /// The device's battery level, in percent.
    Battery(u8),
}

/// The battery level in a value read from the Battery Level characteristic: its first byte.
pub fn battery_level(value: &[u8]) -> (level: Option<u8>)
    ensures
        level == if value@.len() > 0 { Some(value@[0]) } else { None::<u8> },
{
    if value.len() > 0 {
        Some(value[0])
    } else {
        None
    }
}

/// What happened since the link loop last decided.
#[derive(Clone, Copy, Debug, PartialEq, Eq, Structural)]
pub enum LinkEvent {
    /// A new haptic state is waiting to be written.
    StateChanged,
    /// The haptic states stopped coming.
    ChannelClosed,
    /// The device was asked whether it is still connected (`false` when none is held).
    LinkChecked(bool),
    /// A device was found and connected.
    DeviceFound,
    /// No device could be found or connected.
    DeviceNotFound,
    /// The haptic state was written.
    WriteDone,
    /// Writing the haptic state failed.
    WriteFailed,
    /// The battery level was read, if it could be.
    BatteryRead(Option<u8>),
    /// The pause after a failure is over.
    BackoffElapsed,
}

/// What the link loop does next.
#[derive(Clone, Copy, Debug, PartialEq, Eq, Structural)]
pub enum LinkAction {
    /// Wait for the next haptic state.
    AwaitState,
    /// Ask the held device whether it is still connected.
    CheckLink,
    /// Search for the device and connect to it.
    Discover,
    /// Write the current haptic state to the device.
    Write,
    /// Read the device's battery level.
    ReadBattery,
    /// Pause before trying again.
    Backoff,
    /// Drop the held connection, then pause before trying again.
    Disconnect,
    /// End the loop.
    Stop,
}

/// One decision: the next action, and the status to report first, if any.
#[derive(Clone, Copy, Debug, PartialEq, Eq, Structural)]
pub struct LinkStep {
    pub action: LinkAction,
    pub notify: Option<Status>,
}

/// The decision table of the link loop: from whether a connection is held and what
/// happened, whether one is held afterwards and what to do.
pub open spec fn link_step(held: bool, event: LinkEvent) -> (bool, LinkStep) {
    match event {
        LinkEvent::StateChanged => (held, LinkStep {
            action: if held { LinkAction::CheckLink } else { LinkAction::Discover },
            notify: None,
        }),
        LinkEvent::ChannelClosed => (held, LinkStep { action: LinkAction::Stop, notify: None }),
        LinkEvent::LinkChecked(connected) => (held, LinkStep {
            action: if connected && held { LinkAction::Write } else { LinkAction::Discover },
            notify: None,
        }),
        LinkEvent::DeviceFound => (true, LinkStep {
            action: LinkAction::Write,
            notify: Some(Status::Connection(true)),
        }),
        LinkEvent::DeviceNotFound => (held, LinkStep { action: LinkAction::Backoff, notify: None }),
        LinkEvent::WriteDone => (held, LinkStep { action: LinkAction::ReadBattery, notify: None }),
        LinkEvent::WriteFailed => (false, LinkStep {
            action: LinkAction::Disconnect,
            notify: Some(Status::Connection(false)),
        }),
        LinkEvent::BatteryRead(level) => (held, LinkStep {
            action: LinkAction::AwaitState,
            notify: match level {
                Some(pct) => Some(Status::Battery(pct)),
                None => None,
            },
        }),
        LinkEvent::BackoffElapsed => (held, LinkStep { action: LinkAction::AwaitState, notify: None }),
    }
}

/// The state of the link loop: whether it holds a device connection.
pub struct LinkController {
    held: bool,
}

impl LinkController {
    /// Whether a device connection is held.
    pub closed spec fn holds(&self) -> bool {
        self.held
    }

    /// The loop's start: no connection held.
    pub fn new() -> (c: Self)
        ensures
            !c.holds(),
    {
        LinkController { held: false }
    }

    /// Whether a device connection is held.
    pub fn holds_connection(&self) -> (r: bool)
        ensures
            r == self.holds(),
    {
        self.held
    }

    /// Decides what to do after `event`.
    pub fn step(&mut self, event: LinkEvent) -> (s: LinkStep)
        ensures
            (final(self).holds(), s) == link_step(old(self).holds(), event),
    {
        match event {
            LinkEvent::StateChanged => LinkStep {
                action: if self.held { LinkAction::CheckLink } else { LinkAction::Discover },
                notify: None,
            },
            LinkEvent::ChannelClosed => LinkStep { action: LinkAction::Stop, notify: None },
            LinkEvent::LinkChecked(connected) => LinkStep {
                action: if connected && self.held { LinkAction::Write } else { LinkAction::Discover },
                notify: None,
            },
            LinkEvent::DeviceFound => {
                self.held = true;
                LinkStep { action: LinkAction::Write, notify: Some(Status::Connection(true)) }
            },
            LinkEvent::DeviceNotFound => LinkStep { action: LinkAction::Backoff, notify: None },
            LinkEvent::WriteDone => LinkStep { action: LinkAction::ReadBattery, notify: None },
            LinkEvent::WriteFailed => {
                self.held = false;
                LinkStep { action: LinkAction::Disconnect, notify: Some(Status::Connection(false)) }
            },
            LinkEvent::BatteryRead(level) => LinkStep {
                action: LinkAction::AwaitState,
                notify: match level {
                    Some(pct) => Some(Status::Battery(pct)),
                    None => None,
                },
            },
            LinkEvent::BackoffElapsed => LinkStep { action: LinkAction::AwaitState, notify: None },
        }
    }
}

/// The link reports a connection exactly when a device is found and a loss exactly when a
/// write fails; a write is only ever asked for while a connection is held; and a battery
/// level is reported only as read after a write.
pub proof fn law_link_reports(held: bool, event: LinkEvent)
    ensures
        (link_step(held, event).1.notify == Some(Status::Connection(true))) == (event == LinkEvent::DeviceFound),
        (link_step(held, event).1.notify == Some(Status::Connection(false))) == (event == LinkEvent::WriteFailed),
        link_step(held, event).1.action == LinkAction::Write ==> link_step(held, event).0,
        forall|pct: u8| link_step(held, event).1.notify == Some(Status::Battery(pct))
            <==> event == LinkEvent::BatteryRead(Some(pct)),
{
}

/// After a failed write the connection is dropped, so the next haptic state starts a new
/// search for the device instead of another write.
pub proof fn law_reconnect_after_failure(held: bool)
    ensures
        link_step(link_step(held, LinkEvent::WriteFailed).0, LinkEvent::StateChanged).1.action
            == LinkAction::Discover,
{
}

} // verus!

verus! {

/// The steps that the link loop takes for the events `events`, starting without a
/// connection, and whether it holds one at the end.
pub open spec fn link_run(events: Seq<LinkEvent>) -> (bool, Seq<LinkStep>)
    decreases events.len(),
{
    if events.len() == 0 {
        (false, Seq::empty())
    } else {
        let before = link_run(events.drop_last());
        let next = link_step(before.0, events.last());
        (next.0, before.1.push(next.1))
    }
}

/// The last connection report among `steps`, if any.
pub open spec fn last_connection_report(steps: Seq<LinkStep>) -> Option<bool>
    decreases steps.len(),
{
    if steps.len() == 0 {
        None
    } else {
        match steps.last().notify {
            Some(Status::Connection(connected)) => Some(connected),
            _ => last_connection_report(steps.drop_last()),
        }
    }
}

/// The battery level that a step reports, if it reports one.
pub open spec fn battery_report(step: LinkStep) -> Option<u8> {
    match step.notify {
        Some(Status::Battery(pct)) => Some(pct),
        _ => None,
    }
}

/// Whether `event` is a possible outcome of `action`.
pub open spec fn answers(action: LinkAction, event: LinkEvent) -> bool {
    match action {
        LinkAction::AwaitState => event == LinkEvent::StateChanged || event == LinkEvent::ChannelClosed,
        LinkAction::CheckLink => event is LinkChecked,
        LinkAction::Discover => event == LinkEvent::DeviceFound || event == LinkEvent::DeviceNotFound,
        LinkAction::Write => event == LinkEvent::WriteDone || event == LinkEvent::WriteFailed,
        LinkAction::ReadBattery => event is BatteryRead,
        LinkAction::Backoff => event == LinkEvent::BackoffElapsed,
        LinkAction::Disconnect => event == LinkEvent::BackoffElapsed,
        LinkAction::Stop => false,
    }
}

/// Whether `events` is what the loop can meet: each event is an outcome of the action
/// decided before it, the first one of waiting for a haptic state.
pub open spec fn is_loop_run(events: Seq<LinkEvent>) -> bool {
    forall|k: int|
        0 <= k < events.len() ==> answers(
            if k == 0 {
                LinkAction::AwaitState
            } else {
                link_run(events).1[k - 1].action
            },
            #[trigger] events[k],
        )
}

proof fn lemma_link_run_len(events: Seq<LinkEvent>)
    ensures
        link_run(events).1.len() == events.len(),
    decreases events.len(),
{
    if events.len() > 0 {
        lemma_link_run_len(events.drop_last());
    }
}

/// A run's first `k` steps are the run of its first `k` events.
proof fn lemma_link_run_prefix(events: Seq<LinkEvent>, k: int)
    requires
        0 <= k <= events.len(),
    ensures
        link_run(events.take(k)).1 == link_run(events).1.take(k),
    decreases events.len(),
{
    lemma_link_run_len(events);
    if k == events.len() {
        assert(events.take(k) == events);
    } else {
        let prev = events.drop_last();
        lemma_link_run_prefix(prev, k);
        lemma_link_run_len(prev);
        assert(prev.take(k) == events.take(k));
        assert(link_run(events).1.take(k) == link_run(prev).1.take(k));
    }
}

/// Step `k` of a run is the decision for event `k`, given what the first `k` events left.
proof fn lemma_link_run_step(events: Seq<LinkEvent>, k: int)
    requires
        0 <= k < events.len(),
    ensures
        link_run(events).1[k] == link_step(link_run(events.take(k)).0, events[k]).1,
{
    lemma_link_run_prefix(events, k + 1);
    lemma_link_run_len(events);
    lemma_link_run_len(events.take(k));
    let short = events.take(k + 1);
    assert(short.drop_last() == events.take(k));
    assert(short.last() == events[k]);
    assert(link_run(short).1 == link_run(events.take(k)).1.push(
        link_step(link_run(events.take(k)).0, events[k]).1,
    ));
    assert(link_run(short).1[k] == link_step(link_run(events.take(k)).0, events[k]).1);
    assert(link_run(events).1.take(k + 1)[k] == link_run(events).1[k]);
}

/// The loop holds a connection exactly when its last connection report was a connection.
proof fn lemma_link_run_held(events: Seq<LinkEvent>)
    ensures
        link_run(events).0 == (last_connection_report(link_run(events).1) == Some(true)),
    decreases events.len(),
{
    if events.len() > 0 {
        lemma_link_run_held(events.drop_last());
        let before = link_run(events.drop_last());
        assert(link_run(events).1.drop_last() == before.1);
    }
}

/// Over any run of the link loop: every write comes while the latest connection report is
/// a connection (`Connection(true)` is reported before any write on that connection); and,
/// where each event is an outcome of the action before it, a battery level is reported only
/// right after a successful write, as read, and a loss only right after a failed write,
/// together with dropping the connection.
pub proof fn law_link_run(events: Seq<LinkEvent>)
    ensures
        forall|k: int|
            0 <= k < events.len() && #[trigger] link_run(events).1[k].action == LinkAction::Write
                ==> last_connection_report(link_run(events).1.take(k + 1)) == Some(true),
        is_loop_run(events) ==> forall|k: int|
            0 <= k < events.len() && #[trigger] battery_report(link_run(events).1[k]) is Some
                ==> 2 <= k && link_run(events).1[k - 2].action == LinkAction::Write && events[k - 1]
                == LinkEvent::WriteDone && events[k] == LinkEvent::BatteryRead(
                battery_report(link_run(events).1[k]),
            ),
        is_loop_run(events) ==> forall|k: int|
            0 <= k < events.len() && #[trigger] link_run(events).1[k].notify == Some(
                Status::Connection(false),
            ) ==> 1 <= k && link_run(events).1[k - 1].action == LinkAction::Write && events[k]
                == LinkEvent::WriteFailed && link_run(events).1[k].action == LinkAction::Disconnect,
{
    let steps = link_run(events).1;
    lemma_link_run_len(events);
    assert forall|k: int|
        0 <= k < events.len() && #[trigger] link_run(events).1[k].action == LinkAction::Write
            implies last_connection_report(link_run(events).1.take(k + 1)) == Some(true) by {
        lemma_link_run_step(events, k);
        lemma_link_run_prefix(events, k);
        lemma_link_run_prefix(events, k + 1);
        lemma_link_run_held(events.take(k));
        lemma_link_run_len(events.take(k + 1));
        assert(steps.take(k + 1).drop_last() == steps.take(k));
        assert(steps.take(k + 1).last() == steps[k]);
    }
    if is_loop_run(events) {
        assert forall|k: int|
            0 <= k < events.len() && #[trigger] battery_report(link_run(events).1[k]) is Some
                implies 2 <= k && link_run(events).1[k - 2].action == LinkAction::Write && events[k
                - 1] == LinkEvent::WriteDone && events[k] == LinkEvent::BatteryRead(
                battery_report(link_run(events).1[k]),
            ) by {
            lemma_link_run_step(events, k);
            assert(answers(if k == 0 { LinkAction::AwaitState } else { steps[k - 1].action }, events[k]));
            assert(k >= 1);
            lemma_link_run_step(events, k - 1);
            assert(answers(if k - 1 == 0 { LinkAction::AwaitState } else { steps[k - 2].action }, events[k - 1]));
        }
        assert forall|k: int|
            0 <= k < events.len() && #[trigger] link_run(events).1[k].notify == Some(
                Status::Connection(false),
            ) implies 1 <= k && link_run(events).1[k - 1].action == LinkAction::Write && events[k]
                == LinkEvent::WriteFailed && link_run(events).1[k].action == LinkAction::Disconnect by {
            lemma_link_run_step(events, k);
            assert(answers(if k == 0 { LinkAction::AwaitState } else { steps[k - 1].action }, events[k]));
        }
    }
}

} // verus!

verus! {

/// A closed state channel ends the loop, whether or not a connection is held, and nothing
/// else ends it.
pub proof fn law_closed_channel_stops(held: bool, event: LinkEvent)
    ensures
        link_step(held, LinkEvent::ChannelClosed).1.action == LinkAction::Stop,
        link_step(held, LinkEvent::ChannelClosed).1.notify is None,
        link_step(held, event).1.action == LinkAction::Stop ==> event == LinkEvent::ChannelClosed,
{
}

} // verus!
