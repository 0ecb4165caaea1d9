//! Bridge configuration, and the commands that the GUI sends to the bridge.
use vstd::prelude::*;
use crate::haptics::HapticState;
use crate::osc::F32_ONE_BITS;

verus! {

/// How the bridge is run.
#[derive(Clone, Copy, Debug, PartialEq, Eq, Structural)]
pub struct Config {
    /// UDP port on which OSC messages are received.
    pub osc_port: u16,
    /// Number of haptic channels (vibration motors) of the device.
    pub haptics_count: usize,
    /// Period, in milliseconds, at which the haptic state is sent.
    pub send_interval_ms: u64,
    /// Run without the GUI.
    pub headless: bool,
}

/// Default OSC port.
pub const DEFAULT_OSC_PORT: u16 = 9001;
/// Default number of haptic channels.
pub const DEFAULT_HAPTICS_COUNT: usize = 2;
/// Default send period, in milliseconds.
pub const DEFAULT_SEND_INTERVAL_MS: u64 = 20;

impl Default for Config {
    /// The documented defaults: OSC port 9001, two channels, a state every 20 ms, with GUI.
    fn default() -> (c: Self)
        ensures
            c.osc_port == DEFAULT_OSC_PORT,
            c.haptics_count == DEFAULT_HAPTICS_COUNT,
            c.send_interval_ms == DEFAULT_SEND_INTERVAL_MS,
            !c.headless,
    {
        Config {
            osc_port: DEFAULT_OSC_PORT,
            haptics_count: DEFAULT_HAPTICS_COUNT,
            send_interval_ms: DEFAULT_SEND_INTERVAL_MS,
            headless: false,
        }
    }
}

/// Commands from the GUI to the bridge.
#[derive(Clone, Copy, Debug, PartialEq, Eq, Structural)]
pub enum BridgeCommand {
    /// Briefly drive the channel with this index at full strength.
    TestPulse(usize),
    /// Cap the haptic output at this percentage.
    SetMaxIntensity(u8),
}

/// Length of a test pulse, in milliseconds.
pub const TEST_PULSE_MS: u64 = 150;
/// The highest intensity cap, in percent.
pub const MAX_INTENSITY_PERCENT: u8 = 100;

/// What the bridge does for a command.
#[derive(Debug)]
pub enum CommandPlan {
    /// Send `pulse`, wait `TEST_PULSE_MS`, then send `restore`.
    Pulse { pulse: HapticState, restore: HapticState },
    /// Publish this intensity cap, in percent.
    SetMaxIntensity(u8),
    /// Nothing to do.
    Ignore,
}

/// The plan for `cmd` while the haptic state is `current`: a test pulse raises its channel
/// to full strength and then restores the state, and is ignored for a channel that does not
/// exist; an intensity cap is limited to 100 percent.
pub fn plan_command(cmd: BridgeCommand, current: &HapticState) -> (plan: CommandPlan)
    ensures
        match cmd {
            BridgeCommand::TestPulse(index) => if index < current.strength@.len() {
                plan matches CommandPlan::Pulse { pulse, restore } && pulse.strength@
                    == current.strength@.update(index as int, F32_ONE_BITS) && restore.strength@
                    == current.strength@
            } else {
                plan is Ignore
            },
            BridgeCommand::SetMaxIntensity(v) => plan == CommandPlan::SetMaxIntensity(
                if v < MAX_INTENSITY_PERCENT { v } else { MAX_INTENSITY_PERCENT },
            ),
        },
{
    match cmd {
        BridgeCommand::TestPulse(index) => match current.pulse(index) {
            Some(pulse) => CommandPlan::Pulse {
                pulse,
                restore: HapticState { strength: current.strength.clone() },
            },
            None => CommandPlan::Ignore,
        },
        BridgeCommand::SetMaxIntensity(v) => CommandPlan::SetMaxIntensity(
            if v < MAX_INTENSITY_PERCENT { v } else { MAX_INTENSITY_PERCENT },
        ),
    }
}

} // verus!
