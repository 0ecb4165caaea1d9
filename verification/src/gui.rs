//! What the GUI shows: the bridge status it is told about, and the text of its labels.
use vstd::prelude::*;
use crate::ble::Status;
use crate::text::{decimal, push_decimal};

verus! {

/// Updates sent from the bridge to the GUI.
#[derive(Clone, Debug, PartialEq, Eq)]
pub enum GuiUpdate {
    /// The BLE device was connected or lost.
    Ble(bool),
    /// The OSC server is (or is not) listening.
    Osc(bool),
    /// The haptic strengths, as `f32` bit patterns.
    Haptics(Vec<u32>),
    /// The device's battery level, in percent.
    Battery(u8),
    /// The intensity cap, in percent.
    Intensity(u8),
}

impl GuiUpdate {
    /// The GUI update that reports a BLE status.
    pub fn from_status(status: Status) -> (u: GuiUpdate)
        ensures
            u == match status {
                Status::Connection(connected) => GuiUpdate::Ble(connected),
                Status::Battery(pct) => GuiUpdate::Battery(pct),
            },
    {
        match status {
            Status::Connection(connected) => GuiUpdate::Ble(connected),
            Status::Battery(pct) => GuiUpdate::Battery(pct),
        }
    }
}

/// Intensity cap shown before the bridge reports one, in percent.
pub const INITIAL_MAX_INTENSITY: u8 = 70;

/// The bridge status as the GUI knows it.
#[derive(Clone, Debug)]
pub struct AppState {
    pub osc_listening: bool,
    pub ble_connected: bool,
    pub battery_pct: Option<u8>,
    pub haptics: Vec<u32>,
    pub max_intensity: u8,
}

impl AppState {
    /// Nothing known yet: not listening, not connected, no battery level, no haptic data,
    /// and the initial intensity cap.
    pub fn new() -> (s: Self)
        ensures
            !s.osc_listening,
            !s.ble_connected,
            s.battery_pct is None,
            s.haptics@.len() == 0,
            s.max_intensity == INITIAL_MAX_INTENSITY,
    {
        AppState {
            osc_listening: false,
            ble_connected: false,
            battery_pct: None,
            haptics: Vec::new(),
            max_intensity: INITIAL_MAX_INTENSITY,
        }
    }

    /// Takes in one update: it replaces the field it reports on and leaves the others.
    pub fn apply(&mut self, update: GuiUpdate)
        ensures
            final(self).osc_listening == match update {
                GuiUpdate::Osc(listening) => listening,
                _ => old(self).osc_listening,
            },
            final(self).ble_connected == match update {
                GuiUpdate::Ble(connected) => connected,
                _ => old(self).ble_connected,
            },
            final(self).battery_pct == match update {
                GuiUpdate::Battery(pct) => Some(pct),
                _ => old(self).battery_pct,
            },
            final(self).haptics@ == match update {
                GuiUpdate::Haptics(values) => values@,
                _ => old(self).haptics@,
            },
            final(self).max_intensity == match update {
                GuiUpdate::Intensity(pct) => pct,
                _ => old(self).max_intensity,
            },
    {
        match update {
            GuiUpdate::Ble(connected) => self.ble_connected = connected,
            GuiUpdate::Osc(listening) => self.osc_listening = listening,
            GuiUpdate::Haptics(values) => self.haptics = values,
            GuiUpdate::Battery(pct) => self.battery_pct = Some(pct),
            GuiUpdate::Intensity(pct) => self.max_intensity = pct,
        }
    }
}

/// The OSC status line.
pub fn osc_status_text(listening: bool, osc_port: u16) -> (t: String)
    ensures
        t@ == if listening {
            "OSC listening on port "@ + decimal(osc_port as nat)
        } else {
            "OSC: not started"@
        },
{
    if listening {
        let mut t = String::from_str("OSC listening on port ");
        push_decimal(&mut t, osc_port as u64);
        t
    } else {
        String::from_str("OSC: not started")
    }
}

/// The BLE status line.
pub fn ble_status_text(connected: bool) -> (t: &'static str)
    ensures
        t@ == if connected { "BLE: Connected"@ } else { "BLE: Searching..."@ },
{
    if connected {
        "BLE: Connected"
    } else {
        "BLE: Searching..."
    }
}

/// The battery status line.
pub fn battery_status_text(battery_pct: Option<u8>) -> (t: String)
    ensures
        t@ == match battery_pct {
            Some(pct) => "Battery: "@ + decimal(pct as nat) + "%"@,
            None => "Battery: \u{2014}"@,
        },
{
    match battery_pct {
        Some(pct) => {
            let mut t = String::from_str("Battery: ");
            push_decimal(&mut t, pct as u64);
            t.append("%");
            t
        },
        None => String::from_str("Battery: \u{2014}"),
    }
}

/// The configuration line with the number of haptic channels.
pub fn haptics_count_text(haptics_count: usize) -> (t: String)
    ensures
        t@ == "Haptics: "@ + decimal(haptics_count as nat),
{
    let mut t = String::from_str("Haptics: ");
    push_decimal(&mut t, haptics_count as u64);
    t
}

/// The configuration line with the send period.
pub fn send_interval_text(send_interval_ms: u64) -> (t: String)
    ensures
        t@ == "Send interval: "@ + decimal(send_interval_ms as nat) + " ms"@,
{
    let mut t = String::from_str("Send interval: ");
    push_decimal(&mut t, send_interval_ms);
    t.append(" ms");
    t
}

/// A percentage label.
pub fn percent_text(pct: u8) -> (t: String)
    ensures
        t@ == decimal(pct as nat) + "%"@,
{
    let mut t = String::new();
    push_decimal(&mut t, pct as u64);
    t.append("%");
    assert(Seq::<char>::empty() + decimal(pct as nat) == decimal(pct as nat));
    t
}

/// The label of a haptic channel.
pub fn haptic_label(index: usize) -> (t: String)
    ensures
        t@ == "Haptic "@ + decimal(index as nat),
{
    let mut t = String::from_str("Haptic ");
    push_decimal(&mut t, index as u64);
    t
}

} // verus!
