use patme::ble::{battery_level, LinkAction, LinkController, LinkEvent, LinkStep, Status};
use patme::gui::{
    battery_status_text, ble_status_text, haptic_label, haptics_count_text, osc_status_text,
    percent_text, send_interval_text, AppState, GuiUpdate,
};

fn step(action: LinkAction, notify: Option<Status>) -> LinkStep {
    LinkStep { action, notify }
}

#[test]
fn battery_level_is_first_byte() {
    assert_eq!(battery_level(&[87, 1]), Some(87));
    assert_eq!(battery_level(&[]), None);
}

#[test]
fn link_connects_writes_and_reports() {
    let mut link = LinkController::new();
    assert!(!link.holds_connection());
    assert_eq!(link.step(LinkEvent::StateChanged), step(LinkAction::Discover, None));
    assert_eq!(link.step(LinkEvent::DeviceNotFound), step(LinkAction::Backoff, None));
    assert_eq!(link.step(LinkEvent::BackoffElapsed), step(LinkAction::AwaitState, None));
    assert_eq!(link.step(LinkEvent::StateChanged), step(LinkAction::Discover, None));
    assert_eq!(link.step(LinkEvent::DeviceFound), step(LinkAction::Write, Some(Status::Connection(true))));
    assert!(link.holds_connection());
    assert_eq!(link.step(LinkEvent::WriteDone), step(LinkAction::ReadBattery, None));
    assert_eq!(link.step(LinkEvent::BatteryRead(Some(55))), step(LinkAction::AwaitState, Some(Status::Battery(55))));
    assert_eq!(link.step(LinkEvent::StateChanged), step(LinkAction::CheckLink, None));
    assert_eq!(link.step(LinkEvent::LinkChecked(true)), step(LinkAction::Write, None));
    assert_eq!(link.step(LinkEvent::WriteDone), step(LinkAction::ReadBattery, None));
    assert_eq!(link.step(LinkEvent::BatteryRead(None)), step(LinkAction::AwaitState, None));
    assert_eq!(link.step(LinkEvent::StateChanged), step(LinkAction::CheckLink, None));
    assert_eq!(link.step(LinkEvent::LinkChecked(false)), step(LinkAction::Discover, None));
    assert_eq!(link.step(LinkEvent::DeviceFound), step(LinkAction::Write, Some(Status::Connection(true))));
    assert_eq!(link.step(LinkEvent::WriteFailed), step(LinkAction::Disconnect, Some(Status::Connection(false))));
    assert!(!link.holds_connection());
    assert_eq!(link.step(LinkEvent::BackoffElapsed), step(LinkAction::AwaitState, None));
    assert_eq!(link.step(LinkEvent::StateChanged), step(LinkAction::Discover, None));
    assert_eq!(link.step(LinkEvent::ChannelClosed), step(LinkAction::Stop, None));
}

#[test]
fn gui_state_takes_updates() {
    let mut s = AppState::new();
    assert!(!s.osc_listening && !s.ble_connected);
    assert_eq!(s.battery_pct, None);
    assert!(s.haptics.is_empty());
    assert_eq!(s.max_intensity, 70);
    s.apply(GuiUpdate::Osc(true));
    s.apply(GuiUpdate::from_status(Status::Connection(true)));
    s.apply(GuiUpdate::from_status(Status::Battery(42)));
    s.apply(GuiUpdate::Haptics(vec![0.5f32.to_bits()]));
    s.apply(GuiUpdate::Intensity(30));
    assert!(s.osc_listening && s.ble_connected);
    assert_eq!(s.battery_pct, Some(42));
    assert_eq!(s.haptics, vec![0.5f32.to_bits()]);
    assert_eq!(s.max_intensity, 30);
    s.apply(GuiUpdate::Ble(false));
    assert!(!s.ble_connected && s.osc_listening);
}

#[test]
fn gui_labels() {
    assert_eq!(osc_status_text(true, 9001), "OSC listening on port 9001");
    assert_eq!(osc_status_text(false, 9001), "OSC: not started");
    assert_eq!(ble_status_text(true), "BLE: Connected");
    assert_eq!(ble_status_text(false), "BLE: Searching...");
    assert_eq!(battery_status_text(Some(7)), "Battery: 7%");
    assert_eq!(battery_status_text(Some(100)), "Battery: 100%");
    assert_eq!(battery_status_text(None), "Battery: \u{2014}");
    assert_eq!(haptics_count_text(2), "Haptics: 2");
    assert_eq!(send_interval_text(20), "Send interval: 20 ms");
    assert_eq!(send_interval_text(u64::MAX), format!("Send interval: {} ms", u64::MAX));
    assert_eq!(percent_text(0), "0%");
    assert_eq!(haptic_label(10), "Haptic 10");
}
