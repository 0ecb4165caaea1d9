use patme::bridge::{plan_command, BridgeCommand, CommandPlan, Config};
use patme::haptics::{ChannelBank, HapticState, SampleHistory};

fn state(values: &[f32]) -> HapticState {
    HapticState { strength: values.iter().map(|v| v.to_bits()).collect() }
}

#[test]
fn new_state_is_all_off() {
    assert_eq!(HapticState::new(3).strength, vec![0u32; 3]);
    assert_eq!(HapticState::new(0).strength, Vec::<u32>::new());
}

#[test]
fn frames_are_little_endian_floats() {
    let values = [0.5f32, 1.0, 0.0, 0.123];
    let expected: Vec<u8> = values.iter().flat_map(|v| v.to_le_bytes()).collect();
    assert_eq!(state(&values).as_le_bytes(), expected);
    assert_eq!(state(&[]).as_le_bytes(), Vec::<u8>::new());
}

#[test]
fn device_reads_back_what_was_written() {
    let values = [0.25f32, 0.75, 1.0];
    let frame = state(&values).as_le_bytes();
    let decoded: Vec<f32> = frame.chunks(4).map(|c| f32::from_le_bytes([c[0], c[1], c[2], c[3]])).collect();
    assert_eq!(decoded, values.to_vec());
}

#[test]
fn test_pulses_raise_one_channel() {
    let current = state(&[0.2, 0.4]);
    match plan_command(BridgeCommand::TestPulse(1), &current) {
        CommandPlan::Pulse { pulse, restore } => {
            assert_eq!(pulse, state(&[0.2, 1.0]));
            assert_eq!(restore, current);
        }
        other => panic!("unexpected plan {:?}", other),
    }
    assert!(matches!(plan_command(BridgeCommand::TestPulse(2), &current), CommandPlan::Ignore));
    assert_eq!(current.pulse(0), Some(state(&[1.0, 0.4])));
    assert_eq!(current.pulse(5), None);
}

#[test]
fn intensity_cap_is_at_most_100() {
    let current = state(&[]);
    assert!(matches!(plan_command(BridgeCommand::SetMaxIntensity(40), &current), CommandPlan::SetMaxIntensity(40)));
    assert!(matches!(plan_command(BridgeCommand::SetMaxIntensity(100), &current), CommandPlan::SetMaxIntensity(100)));
    assert!(matches!(plan_command(BridgeCommand::SetMaxIntensity(250), &current), CommandPlan::SetMaxIntensity(100)));
}

#[test]
fn config_defaults_are_documented_ones() {
    let c = Config::default();
    assert_eq!(c.osc_port, 9001);
    assert_eq!(c.haptics_count, 2);
    assert_eq!(c.send_interval_ms, 20);
    assert!(!c.headless);
}

#[test]
fn history_keeps_latest_samples_newest_first() {
    let mut h = SampleHistory::new(3, 0u8);
    assert_eq!(h.samples().iter().copied().collect::<Vec<_>>(), vec![0, 0, 0]);
    h.append(1);
    h.append(2);
    assert_eq!(h.samples().iter().copied().collect::<Vec<_>>(), vec![2, 1, 0]);
    h.append(3);
    h.append(4);
    assert_eq!(h.samples().iter().copied().collect::<Vec<_>>(), vec![4, 3, 2]);
    let mut empty = SampleHistory::new(0, 0u8);
    empty.append(9);
    assert_eq!(empty.samples().iter().copied().collect::<Vec<_>>(), vec![9]);
}

#[test]
fn samples_reach_only_their_channel() {
    let mut bank = ChannelBank::new(2, 2, 0i32);
    assert_eq!(bank.len(), 2);
    assert!(bank.record(1, 5));
    assert!(!bank.record(2, 7));
    assert_eq!(bank.channel(0).samples().iter().copied().collect::<Vec<_>>(), vec![0, 0]);
    assert_eq!(bank.channel(1).samples().iter().copied().collect::<Vec<_>>(), vec![5, 0]);
    assert!(bank.record(1, 6));
    assert_eq!(bank.channel(1).samples().iter().copied().collect::<Vec<_>>(), vec![6, 5]);
}
