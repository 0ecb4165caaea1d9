//! Host-side logic of the PatMe-in-VR haptic bridge.
pub mod ble;
pub mod bridge;
pub mod gui;
pub mod haptics;
pub mod osc;
pub mod osc_discovery;
pub mod text;
