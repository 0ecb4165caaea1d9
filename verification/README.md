# patme

Host-side logic of the PatMe-in-VR haptic bridge, which forwards VRChat's OSC avatar
parameters to a Bluetooth LE haptic device, written in Verus with its behaviour stated
in `requires` / `ensures` contracts and proved.

Layout:

- `src/osc.rs` — which OSC addresses drive the haptics, how an argument is clamped,
  and how a received datagram (decoded by `rosc`) becomes parameter updates.
- `src/osc_discovery.rs` — OSCQuery: recognising VRChat clients among mDNS services,
  the published VRChat status, and the HTTP answers to OSCQuery requests.
- `src/haptics.rs` — the haptic state, its little-endian wire frame, and the bounded
  sample histories per channel.
- `src/ble.rs` — the decision table of the BLE link loop and battery-level decoding.
- `src/bridge.rs` — configuration defaults and the GUI's commands.
- `src/gui.rs` — the status the GUI shows and the text of its labels.
- `src/text.rs` — character-level helpers (decimal digits, ASCII case, whitespace).
- `app/` — the program: sockets, BLE, mDNS, timers, the iced GUI and the
  floating-point smoothing, driving the library.
- `tests/` — tests of the library on concrete values.

Single-precision values travel through the library as IEEE-754 bit patterns.
