# beet_esp

Firmware logic for an ESP32-S3 driving the Arduino Alvik robot, written in
Verus: every function in `src/` carries a contract that Verus proves, except
four thin wrappers whose contracts are trusted rather than proved. Three call
`p256` (SEC1 key decoding, DER signature decoding, ECDSA verification) and
one calls `String::from_utf8_lossy`; each names the outside call's result and
says no more of it.

## Layout

- `src/` — the verified library.
  - `ucpack`, `protocol` — the ucPack frame codec (CRC8-MAXIM, encoder,
    streaming decoder) and the Alvik command/status messages on it.
  - `driver` — the UART driver's decisions: folding sensor status into a
    snapshot, the bring-up handshake, what to publish per read.
  - `robot`, `events`, `actions`, `types` — the robot's readouts, the
    commands flushed from commanded state, touch/motion edge events, and
    the behaviour steps and route handlers.
  - `mdns`, `http`, `net`, `text`, `sntp`, `tls` — the network layer's wire
    formats and parsers: mDNS `A` queries/answers, HTTP/1.1, dotted IPv4 and
    authorities, SNTP, and pinned-certificate TLS trust (ECDSA by `p256`).
  - `socket` — the WebSocket client's connection target and key bytes.
  - `health`, `mem`, `led` — stack high-water arithmetic and the memory
    report, PSRAM bring-up info, and WS2812 pixel encoding.
- `tests/` — tests run against the compiled library.
- `app/` — the firmware around the library: the ESP32 peripherals, embassy
  tasks, the Wi-Fi stack, the ECS components and systems, and the
  floating-point conversions.

Floats travel through the library as their IEEE-754 bit patterns; the
application converts them at its edge.
