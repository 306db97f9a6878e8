# launchcast

The verified core of LaunchCast, a model-rocket telemetry link: the
payload beacons 40-byte telemetry frames over LoRa, and a handheld ground
station shows them, sends commands (ARM, DISARM/RECOVER, CHIRP) and
fetches per-flight summaries.

`src/` is the library, checked by Verus. Its only trusted code is a
handful of one-call wrappers around `String::push` and `heapless::Vec`
(`new`, `push`, `extend_from_slice`, `as_slice`), whose contracts are
stated from those functions' documentation and source:

- `packet`: the wire format (telemetry, command, summary and flight-index
  frames), with round-trip laws; `radio_frame` adds the RadioHead header
  and counts accepted and rejected receive windows.
- `nmea`: NMEA 0183 line assembly from the GPS's I2C stream, `$..RMC`
  decoding with checksum, and UTC calendar time to and from Unix
  milliseconds; `civil` holds the calendar arithmetic, `epoch` the
  wall-clock reference taken from a GPS fix.
- `hold_tracker`, `buttons`: press/release edges to taps and holds.
- `screen`, `control`, `frame`, `flight_screen`: which screen shows, what
  each button does there, and what the footer says it does.
- `flight_index`, `summary_request`, `cmdlog`, `link`, `link_state`: the
  ground station's caches and request/confirmation state machines.
- `sharp_display`: the Memory LCD framebuffer and its SPI framing.
- `sessions`: splitting a flash-log dump into flight sessions.
- `icons`, `glyph`, `nogo`, `units`, `window`, `screen_text`: display
  rules, bitmap decoding and the text the screens show.

`app/` holds the floating-point side that stays outside verification:
physical units to and from the wire values, coordinate parsing and
averaging, navigation, unit conversion and battery estimates.

`tests/` exercises the library from outside.
