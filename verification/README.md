# rustmaniax_sdk

A verified library for StepManiaX dance pads.

`src/` holds the rules: packet framing and reassembly, command queues, device
information, configurations in both firmware formats, sensor tests, the order of
the pads, light frames and their pacing, animations from GIFs, firmware uploads,
recordings of HID traffic, and fake and replaying devices. It takes packets, times
and decoded files as plain values and gives packets, events and decisions back, so
that every rule is stated in a contract and proved with Verus.

`app/` runs those rules on real hardware: HID devices through `hidapi`, a thread to
update the pads, one reader and one writer for each, and recordings on disk. It is a
library too; its modules `sample`, `sensor_rate`, `input_timing` and `rw_probe` each
hold a `main` that a small program can call.

`tests/` drives the library on a clock of its own against fake devices and
recordings.

| Module | What it states |
|--------|----------------|
| `protocol` | packets, framing, reassembly, constants |
| `connection` | one device: reads, writes, the command queue |
| `device` | one pad: configuration, sensor test, events |
| `config`, `legacy_config` | the configuration and its two layouts |
| `sensor` | sensor test modes and data |
| `slots` | which pad stands in which slot |
| `pad_lights` | light commands and frames that wait |
| `manager`, `laws` | both pads, and what holds across calls |
| `gif`, `lights`, `upload` | animations |
| `single` | frame times, rounded as single-precision numbers are |
| `recorder`, `test_helpers` | recordings, fakes and replays |
| `profile`, `probe`, `text` | lock profile, measuring tools, text |
