# gdut-r1-by-rust

Firmware pieces of a robot controller on an STM32H7: DJI motors on an FD-CAN
bus, a bounded debug text buffer, and an RTT variable-watch tool that streams
`path=value` telemetry to a host and takes `set path value` commands back.

## Layout

- `src/` is the verified library (Verus). Every function there carries a
  contract that Verus proves, except the `heapless` wrappers in `fixed`,
  whose contracts are trusted:
  - `can_frame`, `motor_dji`, `bus`, `motor_base`: CAN frames, DJI feedback
    decoding, motor groups sharing one command frame, the 1 ms tick
    scheduling and the motor table of the bus actor, control timing.
  - `watch_value`, `watch_table`, `watch_task`, `watch_config`,
    `derive_plan`: the watch registry, the integer and boolean text codec,
    the command line protocol, telemetry frames, and the field decisions of
    `#[derive(Watch)]`.
  - `debug_printer`: the bounded debug buffer.
  - `tool`: clamping of integers.
  - `fixed`: the trusted specifications of the `heapless` containers that
    the watch code stores its paths, values and entries in; these state
    what the `heapless` source does and are not proved.
- `app/` is the firmware around it: the executor tasks, RTT and CAN I/O,
  the global registry behind a critical section, the registration macros,
  and everything that computes on floating point (PID loops, encoder
  angles, current conversion, angle normalization).
- `tests/` runs the library on concrete values.
