# dsp_engine

A system-wide audio engine. It captures from a virtual cable, sends each stereo frame through a
ten-band equalizer, clarity, bass, stereo and dynamics stages, and plays it on a headset or
speaker. A dashboard connects over a WebSocket, moves the controls and receives reports.

- `src/` is the library: the logic of the engine, with contracts proved by Verus.
  - `devices`, `text`: which devices to capture from and play on, and which outputs to list.
  - `formats`, `samples`: how samples are converted, which input configuration to take, how long
    the queue is.
  - `ring`: the queue of frames between capture and playback, on top of the `ringbuf` crate.
  - `number`: the trait for the numbers of the signal path, and whole numbers as an exact kind.
  - `biquad`: the peaking filter.
  - `reals`, `ideal`: real numbers as another exact kind, and the peaking filter on them.
  - `filters`, `engine`: the filter bank, the order of the stages, and the stages at work.
  - `controls`: the control panel and what a control message changes.
  - `session`: the conversation with the dashboard, as a state machine.
  - `meter`, `telemetry`: the text meter and the report.
- `app/` is the program: audio streams, sockets, JSON and the floating-point operations.
- `tests/` runs the library, also on floating-point numbers.

The signal path is written over the trait `Number`. Its contracts say which operations are
combined and in which order, and what each step changes and keeps; they hold for every kind of
number whose operations are functions of their operands. Laws that need more say so: superposition
is stated for numbers that obey the laws of arithmetic; stability, the level at the centre and at
the ends of the spectrum, and the inversion of a boost by a cut are stated for real numbers; and a
few, such as that a gain of zero changes nothing, rest on single identities which rounded numbers
can meet. What the floating-point operations themselves compute is not verified, nor is how far
their results are from the exact ones.

In the queue and in the control panel, samples and control values are 32-bit patterns.

Trusted without proof: the contracts of `HeapRb::new`, `Rb::push` and `Rb::pop` in `src/ring.rs`,
and the one of `str::to_lowercase` in `src/text.rs`.
