# novasdr_server

The decision logic of the NovaSDR WebSDR server, verified with Verus.

- `src/threads.rs`: which receivers get a dedicated reader thread and a waterfall worker thread.
- `src/frames.rs`: the FFT layout, the waterfall frame skip, the per-frame scheduler of the DSP
  loop, the half-overlapping input window and the reader's drop counter.
- `src/audio.rs`: the spectrum bins each audio client receives.
- `src/waterfall.rs`: which waterfall clients receive which slice of a quantized frame.
- `src/iq.rs`: interleaved IQ samples to one sample per pair.
- `src/events.rs`: the once-a-second events tick.
- `src/termination.rs`: whether a DSP loop error is the normal end of its input.
- `src/input.rs`, `src/bind.rs`: what input to open, and the host part of the bind address.

`app/` holds the server around it (HTTP routing, threads, channels, I/O); it builds on the
project's core crate and its state, websocket and shutdown modules.
