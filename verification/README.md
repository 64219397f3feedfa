# audiobridge

Use the headset plugged into a Linux machine from a Windows VM: your voice
reaches the guest as a microphone, and whatever the guest plays comes back to
your headphones. Uncompressed 16-bit PCM over UDP, with a jitter buffer at each
receiver.

The library in `src/` is verified with Verus. It holds everything that can be
decided without touching a socket, a clock or a sound device:

- `packet`, `format`, `reader`, `bytes` — the wire format. What a read gives
  back of a write is proved in `packet_laws`.
- `jitter`, `resampler`, `rounding` — the jitter buffer. Interpolation, fades and
  the rate that chases clock drift are binary64 arithmetic, carried out on
  integers in ticks of 2^-53. The contracts state each rounding; that they are the
  roundings of `f64` is tested, not proved: `tests/resampling.rs` compares results with
  the same steps in `f64`, to the last bit. What holds across
  pushes and pulls is proved in `jitter_laws`.
- `host` — the agent on the Linux side: settings, session, sound streams.
- `vm` — the agent on the Windows side: settings, session, endpoints, the
  schedule of captured playback.
- `handshake_laws` — what the two agents make of each other.

Each agent's session is a state machine from a packet or a timer to what to do
about it. `app/` runs them: it owns the sockets, the sound devices, the command
line and the configuration files.

The functions that call out of the verified code are few: the conversion of UTF-8
bytes to a string, lower-casing, and the view of samples as bytes.
