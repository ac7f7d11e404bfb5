# audiostream

The call logic of a peer-to-peer voice program, verified with Verus, and the program
around it.

`src/` is the library. It holds no floating-point numbers: a sample, a level, a latency or
an effect parameter crosses it as the bit pattern of the single-precision value.

- `ring`: the bounded sample buffers between sound card and network, on `ringbuf`.
- `wire`: the packet format, a length prefix of eight bytes and a payload.
- `settings`: codec, latency and devices, as the user sets them.
- `audio`: the sending and the receiving half of an audio channel, as state machines.
- `channel_laws`: what holds of every run of the two halves.
- `call_laws`: what holds of every run of a call with its keeper and its channel.
- `server`: the life of a call, from its devices to its last message to the window.
- `identity`: the certificate of a server, made by `rcgen`.
- `mixer`: the effect rack, reordered with `egui_dnd`.
- `ui`: the state behind the window.

`app/` is the program: the window, the sound devices, the codec and the network. It looks
at the phase that the library's state machines are in, does what the phase calls for, and
reports what came of it. `tests/` runs the library.
