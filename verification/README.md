# tuican

A terminal CAN bench: pick an adapter, load a DBC, send and watch traffic.

The decisions the tool makes are a Verus-verified library under `src/`:

- `canid`, `transport` — identifiers, payloads, the gs_usb and slcan wire
  formats (frames, bit timing, error reporting), SocketCAN error reporting,
  and the interface list the picker offers.
- `dbc` — the message model, bit-level field encode and decode, multiplexing,
  and loading a DBC file's bytes into the model (the parse itself is
  `can-dbc`'s).
- `rules` — edge-triggered reactions, the bounded cascade, and the checks of
  a rules file against the loaded DBC.
- `bus` — the periodic-send table and the reconnect backoff the bus thread
  follows.
- `app`, `ui` — the receive table, cursors, scrolling, counts, prompts, pickers, key and mouse
  mapping, the screen layout and the text of every row.
- `startup`, `config`, `cli` — what to load and open on launch.

`app/` is the program around it: the terminal, the threads, the USB, serial
and socket I/O and device listings, file reading and writing, and the
physical (floating-point) signal values and scales.
