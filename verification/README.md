# compio-h2

The protocol core of an HTTP/2 client and server, verified with Verus: frames and
their form on the wire, flow control, stream states, settings, header validation, and
the connection's event loop as a state machine without input or output.

- `src/`: the verified library.
  - `buf`, `text`, `error`: bytes, numbers as text, and errors.
  - `frame`, `codec`: frames, the queue of bytes to be written, and the splitting of
    data and header blocks.
  - `proto`: the connection. `connection` holds its state, `recv` what it does with
    incoming frames, `send` what it does on behalf of its user, `flush` what it does
    after a batch of messages, and `event_loop` how it starts, runs and ends. `laws` and
    `window_laws` state what holds of all of this together.
  - `builder`, `client`, `server`, `share`: the handles that applications use.
- `tests/`: the library on concrete values.
- `app/`: the library driven over a transport: channels, the clock, reading and
  writing. Decoding of incoming frames and header compression are handed in as traits.

Every step of the connection is described by a function on plain values, a method of
`ConnView`, and the executable function beside it is proved to do just that. What an
application is told comes out as `Event`s, each addressed to a stream or to the
`Ticket` under which something was asked for.

Calls into the `bytes` and `http` crates are trusted, and so is one function of the
standard library, `String::from_utf8_lossy`. Each such item says in its comment which
function it stands for and what it claims of it.
