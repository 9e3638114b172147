# adb_daemon

A daemon that speaks the Android Debug Bridge: clients connect to it over TCP,
devices over USB, and any number of sockets run over one device connection.

`src/` is the library. It holds the protocol and the bookkeeping, without any
input or output, and Verus proves every function in it against its contract:

- `message`, `le`, `protocol`, `number`, `text`, `proto`, `banner`: the formats.
- `socket`, `transport`, `backend`: the sockets of a device connection, their
  buffers and their windows, and how messages find them.
- `auth`, `pubkey`: how a connection is opened.
- `usb`, `discovery`: messages as USB transfers, and how a device becomes a
  connection.
- `connection`, `tables`: the devices that are connected.
- `smart_socket`, `services`, `forward`, `reverse`: the requests of clients,
  and forwarding in both directions.
- `config`, `daemon`, `log`, `shim`: the configuration, the start of the
  daemon, the log files, and the program under the name of the client.

Where something outside has to be asked in the middle of a decision, the
library says what to do next and takes in what came of it. Facts about the
outside come in as plain values: which connections have closed (`Standing`),
which tasks have ended, how flushing went.

The functions whose names start with `law_` state what holds of several
operations together, such as that what is read is what arrived, or that a port
that is rebound keeps its listener.

What is believed and not proved stands behind small functions, each with a
comment that says what it relies on: `dashmap` in `tables`, `rsa` in `auth` and
`pubkey`,
`camino` in `config`, and two functions of `String` in `text`.

`app/` is the program around the library: sockets, USB, files, tasks, logging.
`tests/` holds the tests of the library.
