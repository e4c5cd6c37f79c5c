# meridian-relay

A daemon that multiplexes TCP connections to iOS devices over USB, and speaks
the usbmuxd client protocol. It also runs as a relay in front of another such
service.

The rules of the daemon are a library, written and proved in Verus. What the
operating system, the bus, the network and the terminal do is left to a thin
program around it.

## Layout

- `src/` is the library. Its functions have contracts, and the
  properties that span functions are public proof functions beside them.
  - `daemon/mux.rs`: frames and segments on the wire, and their reassembly
  - `daemon/conn_table.rs`: connections, and what a segment does to them
  - `daemon/device_manager.rs`: devices in use, negotiation, requests to connect
  - `daemon/device_scanner.rs`: which devices came and went
  - `daemon/usb.rs`: the bulk interface of a device
  - `daemon/protocol.rs`: packets of the client protocol
  - `daemon/connection.rs`, `daemon/session.rs`: what clients ask for, and the
    course of a session
  - `daemon/pair_records.rs`: names of the files that hold pair records
  - `daemon/transport.rs`, `daemon/address.rs`: endpoints, and internet addresses
  - `daemon/lifecycle.rs`, `daemon/relay.rs`: start, limits, relay mode
  - `device/`: the client's side: listing, watching, asking a device for values
  - `config.rs`, `cli.rs`: configuration and command line
  - `security.rs`, `metrics.rs`, `platform/`, `tunnel.rs`, `setup.rs`,
    `driver.rs`, `service.rs`: what their names say
  - `plists.rs`, `dates/`: property lists, and the dates in them
  - `text.rs`, `bytes.rs`: text and bytes
- `app/` is the program: sockets, files, USB transfers, TLS, the command line,
  and the Windows service. It asks the library what to do, does it, and hands
  back what happened.
- `tests/` runs the library.

## What is taken on trust

Property lists are held, written and read by the `plist` crate, PEM texts are
read by `rustls-pemfile`, and the clock is read by the standard library. Their
functions stand behind small declarations whose comments say what is claimed
of them. Everything else in `src/` is proved from those.
