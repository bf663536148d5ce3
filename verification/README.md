# net_chat

A chat service: clients register a name, broadcast messages (`/Scream/<message>/`),
whisper to one another (`/Whisper/<recipient>/<message>/`), send files
(`/SendFile/<recipient>/<filename>/`), list who is online (`/ListUsers/`) and leave
(`quit`). The server answers over TCP (port 8080) and UDP (port 8081); the
interactive client always talks TCP (`client <host> udp` only makes it connect to
port 8081).

## Layout

- `src/` — the library, with its contracts and proofs:
  - `text.rs`: trimming, splitting on a separator, ASCII case folding, joining.
  - `roster.rs`: the table of registered names and their peer addresses.
  - `protocol.rs`: commands, server responses, deliveries, line framing.
  - `server.rs`: what a TCP client's command does and whom it reaches.
  - `udp.rs`: what a UDP datagram does and whom it reaches.
  - `client.rs`: what a typed line asks for, and how server messages are shown.
  - `launch.rs`: what the command line asks the program to run.
- `app/` — the program around the library: sockets, threads, terminal and files,
  JSON encoding of messages (serde), logging and Ctrl-C handling.
- `tests/` — tests of the library on concrete values.
