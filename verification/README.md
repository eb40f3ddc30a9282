# chat

A small chat system over TCP. A message travels as its UTF-8 bytes preceded
by one byte that holds their number, so a message has at most 255 bytes.

- `src/` is the verified library:
  - `frame`: the wire format, `write_message` / `read_message`, and the
    round-trip laws;
  - `buffer` and `codec`: the streaming codec over `bytes::BytesMut`;
  - `messages`: nicknames and the lines the servers send;
  - `session`: what a server does with each message of one connection;
  - `broadcaster`: the subscriber registry of the broadcasting servers;
  - `clients`: the client list of the queue-based server;
  - `text`: UTF-8 decoding and trimming.
- `app/` holds the programs (`chat client`, `chat server [sync|queue]`): the
  sockets, threads and event loops around the library.
- `tests/` runs the library on concrete values.
