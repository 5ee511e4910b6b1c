# repeater

A websocket repeater for terminal recordings. One end publishes a recording; any number of
clients watch it, and those who come late are sent everything from the start.

`src/` is the library, verified with Verus. It decides; it does no input or output. Each part
that waits for the outside world is a function from an event to the next thing to be done:

- `broker` keeps the recording and passes it on; `history` holds what is true of whole runs, and
  `delivery` what each client gets of it.
- `server` knows its two secret paths, writes them as URIs and sorts visitors by them.
- `publisher` and `session` are the server's side of a publisher's and of a client's connection.
- `client` and `pipe` are the programs at the other end.
- `relay` puts publisher, broker and client together.
- `listen` and `parse` read addresses; `text` and `uri` write them; `readback` and `ipv6` tie the
  two.
- `mode` turns the command line into a plan.
- `message`, `addr`, `ident` and `error` are the values that all of them speak of.

`app/` is the program around the library: sockets, channels, processes and the command line.
