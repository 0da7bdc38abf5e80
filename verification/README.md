# ReactIO

A low-latency, event-driven, non-blocking reactor. A `ReactRuntime` polls sockets; each socket has a
reactor, which receives its messages and the commands that are sent to it. Only 64-bit platforms are
supported.

`src/` is the verified library. It decides; it does no I/O. A caller performs what it asks for and
hands the outcome back as a plain value:

- `flat_storage`, `storage_history`: elements under keys that stay the same; freed keys are used again,
  the last freed first.
- `deferred`: commands that wait for their time, in a heap.
- `msg_sender`, `send_history`: messages that the socket did not take wait in a queue. Nothing is
  lost, repeated or reordered.
- `msg_reader`, `read_history`: received bytes are cut into messages. A dispatcher is shown the same
  ones however the reads cut the stream.
- `sock_table`, `event_pass`, `reactor_id`, `reactor`, `command`, `runtime`: the sockets of a runtime,
  what an event does to them, and commands.
- `listener`: listeners that make a reactor for each connection.
- `threaded_reactors`: runtimes in threads, and the names of their reactors.
- `tcp_events`, `poller`: simpler pollers, whose handlers do their own I/O or take no commands.
- `sample`, `threaded_sample`: a reactor that echoes messages and measures how long they take.
- `socket_io`, `bytes`, `text`, `utils`: outcomes of sockets, and times and numbers as text.

`app/` is ordinary Rust around the library: sockets, the poller, clocks, threads and logging.
`tests/` runs the library, also over pipes in memory that stand for sockets.
