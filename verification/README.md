# embedded-mqttc

An MQTT 3.1.1 client whose protocol core is verified with Verus.

`src/` is the verified library:

- `buffer`, `stack_buffer`: byte buffers with a read and a write position.
- `pid`, `unique_id`: pools of packet identifiers and of request ids.
- `packet`, `codec`, `writer`: the packets, their encoding by `mqttrs2` and
  the send buffer the packets are written into.
- `publish`, `receives`, `subs`, `ping`, `request`: the state machines of
  outgoing publishes (QoS 0, 1, 2), incoming publishes, subscribe and
  unsubscribe requests, the keep-alive and the event loop's notification.
- `session`: the state machines together, driven by the packets received
  and the rounds of sending.
- `config`, `connection`: the client configuration and the decisions of the
  connection (the CONNECT, the steps of opening a connection, the CONNACK,
  the auto subscribes, which errors are recovered from).
- `decode`: reading packets from the receive buffer with the `mqttrs2`
  decoder, the framing of a packet and the inputs the decoder reads safely.
- `event_loop`: the decisions of one round of the event loop.

Each state machine is specified by spec functions over sequences (what a
round of sending does, what a received packet does), and the laws of the
protocol are proof functions over them: exactly-once delivery of QoS 2
publishes, acknowledgements that answer once, packet identifiers that are
never handed out twice, publishes that are never lost from the queues.

`app/` is the runtime around the library: the clock, the identifier pools
shared by a process, the TCP connection, the event loop and the client
handle. `tests/` runs the library on concrete values.
