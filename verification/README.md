# async_uws

An asynchronous HTTP and WebSocket server on top of uWebSockets and tokio.

- `src/` is the verified core: WebSocket messages and their fragmentation into
  frames, the send plan and backpressure handling, the state of the futures that
  wait on the event loop, request header lookup and upgrade headers, request body
  assembly, response status/header ordering, route settings and the staging of
  application data. Every function there carries a contract proved by Verus.
- `app/` owns the native uWebSockets objects, the tokio tasks and channels, and
  the type-indexed data storage; it calls `src/` for each decision.
- `tests/` exercises the library on concrete values.
