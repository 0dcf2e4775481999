# wgpu_async

Awaitable versions of wgpu's callback-and-poll operations.

- `src/` is the verified library: the completion slot shared by a callback
  and its future (`completion`), the decision made by one poll of such a
  future and its claim on the background poll loop (`future_poll`), and the
  poll loop's outstanding-operation count and thread state machine
  (`poll_loop`), each with its laws.
- `app/` wraps `wgpu::Device`, `wgpu::Queue` and `wgpu::Buffer`, runs the
  poll thread, holds the locks and implements `Future`, acting on the
  library's decisions.
- `tests/` exercises the library on concrete values.
