# wartable

Resource-aware job scheduler for GPU homelab servers. Clients submit bash jobs over MCP or
the REST API; the scheduler queues them by priority, dispatches them within a concurrency
limit and per-GPU VRAM budgets, runs them, and serves their logs, status and files.

## Layout

- `src/` — the library, verified with Verus. It holds the scheduling, GPU, log, key,
  authorisation and request rules; the order in which a handler applies its checks and
  the file I/O around them stand in `app/`:
  - `scheduler.rs`: the scheduler's state and operations (submit, dispatch, cancel,
    complete, query). Each operation returns the effects to carry out (events to publish,
    workers to start or stop) instead of performing them.
  - `queue.rs`, `order.rs`: the priority queue and the ranked order it keeps.
  - `gpu.rs`: per-device VRAM budgets, device selection by policy, grants and releases.
  - `logs.rs`, `worker.rs`: log reading (offsets, tails, the combined log), what a
    worker writes before and while a job runs, and how it brings a job down.
  - `keys.rs`, `auth.rs`, `download.rs`: API keys, request authorisation, and signed
    download links.
  - `requests.rs`, `config.rs`, `models.rs`, `resources.rs`, `text.rs`: request
    handling rules, configuration, the data model, disk totals and text helpers.
  - `system.rs`: the wall clock and the operating system's random source, which the
    operations that stamp times or draw secrets and ids read; a failed draw is an
    error the caller sees, never a panic.
- `app/` — the server around the library: configuration file, scheduler actor, worker
  processes, HTTP routes, MCP tools and resource metrics.
- `tests/` — tests of the library.

Memory amounts (VRAM, RAM, disk) are whole bytes inside the library; clients and the
configuration file give them in gigabytes, converted (rounding up) at the edge.
