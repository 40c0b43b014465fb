# sidekiq_stats

The heartbeat of a worker process: a publisher tells a Redis server which process
it speaks for, how many jobs are at work and how much memory the process holds,
and withdraws the process when it shuts down.

The library in `src/` is verified with Verus.

- `counter`: counting busy jobs, from several places (`Counter`) or alone
  (`Count`).
- `text`, `rss`: numbers as text; resident memory out of what the operating
  system says.
- `identity`: the name of a process, `hostname:pid:nonce`.
- `process`, `command`: what is said, and the requests that say it.
- `publisher`: `StatsPublisher`, which makes the requests.
- `delivery`: sending them in turn, until one fails.
- `store`, `laws`: what the requests do to the data of a server, and what follows:
  a published process is listed with a heartbeat that expires, a withdrawn one
  leaves nothing behind, and neither concerns any other process.

`app/` holds what surrounds the library: the connection pool, the
conversions to JSON and floating point, the process id, and the files and system
calls that tell the memory in use.
