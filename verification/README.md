# crawler_rs

A web crawler with a live graph of the pages it visits, written in Rust and
verified with Verus.

- `src/` is the verified library: absolute URLs (`weburl`), link extraction
  from HTML (`links`), the crawl manager and fetch-task reports (`crawler`),
  the relay between crawler and window (`app`), the window's state and
  decisions (`gui`, `clock`), and the small graph helpers of the demo and
  benchmark (`demo_graph`, `benchmark`).
- `app/` is the program around it: the HTTP client, the tokio tasks and
  channels, and the egui window. `--benchmark` runs the graph-layout benchmark.
- `tests/` exercises the library on concrete values.
