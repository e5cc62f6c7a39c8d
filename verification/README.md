# vector_moogsoft

The Moogsoft sinks of a log and metrics router, the reparsing of scraped Prometheus
metric families into metric events, and the acknowledgement bookkeeping of its stream
driver, written in Verus with their contracts proved.

- `src/event.rs`: the event model (log events as fields by path, metrics, tags, values).
- `src/time.rs`, `src/text.rs`: points in time and text helpers, with the calls into
  `chrono` and the standard library that they rest on.
- `src/moogsoft.rs`, `src/moogsoft_controller.rs`, `src/moogsoft_internal_logs.rs`:
  the three sinks: configuration, conversion of events, record framing, requests.
- `src/sink_http.rs`: batch framing shared by the sinks, with the proof that a batch is
  the JSON array of its records.
- `src/prometheus.rs`: metric families to metric events; histogram buckets ordered and
  turned into per-bucket counts.
- `src/driver.rs`: acknowledgement of completed requests in the order they were sent,
  and the status a completed call gives its events.
- `src/providers.rs`, `src/internal_events.rs`: configuration providers and the events
  the sinks report.
- `app/`: JSON encoding, HTTP requests, internal metrics, host name, and the driver loop.

## What is not here

- The Prometheus text and protobuf parsers: `src/prometheus.rs` starts from metric
  families that are already parsed into groups.
- The wiring of the sinks into the router's HTTP machinery (client, batched sink,
  health check, retries); the library gives each sink's request and batch settings
  and builds its requests as plain values, and `app/` turns them into `http` requests.
- Nested maps and arrays inside events are held only as their JSON text, and floats
  as their bits plus their displayed text; whoever builds such a value sets the text.
- Which time the clock gives: contracts that read the clock say only that the time is
  one `chrono` accepts. Where the clock reads before the Unix epoch, the functions
  that need it report `ClockUnavailable`, and `app/` stops as the router does.
