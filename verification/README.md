# gateway

An HTTP gateway with canary routing, circuit breaking, time budgets that travel with a
request, and tracing of a share of the requests.

- `src/` is the library, proved with Verus. It takes every decision: which requests are let
  in (`proxy`, `circuit_breaker`, `timeout_budget`), where they go and with which headers
  (`traffic_coloring`, `span_context`, `grpc_metadata`), which are traced and what a trace
  keeps (`trace_sampler`, `trace_record`, `async_logger`), and what the administration
  interface answers and changes (`admin_api`, `state`, `config`). `echo` is a small service to
  try the gateway with. `binary64` is the arithmetic of ratios and thresholds, stated in
  integers; `headers`, `text`, `time`, `random` and `string_map` are what the rest stands on.
- `app/` is the program: servers, tasks, clocks, files and JSON.
- `tests/` runs the library against concrete values.

What depends on chance or on a clock comes in two functions: one that reads the clock or
draws the number, and one that takes it as an argument and says exactly what follows.
