# distracing

An OpenTracing library with three tracers: a no-op tracer, a mock tracer
that keeps the spans it is given, and a LightStep tracer.

The library in `src/` is verified with Verus:

- `strmap`, `value`, `context`, `span`: insertion-ordered string maps, tag
  values, span contexts with their baggage, live and finished spans.
- `tracer`: the `Tracer` and `CarrierMap` traits, the `TextMap` carrier and
  the span builder.
- `text`, `wire`: hexadecimal and decimal text, and the protobuf wire
  format (varints, keys, fixed64, length-delimited fields, skipping).
- `tracers::noop`, `tracers::mock`, `tracers::lightstep`: the tracers; the
  LightStep modules hold the text-map and binary propagation formats, the
  collector messages, the report request and response, and the span buffer
  of the reporter.

`app/` is the runtime around it: the process-wide tracer, spans that report
themselves when dropped, the reporting thread and its HTTP client, and
floating-point values.
