# chat_sse

The decision logic of a Chat Completions response stream delivered over
server-sent events, verified with Verus.

- `src/` is the verified library. `stream::ChatStream::process_sse_event` decides,
  for each input of the transport (an SSE event with its decoded JSON, the end of
  the stream, a transport failure, an idle timeout), which events the consumer
  receives and whether the stream is over. `accumulator` folds text and tool-call
  fragments, `error` maps provider error codes, `text` recognises the `[DONE]`
  marker, and `laws` proves properties of whole streams.
- `app/` runs the asynchronous loop: it reads the SSE body with
  `eventsource-stream`, decodes JSON with `serde_json`, applies the idle timeout
  with `tokio`, and delivers the events over a channel.
- `tests/` drives the library through the scenarios of the stream.
