# google_ai

A client of the Gemini Code Assist API (the `cloudcode-pa.googleapis.com/v1internal`
endpoint used by the Gemini CLI), whose decisions are verified with Verus.

- `src/` is the verified library: the JSON model of the messages (`json`), how a
  request becomes Gemini's payload (`request`, with `schema` for the tool
  schemas), how whole answers (`response`) and streamed chunks (`stream`) become
  messages and events, the reading of a streamed answer piece by piece
  (`stream_session`), the event-stream line decoder (`sse`), the tool call IDs and their cache
  (`tool_ids`, `cache`), the credentials and project steps (`auth`, `client`), the
  retry decision (`retry`) and the fixed URLs, headers and the first and last stream events (`session`).
- `app/` holds what runs around it: the HTTP calls, the credentials file, the
  environment, the waits between retries and the asynchronous event stream. It
  hands the library the raw bodies and bytes it receives; the library parses
  them with serde_json and decides what follows.
- `tests/` runs the library on concrete values.
