# lb_ext_sdk

The Lazybones extension SDK as a verified library.

`src/` (the verified library):

- `frame` — `Content-Length` framing: building a frame, reading a header byte by byte,
  parsing the `Content-Length` field, bounding the body, and reading a frame out of bytes at
  hand. `lemma_read_after_write` proves that a frame written for a payload is read back as that
  payload, consuming exactly the frame.
- `wire`, `handshake` — the control-wire message shapes and the `init` reply with its protocol
  major.
- `serve` — the serve loop's decisions (`serve_step`, `finish_call`) and the `Tools` trait an
  extension implements.
- `world` — the WIT world constants and the major-version gate.
- `config`, `call_error`, `client` — the sidecar's callback configuration, error type and client.
- `command` — the `lb-ext` CLI's parsing and dispatch.
- `text` — whitespace trimming, ASCII case folding, unsigned decimal parsing and formatting.

`app/` holds the I/O: async framed stdio, the serve loop over tokio streams, the JSON shapes of
the wire types (serde), the HTTP callback (reqwest), and the CLI's `main`.
