# websrv_core

The request-handling core of a small HTTP server that serves HTML and JPEG
files and offers three API endpoints: a virus scan of an uploaded file, a
run of an uploaded Python program with a time limit, and the deployment of an
uploaded program as a Knative service.

`src/` is the verified library (Verus):

- `request.rs`: the read loop as a state machine (`RequestReader`), and the
  form data cut out of a multipart upload;
- `head.rs`: the analysis of the first block read (end of the head,
  `Content-Length`, multipart boundary);
- `route.rs`: the request line and the routing decision;
- `reply.rs`: file pages, fixed messages, the event stream, and the replies
  of the scan and run endpoints;
- `commands.rs`: the shell command lines of the endpoints;
- `deploy.rs`: the image id read from the build output, the service manifest,
  the deploy reply and the random service name;
- `text.rs`, `bytes.rs`, `utf8.rs`, `inspect.rs`, `debug.rs`: string helpers,
  byte searching and number parsing, UTF-8 validation, binary-or-text
  classification, and the debug switches.

`app/main.rs` is the server itself: the listener, the thread pool, the socket,
file and process work, driven by the library's decisions.
