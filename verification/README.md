# rqbit-fuse

A read-only FUSE filesystem over the torrents of an rqbit server.

- `src/` is the verified library: the inode table and the open file
  handles, the filesystem's answers to each request (lookup, attributes,
  directory listings, reads, removal of torrents, discovery of new and
  removed torrents), file name sanitizing, the configuration and its
  merging, the decisions of the HTTP client (retries, status checks,
  ranges, listings), persistent streams, the circuit breaker, error
  numbers, and the parsing of `mount` and `df` output. `src/laws.rs`
  states properties that span several operations.
- `app/` is the program around it: the command line, files and the
  environment, logging, the HTTP requests, the async worker, the FUSE
  session and the mount commands.
- `tests/` runs the library on concrete values.
