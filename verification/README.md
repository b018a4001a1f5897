# cfrp-detector

Finds out whether `ip:port` endpoints are Cloudflare edges, where they stand and how fast
they are. Endpoints come from the command line, from files, or from masscan runs over
addresses and autonomous systems.

`src/` is a library written in Verus. It holds everything that is decided or computed, with
contracts that are proved:

- `net`, `model`, `input`: addresses and targets, and the texts that stand for them
- `cidr`, `location`, `cache`: published ranges and places, and the files that keep them
- `connector`, `headers`: requests, responses and chunked bodies
- `probe`, `detection`, `detector`: the course of a detection, the verdict, and batches of
  detections with adaptive concurrency
- `governor`: holding concurrency back where file descriptors or other resources run short
- `error`: errors, and which of them deserve another try
- `speedtest`, `bench`: the figures of downloads and of the program itself
- `masscan`, `prefixes`, `masscan_pipeline`: scans, their files and their tables
- `config`, `export`: settings in layers, records and rows
- `text`, `numeral`, `ratio`, `time`: what the others are made of

The proof functions whose names start with `law_` state what holds of several functions
together, such as that a written target is read back, or that a batch never runs more probes
at a time than it may.

`app/` is the program around the library: the command line, sockets and TLS, files, signals
and output. `tests/` runs the library on concrete values.

Thresholds and factors are exact ratios of whole numbers, spans of time are whole
nanoseconds, and coordinates are kept as the bits of their floating-point numbers.
