# ingot

The decisions of a Docker-compatible container engine, as a library that Verus proves, and
a program around it.

- `src/` is the library. It reads image references, Dockerfiles, ignore files and compose
  projects; it leases addresses, answers name queries and words the commands that wire
  networks; it says what a registry's answers mean, keeps the image store's records and
  finds what is wrong with it; it takes builds and compose projects step by step, from
  what has happened to what is to be done next; and it words the requests and the output
  of the client, and reads what the daemon answers.
  Every public function states what it returns or changes, and the `law_` functions state
  what holds across several of them.
- `app/` is the program: the client's commands, compose projects, pulls, pushes and
  builds, the look at the image store, and the host's networks. It reads, sends, runs and prints.
- `tests/` runs the library.

What the library takes from other crates stands behind a few functions whose contracts are
believed rather than proved: JSON (`src/json.rs`), digests, hexadecimal and base64
(`src/encode.rs`), times (`src/pull.rs`, `src/listing.rs`), and letters and quoting
(`src/unicode.rs`, `src/dns.rs`, `src/auth.rs`, `src/text.rs`).
