# xget

A fast, resumable, verified file downloader: it splits a download into parallel chunks, writes each straight
to its place on disk, and hashes the result as it goes, so the digest it prints certifies the bytes that
arrived. The decisions are a library proved with Verus; the program around it owns files and connections.

## Layout

- `src/` is the library.
  - `plan`, `range`: how a resource is cut into chunks, afresh or around what is already on disk.
  - `control`: the resume record at the end of a `.xget` file, written and read back.
  - `engine`: a download as a machine (`session`), its chunks and their retries (`chunk`, `scatter`), the
    in-order verification (`verify`), the single stream (`stream`), and what they add up to (`trace`).
  - `checksum`, `digest`: the algorithms, and the hashers they come from.
  - `path`: paths, taken apart the way their platform does it.
  - `source`: what HTTP, S3, IPFS and a set of mirrors make of a request and its answer.
  - `cli`, `progress`: what the command line decides, and what it shows.
- `tests/` runs the library over files and sources that live in memory.
- `app/` is the program: requests, files, the event loop, the terminal.

Every public function states what it returns, and the properties that span functions stand beside them as
proof functions whose names begin with `law_`.
