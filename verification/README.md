# ephyr

Verified core of a server-side streaming kit, written in Verus.

- `src/` is the library. Its functions are verified, but for the small
  trusted wrappers around outside calls named at the end of this file:
  - `timelike`, `seconds`, `timezone`: text formats of durations and timezone
    offsets, with their round trips;
  - `vod`: `vod-meta` playlists (slugs, segment durations, parsing of requests,
    weekly scheduling for `nginx-vod-module`, with the law that segment
    numbering only grows across schedules) and the VOD file cache (paths and
    the download step machine);
  - `restreamer`: the re-streaming state and its GraphQL operations, SRS
    callbacks, DVR paths, and the FFmpeg processes that a state needs (their
    arguments, restarts, volume tuning and statuses);
  - `mixer`: validation of mixing specifications and FFmpeg mixer arguments;
  - `backoff`, `filter::silence`: step machines of a retrying reader and of a
    silence filler.
- `tests/` runs the library on concrete values.
- `app/` is the program around it: command-line entry, file and process I/O,
  serde copies of the specification types. Verus does not see it.

Calls into `url`, `regex`, `chrono`, `uuid`, `rust-argon2`, `rand` and
`std::path` stand behind small trusted wrappers (`#[verifier::external_body]`
functions, not verified) whose doc comments say what their contracts claim
of the outside code.
