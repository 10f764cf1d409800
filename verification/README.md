# Fugue

Fugue shows several Subsonic music servers as one library, without duplicates,
and lets friends share playlists, listening parties and streams.

The library in `src/` holds all rules of the program, written in Rust and proved
with Verus: every function states what it returns in `requires` and `ensures`.
The program in `app/` is ordinary Rust around it: the HTTP server and client,
the database, the peer-to-peer network and the command line.

| Module | What it holds |
|--------|---------------|
| `id`, `codec`, `strs`, `unicode`, `xml`, `json`, `like` | identifiers, encodings, texts and values |
| `sorting`, `table`, `natural`, `random`, `clock` | stable sorting, keyed tables, large numbers, chance and time |
| `config`, `error`, `cli` | settings, errors and what commands print |
| `proxy`, `health` | requests to backends, merging their answers, availability |
| `cache`, `dedup` | the cached library, its refresh, duplicates and their best source |
| `subsonic` | the endpoints of the Subsonic API |
| `social` | friends, collaborative playlists, parties and what nodes tell each other |

What holds across functions is stated in public proof functions beside them:
that identifiers lead back to where they came from, that collaborative playlists
converge whatever the order in which operations arrive, that no duplicate is
shown beside a better copy, and so on.

What the proofs rest on stands in `codec`, `random`, `unicode`, `clock` and
`strs`: small wrappers around other crates and the standard library, each with a
comment that says what is claimed of it.
