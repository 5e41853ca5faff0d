# localdb_core

The core of localdb, a local document database: a verified Rust library, and the application
code around it.

- `src/` is the library. Every function states what it returns or changes, and Verus proves it.
- `tests/` runs the library on concrete values.
- `app/` reads and writes: files, SQLite, YAML and JSON, stores, embedders and servers.

## Modules

| Module | What it holds |
| --- | --- |
| `text`, `lists`, `json`, `os_path`, `paths`, `urls` | texts, sequences, JSON strings, paths, names in paths, parts of URLs |
| `calendar`, `clock`, `dates` | the Gregorian calendar, the current time, dates of documents |
| `error`, `types`, `block`, `backend`, `citation` | shared types |
| `ids` | ULIDs and content-addressed ids |
| `outline`, `heading_index` | headings of documents |
| `chunker` | documents to chunks: prose, code, tables, conversations |
| `ingestion` | runs over sources: what is indexed, updated, removed and asked for |
| `config` | configuration: validation, paths, policies, stores of a running system |
| `auth` | tokens, clients, users, grants, codes and invites |

## Conventions

- A text is a sequence of characters; byte offsets are lengths in UTF-8. A path of the
  operating system is a sequence of bytes.
- A type with parts has a view: the same parts as mathematical values.
- What depends on the clock comes in two forms. One takes the moment and says exactly what
  happens; the other reads the clock and calls the first.
- What an outside crate computes is behind a small wrapper whose comment says what is taken
  for granted.
- General statements stand as public proof functions beside what they are about.
