# Hikyaku

A client for Matrix rooms whose rules are verified with Verus.

- `src/` is the library. It decides and computes: what a room shows, how
  messages are merged, counted, rendered and routed, what is asked of a server
  and what follows from its answer. Every item carries a contract, and the laws
  that relate several functions are proof functions named `law_...`.
- `tests/` runs the library on examples.
- `app/` is the program: it talks to homeservers, the disk, the keyring and a
  local model, and shows rooms on a terminal.

The modules of the library:

| Module | What it is about |
| --- | --- |
| `text`, `order`, `table`, `queue`, `json`, `uri`, `calendar` | text, sorting, maps by text, bounded queues, JSON fields, links, dates |
| `directory` | names of users and rooms, and servers by recency |
| `markdown` | from HTML and Markdown to markup with links |
| `models` | the timeline of a room, and the rows of lists |
| `bookmarks`, `local_unread`, `config`, `perf` | bookmarks, unread counts, settings, timing |
| `avatar_worker`, `markup_worker` | the jobs of background workers |
| `intelligence` | a local model: finding it, talking to it, watched terms |
| `matrix` | events and commands, their channels, sync, history, room list, requests, sessions, encryption |
