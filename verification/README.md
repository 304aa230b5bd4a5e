# cobblestone

A Markdown notes vault, written in Verus: a folder of `.md` files with
slugged note ids, tags, wikilinks and backlinks, full-text search, a folder
tree, a Markdown-to-HTML preview, a terminal viewer and the state of a
desktop editor.

## Layout

- `src/` — the verified library.
  - `text`, `slug`, `content`, `tags`, `markdown`, `terminal`: text handling,
    each function proved against a spec function.
  - `fsplan`, `store`: every vault operation as a plan of file-system
    requests; the caller answers each request and hands the replies back.
  - `model`: a mathematical file system and the laws the operations obey
    when it answers (read after write, refusals that leave the vault as it
    was, folder moves, the note graph).
  - `note`, `vault`, `tree`, `graph`: notes from files, listing, search, the
    folder tree and links between notes.
  - `tui`, `desktop`, `cli`: the viewers' state machines and the
    command-line tool's decisions.
- `tests/` — tests of the library, with an in-memory file system.
- `app/` — the program around it: command-line parsing, the real file
  system, the terminal drawing and the web server.
