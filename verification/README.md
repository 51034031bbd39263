# bearclaw

A command-line tool for Bear notes on macOS: it reads notes, tags and
statistics straight from Bear's SQLite database and asks Bear, through its
x-callback-url API, to create, change, tag, trash and archive notes. Every
command answers with JSON.

The library under `src/` is verified with Verus. It holds what the commands
decide and compute:

- `api` — the callback URLs (values percent-encoded) and the schedule on
  which a write is checked for;
- `db` — the SQL of searches and exports, note rows, dates, Markdown
  sections, the monthly trend and the tag tree;
- `commands` — the input each command needs, the files an export writes,
  batch results, and the answer to every outcome;
- `output`, `models`, `health`, `cli`, `text` — answers, records, the
  health report, the command line, and text handling.

The program under `app/` parses the command line, runs the queries, opens
the URLs, reads and writes files, and prints the answers.
