# discord_analyzer

A verified library for analyzing a Discord data export, with a small
command-line front end.

The library (`src/`) is written in Verus: every public function carries a
contract, and the properties that span several functions are stated and
proved as proof functions next to them. It covers

- the export's JSON: parsing (through serde_json), the record-file format
  (array, `messages` object, single value or one document per line) and
  record counts, numbers read from their text (`json`); the message tallies per
  channel and overall: words, links, emoji, hours, weekdays, days, records
  (`messages`, `counts`, `text`, `patterns`);
- telemetry events: every event line counted per file, and each line's
  step through the counts and the aggregate (`analysis`, `event_lines`), the
  de-duplicated aggregate with its order-free file signature, merging,
  sessions, devices and voice (`activity`, `sessions`);
- account, billing, social and server insights (`insights`), support
  tickets (`tickets`) and the activity explorer with its recent-tail
  reading (`events`);
- snapshots and their comparison (`compare`), the activity map (`activity_map`),
  the markdown report and folder discovery (`analysis`);
- attachment download planning, the content-hash index and progress labels
  (`downloads`);
- the interface's decisions: screens, channel browser, search, setup steps,
  settings, navigation and key handling (`ui`, `nav`, `search`, `config`).

Calls into outside crates (regex, unicode-segmentation, emojis, sha2,
serde_json) go through small trusted wrappers in `patterns` and `json`,
each with the contract its crate documents.

`app/` reads an export from disk, runs the analyses, prints a digest, writes
`report.md` and a snapshot (under `snapshots/`), and can download the attachments
(`--download`). `tests/` exercises the library on concrete values.
