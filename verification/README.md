# Grimoire

A reference manager for a library of papers and books kept as one directory
per work (`info.toml` plus the PDF). It imports works from arXiv, DOIs,
PubMed/PMC, publisher pages and local PDFs, enriches and backfills their
metadata, finds duplicates, exports BibTeX/Hayagriva/YAML/JSON, keeps a
full-text index, and offers an interactive terminal browser.

## Layout

- `src/` — the library, written in Verus. Its functions carry contracts
  (`requires`/`ensures`) over mathematical models (`Seq`, `Set`, `Map`, spec
  functions), proved by Verus, except for the small wrappers described
  below, whose contracts are trusted. It holds the rules of the program:
  input classification and identifier detection (`fetch`, `add`), directory
  naming and duplicate detection (`storage`, `dedup`), metadata merging
  (`enrich`, `update`, `backfill`), export formats (`export`), the parsers
  of the remote services' replies (`remote`), the PubMed Central Open Access
  fallback (`oa_package`: the package link, its address, the PDF in the
  archive), Docling and passage handling (`docling`, `docling_walk`,
  `passage_rows`, `inline_math`, `semantic`), the index queries (`index`),
  validation (`validate`), the native-messaging host (`browser_host`), the
  terminal graphics protocol (`kitty`, `formula`), and the browser's
  decisions (`keymap`, `tui`, `proposals`, `clip`, `theme`). Calls into
  other crates and a few std functions (URL parsing, XML tokens, regular
  expressions and their `\d` and `\w` classes, tar.gz archives, fuzzy
  matching, base64, zlib, slugs, URL encoding, lower-casing) go through
  small `external_body` wrappers: their contracts state, or name, what those
  functions return, and are not proved.
- `app/` — the `grimoire` command: argument parsing, file and network I/O,
  SQLite, PDF text extraction, serde copies of the library's types, the
  conversion of parsed JSON into the library's `JsonTree`, the browser
  extension's host, and the terminal front-end. It calls into the library
  for the rules; the loops over entries, files and keys stay in it.
- `tests/` — tests of the library on concrete values, including comparisons
  with the standard library and with the regular expressions the detectors
  stand for.