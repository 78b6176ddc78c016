# rlist

A fast reading list for academic papers, on the command line: add papers by
arXiv id, DOI, URL or title (metadata is fetched from arXiv, Crossref or
doi.org), track what you read, tag and prioritize, take notes, search, and
export to BibTeX, JSON or CSV.

## Layout

- `src/` is the library, written in Verus and verified:
  - `text.rs`: character-level string functions and their specifications;
  - `model.rs`: papers, statuses, priorities, tags;
  - `fetch.rs`: what a reference is (arXiv id or URL, DOI, URL, title),
    percent-encoding, abstract clean-up;
  - `json.rs`, `atom.rs`: metadata from Crossref/doi.org JSON and from the
    arXiv Atom feed;
  - `bibtex.rs`: BibTeX export (cite keys, escaping) and the import parser;
  - `commands.rs`, `edit.rs`, `stats.rs`, `transfer.rs`, `store.rs`,
    `local.rs`: the decisions of the commands;
  - `output.rs`, `screen.rs`: what is printed.
- `app/` is the program around it: the command line, the SQLite database,
  network requests, files and the terminal.
- `tests/` runs the library on concrete values.
