# motauron

A verified library for watching Swiss motorcycle marketplaces: it reads
listings from motorradhandel.ch and motoscout24.ch pages, merges each scrape
into the stored listing history (new listings, price changes, sales, relists
of the same bike under a new ad ID), scores listings against their peers, and
plans the ntfy.sh pushes of a run.

- `src/` is the library, verified with Verus. Its modules follow the two
  trackers of the project: `models`, `scoring`, `store`, `notify`, `config`
  and `scrapers` for the first tracker, and `backend` (domain services,
  settings and infrastructure) for the second. `text` and `stats` hold the
  shared string and median helpers.
- `tests/` exercises the library on concrete values.
- `app/` is the program around it: HTTP, files, Firestore, the headless
  browser, settings files, the floating-point price formula, and `main`.
