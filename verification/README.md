# pbtdl

A command-line program that discovers a working proxy page, searches it through
a real Chromium browser, shows the torrents it finds, and hands the selected
magnet link to a local torrent client.

The rules of the program are a library whose behaviour is stated in contracts
and proved by Verus. What touches the outside is a thin program around it.

## Layout

- `src/`: the library.
  - `text`, `order`, `ranking`, `bignat`, `size`: text, order, and exact sizes.
  - `paths`, `weburl`, `dom`: paths, web addresses, and rendered documents.
  - `model`: info hashes, magnet links, and search results.
  - `config`, `cli`: settings, where they are kept, and what goes before what.
  - `browser`, `session_run`, `submission_run`: which addresses may be opened,
    how a browser is started, how a page is opened and read, and how a query is
    sent. Every document that a page asks for is judged before it is loaded.
  - `discovery`, `health`, `discovery_run`: proxy candidates, what is remembered
    of them, and a run of discovery.
  - `search`, `search_run`: result rows and a search over candidates.
  - `selection`: how results are shown and chosen.
  - `downloader`, `download_run`, `download`: torrent clients and a download.
  - `app`, `app_run`: one run of the program.
- `app/`: arguments, files, the browser process, and the torrent client.
- `tests/`: what the library does on given values.

## How the two halves meet

Whatever alternates decisions and outside work is a state machine of the
library: its `action` says what is to be done outside, and its `handle` takes in
what came of it. The program runs the loop. So the order of the steps, what each
outcome leads to, and what is never done are stated and proved, whatever the
outside answers.

## What is trusted

The `url`, `scraper` and `data-encoding` crates and a few functions of the
standard library are called through small functions whose contracts are taken on
trust; their doc comments say what is claimed. All else in `src/` is proved.
