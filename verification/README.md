# tvguide

A verified library for XMLTV guides and the playlists that they belong to, written in Verus.

- `src/` is the library; every item of it is verified.
  - `external` holds what is taken from std and other crates without proof.
  - `text`, `numbers`, `time`, `sorting`: texts, decimal numbers, times, stable sorting.
  - `xml`, `tag`, `xmltv`: from the events of a document to its tags.
  - `normalize`, `similarity`, `cache`, `fuzzy`: matching channels by name.
  - `channels`, `guide`, `tvguide`, `shared`: filling a guide, reading the guides of several sources.
  - `epg_merge`: merging channels by priority.
  - `config`, `requests`, `provider`, `epg_load`, `playlist`: what is configured, what can be
    asked, and what is answered.
  - `*_laws`: what holds across functions.
- `app/` holds the web routes and the reading of files around the library.
- `tests/` runs the library on concrete values.
