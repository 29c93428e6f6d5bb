# Stoclove

A recipe keeper that works offline: recipes come from web pages or pasted text, a language model
that Ollama serves (or, without one, an analysis by layout) finds title, ingredients and steps, and
copies of the database are merged over Google Drive by last write wins.

## Layout

- `src/` is the library. Every function states in its contract what it returns or changes, and
  Verus proves it.
  - `text`, `number`, `order`, `unicode`, `clock`, `ids`, `paths`: texts, numbers, sorting, time and
    ids.
  - `domain`: recipes, ingredients and their normalized names, the merge policy, errors.
  - `infra::ai`: cleaning a text, pairing names with amounts, the analysis by layout, the question to
    a language model and its answer.
  - `infra::db`: the stored recipes, what can be asked of them, merging, and the laws of all this.
  - `infra::json`, `infra::model_manager`, `infra::scraper`, `infra::sync`: JSON values, the models
    that can be installed, web pages, Google Drive.
  - `ui`: what the window shows, and how it changes when something happens.
- `tests/` runs the library on concrete values.
- `app/` is the program: the SQLite file, HTTP, JSON encoding and the window.

What the library takes on trust from other crates or the standard library stands in functions
marked `external_body`, in `assume_specification` items and in names without a body; each says in
its comment what it relies on. Laws that span several functions are public proof functions whose
names begin with `law_`.

## Notes

- A deleted recipe stays stored, so that a merge carries the deletion on.
- A merge takes over the newer version of a recipe as a whole: its ingredients replace the local
  ones. Where the local version is as new or newer, nothing of it changes.
- Which ingredients match a full-text query, and which titles match a pattern, SQLite decides; the
  library gets the matching recipes and does the rest.
