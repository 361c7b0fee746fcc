# links

A verified library that expands the links of the chapters of a book: `{{#include file}}`,
`{{#rustdoc_include file}}`, `{{#playground file}}` and `{{#title text}}`.

- `src/` is the library, in Verus: finding links, reading their arguments, replacing them by what
  they ask for, level by level, and the laws that hold of all this. It reads no files. Where one is
  needed, `replace_all` and `LinkPreprocessor::run_chapter` return the request, and are called again
  with the answer. It writes no log either, but returns reports on links that fail, that are nested
  too deep or that go by a former name.
- `app/` reads the files, logs the reports and runs the library on the chapters of a book. Which
  lines of a file are taken for a range or an anchor is left to an implementation of its trait
  `TakeLines`.
- `tests/` runs the library on examples.

Taken on trust: `Regex::captures_iter` of the `regex` crate, which finds the matches of the link
pattern, and from the standard library `Path::join`, `Path::parent` and `String::push`.
