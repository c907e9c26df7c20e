# reformat

A code transformation tool: case conversion of identifiers, trailing
whitespace and line-ending normalisation, indentation, emoji replacement,
license headers, `.editorconfig` styles, regex replacement, file renaming,
grouping files by prefix, and repairing references to moved files.

## Layout

- `src/` is the library, verified with Verus. Each transformation is a
  function from text to text whose contract states exactly what it produces;
  the runner decides which steps apply to which file; the planning of
  renames, groupings and reference fixes is separated from the filesystem
  work. Calls into `regex`, `glob`, `aho-corasick`, `chrono` and `similar`
  go through small trusted wrappers in `matching.rs`, `header.rs`,
  `changes.rs` and `pipeline.rs`.
- `app/` is the command-line program: argument parsing, reading and writing
  files, walking directories, `git status`, `.editorconfig` lookup, JSON,
  diffs and logging. It asks the library for every decision.
- `tests/` runs the library on concrete inputs.

## Properties proved

Among others: splitting text into lines and joining them back is the
identity; line-ending normalisation and the emoji transformation settle
after one run; a second run of the header step changes nothing; applying a
recorded reference fix twice does not compound it; indentation conversion
keeps each line's column and terminator; words joined in snake or kebab
case split back into themselves, and an identifier of each case format
split into words and joined again is itself; a style that can change
nothing changes no file; reference fixes are sorted and deduplicated
exactly as stated; each day counted from the Unix epoch has exactly one
calendar date; a scanned reference stands in the text at its offset.
