# skillstore

Skill storage and update planning, verified with Verus.

- `src/` is the verified library:
  - `text`: white space, trimming, equality up to ASCII case, joining, each
    proved against a statement over the characters of the strings;
  - `order`: the order of strings, its laws, sorted insertion and sorting;
  - `storage`: skill names, paths under the storage directory, and what
    removing or listing decides from what was found on disk;
  - `metadata`: the metadata saved beside an installed skill;
  - `update`: update candidates, merging the skills found in several places,
    and selecting what a request asks for;
  - `report`, `summary`: the summary of an update run, drawn with `comfy_table`.
- `app/` does the file-system work, reads and writes the JSON metadata, and
  runs an update with the installer it is given.
- `tests/` runs the library on concrete values, and compares the text
  primitives with the standard library.
