# version_renamer

Renames Windows executables and MSI packages by their version information:

    version_renamer <FILE> [PATTERN]
    version_renamer <PATTERN> <FILE>

A pattern holds placeholders such as `{Name}`, `{Arch}` or `{FileVer1}`; run the
program without arguments for all of them.

- `src/` is the library, verified with Verus: patterns and names, version
  resources, package properties, and the probe for the payload architecture of
  installers. It reads no file; it says what to read or call next and takes what
  came back.
- `app/` is the program around it: files, processes and the Windows API.
- `tests/` runs the library on concrete values.

What the library takes on trust are the functions marked `external_body` or
`assume_specification`; a comment above each says what is claimed of it.
