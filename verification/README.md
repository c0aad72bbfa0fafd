# arx

A declarative package manager for Arch Linux: JSONC manifests list the
packages a system should have, may include other manifests, and set default
build options per language family.

The library under `src/` holds the manifest rules and is verified with Verus:

- `manifest`: package sources, build options, validation, option merging,
  de-duplication of packages, default build options per language.
- `loader`: include resolution, one loaded file at a time; `resolution`
  proves that driving it gives the recursive resolution of the includes.
- `plan`: the install plan against the installed package names, and its
  summary text.
- `pacman_conf`: reading `pacman.conf` and mirror lists.
- `text`: white space, trimming, line and `key = value` splitting.

`app/` is the command line program: it reads files, parses JSON5 with
`json5`/`serde`, asks the host's package database through `alpm`, and prints.
