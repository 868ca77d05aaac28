# just_bash

Pieces of a sandboxed bash-like shell, with their behaviour stated as Verus
contracts and proved:

- `path`: lexical path normalization and joining for the virtual filesystem;
- `glob_escape`: glob detection, escaping and unescaping, and word expansion
  without a filesystem;
- `arg_helpers`, `sort_args`, `grep`: argument parsing and the `grep` search;
- `builtin_dispatch`: which builtin a command name selects, and the stub
  builtins (`type`, `command -v`, `source`, ...);
- `find_actions`, `tar_helpers`, `ls_format`, `gzip_codec`: helpers of `find`,
  `tar`, `ls` and `gzip`, among them the walk that collects a tree for `tar`
  (proved to give the recursive pre-order collection) and its `--exclude` test;
- `declare_syntax`: the name and assignment patterns of `declare` and `local`;
- `loc_heatmap`: the line counting and the report of the LOC heatmap tool.

`regex_support` and `gzip_codec` reach `regex-lite` and `flate2` through a
few trusted wrappers whose contracts are written next to them.

`app/` holds the LOC heatmap program (the directory walk and the reads), the
filesystem side of the `tar` walk, and the parts that need the clock, floating
point or process-wide regex caches.
