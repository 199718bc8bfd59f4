# rust_patch

Reads patch files and applies them, as `patch(1)` does, with the decisions
verified by Verus.

The library under `src/` holds everything that can be decided on text and
plain values:

- `text`, `number`, `pattern`: strings, numbers, and the calls into `regex`
- `model`: patches, hunks and the values that contracts speak of
- `header`, `unified`, `context`, `normal`, `parse`: reading patch files
- `options`: the command line
- `paths`, `backup`, `mode`, `links`: which file, where its backup goes, and
  whether the way to it leads out of the working directory
- `preflight`: what is looked at before a file is changed
- `apply`, `run`, `undo`: placing hunks, carrying them out, and what undoes them
- `reject`, `readback`: reject files, and what they are read back as
- `ed`: scripts for `ed`
- `report`, `store`, `session`: messages, what a run remembers, and what is
  done for each patch

Every function states in its contract what it returns. Public proof functions
whose names begin with `law_` state what holds of the library as a whole.

`app/` is the program: it reads and writes files and does what the library
decides. `tests/` runs the library on concrete inputs.
