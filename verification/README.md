# flugs

The core of Flugs, a viewer for spectra and CSV data, written in Verus:
what `src/` states of its functions Verus proves; where a result rests on another thread (receiving from a channel), the contract says so and states what holds either way.

- `src/` is the verified library:
  - `bruker`: the block table in the header of Bruker Opus files and the
    absorbance blocks in it; `bytes`: byte search and splitting;
  - `backend_state`: the index of files below the search root and the
    search over it (every word of the query, the first ten matches);
  - `file_handler`, `events`: the file registry, the ten groups, and the
    events that copy, move, clone, remove, locate, subtract and drag files;
    `handler_laws` proves what these operations keep;
  - `config`: the `key=value` configuration file; `config_laws` proves that
    written settings read back unchanged;
  - `search_ui`, `modes`: the decisions of the search pop-up and the mode
    cycles; `ui_parameter`, `backend`: values awaited from the background
    worker and its stop signal;
  - `paths`, `text`, `utils`: Unix path joining and file names, decimal
    numbers, and runs of neighbouring indices.
- `tests/` runs the library on concrete values.
- `app/` is the command-line program around it: file and directory access,
  the worker thread, JSON sessions (serde), and the floating-point work
  (integration, scaling, colours).
