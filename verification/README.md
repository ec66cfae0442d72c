# infinity_msfs

Build tooling for MSFS 2024 add-ons (WASM gauges, native SimConnect apps,
JS/TS instruments, sim packages), driven by one `infinity-msfs.toml`.

- `src/` is the verified library: the configuration model, build plans and
  the commands they run, the JS bundler's settings, template rendering and
  scaffolding decisions, `package` selection, and what `watch` watches.
  Every function carries a contract proved by Verus; the few calls into
  `heck`, `serde_json` and `String::push` sit behind small trusted wrappers.
- `tests/` runs the library on concrete values.
- `app/` is the command-line program around it: argument parsing (clap),
  reading the TOML (serde, toml), prompts (dialoguer), processes, the file
  watcher (notify) and bundling (rolldown).
