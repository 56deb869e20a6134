# service_containers

Containers let several Zed instances keep separate data, configuration, logs
and caches; the services panel lists terminals that run long-lived commands.
This crate holds their logic, with contracts that are proved:

- `src/text.rs`: white space and trimming (`str::trim`), the order of names.
- `src/paths.rs`: joining paths as `Path::join` does on Unix, `~` expansion.
- `src/containers.rs`: container paths and layout, the steps that create a
  container, the sorted listing of containers, the expanded directories.
- `src/container_modals.rs`: the state of the dialogs that create and manage
  containers.
- `src/services_panel.rs`: the state of the services panel: adding, removing,
  expanding, renaming, icons, lazily made terminal views, row contents.

`app/` holds what touches the file system, processes, JSON and the UI.
`tests/` runs the library on concrete values.
