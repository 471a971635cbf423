# object_storage_ui

The logic behind the object-storage workspace window, verified with Verus:
object keys and directory prefixes, listing pages, order and filtering,
multi-selection and keyboard navigation, rename / new-directory / copy-move /
delete checks, batch runs and notices, downloads and uploads, the preview and details
panels, text editing, the transfer panel and the queue saved on quit, and the
quit flow.

- `src/` — the verified library. Every function carries a contract over a
  character-level model of strings (`text.rs`); `laws.rs` and the `law_*` proof
  functions of the modules state properties that hold across operations.
  Calls into `chrono`, `indexmap` and a few `std` functions sit behind small
  trusted wrappers, each documented where it is declared.
- `tests/` — scenarios on concrete values.
- `app/` — the parts that touch the file system, the storage service and the
  UI toolkit's floating-point sizes.
