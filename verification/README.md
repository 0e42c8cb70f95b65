# bevy_yoleck — verified editing logic

Yoleck ("Your Own Level Editor Creation Kit") lets a game act as its own level editor. This
crate holds the editor's logic, each function with a contract that is proved of it:

* `json` — JSON documents as the level files hold them, with their mathematical model.
* `level_files_upgrading` — upgrading `.yol` files to the current format.
* `entity_management`, `specs_registration`, `entity_uuid`, `entity_ref`, `populating` —
  loading entries into managed entities, entity types, UUIDs and references between
  entities, and the populate schedule.
* `entity_upgrading` — the app's own format upgrades of entity data.
* `editing` — what an edit system sees of the entities being edited.
* `editor`, `exclusive_systems`, `knobs`, `console`, `auto_edit` — the editor's directives,
  selection, exclusive systems, knobs, log console and automatic field editing.
* `level_index`, `level_files_manager` — the index of levels, the editable level files and the
  levels panel.
* `vpeol`, `vpeol_2d`, `tools_2d` — selecting and dragging entities in the viewport, and the
  keyboard shortcuts.

`app/` is plain Rust around the library: the `serde` forms of levels and of the level index,
conversion to and from `serde_json` values, and the levels directory on disk.
