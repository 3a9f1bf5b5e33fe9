# aa_editor

An editor for AA (ASCII art) texts. The verified library under `src/` holds
the editor's logic, each function with a contract proved by Verus:

- `mlt`: splitting and joining MLT collections at `[SPLIT]`, decoding MLT
  bytes (UTF-8, else Shift_JIS);
- `item_info`: the width, height and character count of a text, the
  information label of an item and reading its number back;
- `project_file`, `state`: the project file and the open project's state
  (title, unsaved changes, saving and opening);
- `settings`: where the settings file lives;
- `paths`: joining paths, extensions, resolving `~`;
- `tree`: which entries of the MLT collection tree are shown, and in what
  order;
- `layers`: the layers opened per item, kept in step when items are
  removed;
- `canvas`: what a press on the layer canvas grabs, and layer sizes;
- `loading`: what the window does with each answer of a background load.

`app/` is the GTK 4 program around it: widgets, dialogs, file access and
JSON through serde.
