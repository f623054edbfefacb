# waffy

A Wayland, touch-friendly application launcher. `src/` is the verified core:

- `desktop_entry`: parsing of `.desktop` files (the `Name` and `Icon` keys of the
  `[Desktop Entry]` section, hidden entries rejected), which files count as desktop
  files, and the directories searched for them.
- `grid`: the launcher grid model: row-major layout, fuzzy filtering of the items
  (through `sublime_fuzzy`), and the keyboard cursor.
- `resource`: embedded files decoded as UTF-8.
- `style`: composition of the stylesheet from pywal colours, the user's file and the
  default.
- `config`: the settings.

`app/` is the GTK program around it: windows and widgets, file system access,
configuration loading with `json5`, and the embedded assets.

Dependencies of `app/`: the layer-shell bindings come from the `gtk-layer-shell`
crate, because the `gtk_layer_shell_rs` crate that the launcher was first written
against is not available from the registry; it plays the same role (anchoring the
window as a Wayland layer surface). The embedded resource folder `res/`
(`default_config.json5`, `default_style.css`) is not part of these sources, so
`app/` needs it put in place before it builds.
