# godot_toml

A TOML resource for Godot, with its logic verified by Verus.

- `src/` is the verified library:
  - `assoc.rs`: ordered key/value associations (Godot dictionaries, TOML tables) and their laws;
  - `variant.rs`, `toml_value.rs`: Godot variants and TOML values as plain data, with their models;
  - `convert.rs`: the mapping between TOML values and variants, and its round-trip laws;
  - `document.rs`: the `TOML` resource: the parse with the `toml` crate, the error line, the kept text;
  - `pattern.rs`: trimming and the token scan with `fancy_regex`;
  - `godot_types.rs`: Godot types written as text in TOML strings (`Vector2(1, 2)`, `Rect2(...)`, ...).
- `app/` is the Godot extension: the `TOML` class, the call to the `toml` writer (its float
  values are built there), and the conversions to and from Godot values (floats and math
  components are read there).
- `tests/` runs the library on concrete values.
