# materialize

An audio visualiser: it captures what the output device plays, splits the spectrum into
frequency bands and draws each band as a bar or a ring. Profiles of settings live in the
Windows registry.

- `src/` is the verified library:
  - `config.rs`: profiles, their defaults, the values saved to and read back from the
    registry, and how a stored version compares with this one;
  - `spectrum.rs`: splitting a spectrum into bands, taking half-overlapping analysis
    windows from the captured samples, and fitting the per-band animation state;
  - `menu.rs`: what each action in the options menu and each key does;
  - `shapes.rs`: shape kinds, shapes and band colours;
  - `text.rs`: string ordering and joining; `ordering.rs`: facts about ordered keys.
- `app/` is the program around it: audio capture (cpal), the registry (windows-registry),
  the spectrum analysis (spectrum-analyzer), drawing (ggez) and the menu (ggegui).
- `tests/` exercises the library.
