# PlayFusion cart UI

The profile chooser and multi-ROM browser of the PlayFusion Cart Packs, with
their logic verified by Verus.

- `src/` is the verified library: tidying profile names (`name`), profile
  records and the active-profile record (`profile`), the profile chooser as a
  state machine (`profile_menu`), controls (`input`), cart metadata and
  ordering (`cart`), the browser (`browser`) and the text handling they share
  (`text`).
- `app/` is the program: windowing and drawing with macroquad, gamepads with
  gilrs, files, and the frame loops that feed the library's state machines.
- `tests/` runs the library on concrete inputs.
