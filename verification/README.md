# soundpad_bard

A streamer's soundboard for OBS: sound effects on global shortcuts, a
background-music player ("the bard") that lowers the music while an effect
plays, and an encrypted store for the OBS WebSocket password.

## Layout

- `src/` is the library, written in Verus and verified:
  - `hotkey`, `conflict_checker`, `register_hotkey`: parsing shortcuts into
    a canonical form, keeping the set of shortcuts in use free of
    duplicates, registering a shortcut with a listener.
  - `bard`: the music's states and the transitions allowed between them.
  - `ducking`: how far the music is lowered while effects play.
  - `use_cases`: the commands sent to OBS to play an effect, start, skip or
    pause the music.
  - `session`: the window's decisions, as a state that each event moves on
    and the effects the caller carries out.
  - `crypto`: the stored form of the password and its round trip.
  - `config`, `repository`, `paths`, `text`: settings, where they live, and
    the std path and text functions the rest relies on.
- `tests/` runs the library on concrete values.
- `app/` is the program around it: the window, the tray icon, the global
  shortcut listener, the OBS client and the settings file.
