# LXCOMM

A manager for mods of XCOM 2 on Linux: it browses the workshop, downloads items with
SteamCMD, keeps profiles of mods with their own configuration and saves, takes snapshots
of them, and links a profile into the game.

`src/` is a library written in Verus. It holds everything that decides or computes, with
contracts that Verus proves:

- `text`, `numbers`, `paths`, `table`, `extensions`: texts, numbers, paths and ordered
  tables, and what is stated of them.
- `markup`: descriptions of the workshop turned into markdown.
- `snapshot`: changes between two states of a directory (`ops`, `diff`, `tree`), the
  format that they are kept in (`codec`), the archives that hold them (`archive`), and
  that a state comes back from what was kept of it (`laws`, `basic`).
- `xcom_mod`, `metadata`, `files`, `library`, `collections`: mods, what is known of them,
  where they are, and how they depend on each other.
- `loading`: what links a profile into the game.
- `mod_edit`: the editor for the configuration of a mod.
- `steamcmd`, `steam_manifest`: a session of SteamCMD, its logins and downloads.
- `web`, `browser`, `no_api`, `db`: searches in the workshop and what is kept of them.
- `app`: the state of the program. `App::update` takes what happened and gives back what
  is to be done; `App::try_update` tests first whether a message is taken.

Calls into other crates stand behind items marked `external_body`; the comment above each
says what is believed of the outside function.

`app/` is the program around the library: the window, files, the web and the session of
SteamCMD. It carries out what the library asks for and tells it what came of it.

`tests/` runs the library on examples.
