# Ocean GUI

The desktop shell of Ocean: a cockpit, a notes shell over a vault of Markdown files, an
agent's conversation, rooms, and canvases that people and agents work on together.

The library in `src/` holds what the shell knows and decides, written in Verus: every
function states what it returns or changes, and Verus proves it. Laws that span several
functions stand beside them as proof functions whose names begin with `law_`.

- `text`, `paths`, `json`, `sorted_map`, `ordered_map`: the ground.
- `catalog`, `cockpit`, `workspace`: what the cockpit lists and what is chosen in it.
- `shell::rope`, `editor_buffer`, `editor_layout`: the editor's text, its history, and how its
  lines are broken into rows.
- `shell::model`, with `shell_view`, `file_tree`, `outline`, `vault_index`, `note_names`,
  `launch`: the notes shell. Its model takes in what reading and writing files gave.
- `shell::agent`, `daemon`, `rooms`, `gui_control`, `commands`: the conversation, the daemon's
  addresses and event streams, the rooms panel, commands to the window, the palette.
- `shell::surface`, `surface_host`, `surface_livekit`, `surface_livekit_client`: the web
  canvases, the window's web view and the media room.
- `shell::canvas`: the ledger of a canvas, its patches and how they converge, what is kept on
  disk, and what is drawn short of pixels.

Floating-point numbers appear in the library as bit patterns. What computes with them, and all
input and output, is in `app/`: drawing with egui, files, HTTP, and the types as they stand on
the wire.

What the library takes on trust is marked in the source, with a comment on each item: the text
rope (`ropey`), the index of an ordered map (`indexmap`), compact JSON (`serde_json`), the ends
of a queue (`tokio`), the clocks, and a few functions of the standard library.
