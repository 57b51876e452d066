# asayake

Asayake is a status bar for the komorebi tiling window manager: a backend reads
komorebi's state of a monitor and the icon of every window, and a frontend (a yew
application in a webview) draws the workspaces of the monitor as a CSS grid.

This crate is the verified core of Asayake, written in Verus:

- `structs` — the monitor state that the backend sends to the frontend.
- `calc_layout` — column and row layouts of a workspace on a 256 x 256 square, and the
  insertion-ordered map from container to rectangle that holds them.
- `grid` — the CSS grid of a workspace and the place of each container in it.
- `text` — decimal and hexadecimal digits appended to strings.
- `img` — RGBA bitmaps, the most used colour of an icon, and its PNG `data:` URL.
- `icon` — BGRA to RGBA pixels, and windows and containers built from their icons.
- `snapshot` — komorebi's state of a monitor turned into the state that is sent.
- `backend` — the layout kinds, the Alt key state machine and the greeting.
- `frontend` — the state the frontend shows after an event, and element styles.

`app/` holds the frontend program: the yew components, the event listener and the
serde copies of the state types.
