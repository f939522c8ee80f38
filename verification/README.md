# ttree

A tmux session tree beside a live preview of the selected pane.

`src/` is the library, verified with Verus:

- `state`: the session / window / pane tree, the rows it shows, selection,
  expansion and scrolling; `sync` rebuilds it from tmux's listings.
- `classic`: the level-at-a-time layout of the tree (sessions, windows or
  panes, one level at a time).
- `control`: what a key, a paste or a mouse event does to the state, and what
  is left for the caller (save, run tmux, send bytes to the embedded client).
- `preview`: keeping the embedded tmux client (and the mirror session it
  shows) on the selection.
- `input`: key and SGR mouse encoding, the mouse forwarding gate, the OSC 52
  clipboard relay and the prefix key.
- `tree_view`: what each sidebar row shows, the command bar and popups.
- `filter`: the `/` filter, which narrows the tree to the rows whose label
  matches the query (in order, ignoring case) and their parent rows.
- `theme`: colors read from tmux's status-bar options.
- `actions`, `tmux`, `pins`: tmux commands and what tmux prints back.
- `store`, `text`: the ordered maps the tree lives in, and string helpers.

`app/` is the program around it: the terminal, the tmux processes, the PTY
of the embedded client and the event loop.
