# vintage

The verified core of a native terminal workspace: shells in tabs and split
panes, a workspace file panel with safe previews, preferences with
configurable shortcuts, and the activity that agent hooks report over an
authenticated loopback connection.

`src/` is a Verus library. Its functions carry contracts that Verus proves
(the few that only touch state Verus cannot see, such as revoking a
folder's access flag, state no more than their signature), and the laws of
the library (what every operation keeps, what one call undoes) stand there
as proof functions named `law_*`.

- `keys`, `mouse`, `focus`, `composition`: what the terminal sends for keys,
  pastes, mouse reports, focus changes and IME input.
- `input`, `gesture`: how key presses and mouse gestures are routed in the
  workspace window, the terminal panes and the preferences view.
- `workspace`, `structure`, `sync`: workspaces, tabs and split layouts,
  with their limits and the structure every operation keeps (distinct
  identifiers, each pane shown once, a selection that names what exists),
  and which shells to close or start when the layouts change.
- `document`, `markdown`: bounded display data for file previews, markdown
  blocks built from pulldown-cmark's events, and image targets that stay
  inside the workspace.
- `files`, `tree`, `viewer`: checked access to workspace files, the folder
  tree of the files panel, and the images of a markdown preview.
- `settings`, `prefs`: the preferences, their validation and the
  preferences view's draft.
- `hook`, `activity`: hook reports, the environment of a pane's shell, and
  the activity marks, block notice and list of blocked panes.
- `session`, `terminal`, `runs`, `updates`, `text_cache`, `ui`, `boxes`: the
  checks of the terminal service, screen helpers, how screen cells group
  into shaped runs and box-drawing cells, change notification, the layout
  cache and its laws over frames, the palette, and box-drawing lines drawn
  as whole-pixel rectangles.

`app/` is the program around it: command line, files on disk, the hook
server, pseudo-terminals and the terminal emulator's screen state.
