# dockui

A terminal interface for Docker: a tree of compose projects, services,
containers and volumes with a detail pane, live stats, logs, events, a
container filesystem explorer, container actions, edit-and-recreate, user
"ops" from `~/.dui/ops.yml`, and terminal handoff into containers.

## Layout

- `src/` — the library, verified with Verus. It holds the interface's
  state machine (`app` and its submodules: keys, mouse, popups, messages,
  views), the tree and detail pane, parsing (commands, ports, sizes, ssh
  endpoints, tar listings, the ops document), the steps of recreating a
  container or launching an op (`launch`), what the daemon's streams turn
  into (`feed`, `inspect`) and the demo fleet (`mock`). Every public
  function carries a contract. Properties that span calls or hold of
  every input (what a sort keeps, what a rebuild shows, the order of a
  recreate's steps, what a split list gives back) are public proof
  functions named `lemma_*`, beside the specifications they speak of;
  `order` holds the facts about sorting that several modules share.
- `app/` — the program around it: the terminal, drawing with ratatui,
  the tokio event loop, and the calls to the Docker daemon through
  bollard. The interface asks for work through `App::take_effects` and
  hears back through `App::handle_msg`.
- `tests/` — tests of the library.

Run with `--mock` for the demo fleet.
