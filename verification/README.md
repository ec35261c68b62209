# gemgame

The game logic of a tile-based multiplayer game, written in Verus and proved against its
contracts.

- `src/` is the verified library: coordinates and chunks, the server's map with its chunk
  usage counts and entity index, the per-connection session that decides what each client is
  sent, chunk planning (including the clean-up of jutting and unconnected tiles) and tile
  placement, stored player records, identifiers, animations, the client's map and its
  prediction of its own entity's movements, and the client's handling of server messages.
- `tests/` holds the tests of the library.
- `app/` is the server program around it: WebSocket networking with bincode messages, the
  PostgreSQL player store, and the noise that decides tile categories.
