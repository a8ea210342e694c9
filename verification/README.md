# onyx

The core of a small tile-based multiplayer game, written in Verus. The
functions in `src/` carry contracts that the verifier proves, except the
few marked `#[verifier::external_body]` in `grid.rs`, `auth.rs` and
`text.rs`: each makes one call into `ndarray`, `sha2`, `base64ct` or the
standard library, and its contract is trusted, not proved.

- `src/common.rs`: identifiers, directions, map layers, tiles.
- `src/grid.rs`, `src/autotile.rs`, `src/tilemap.rs`: map layers kept in
  `ndarray` grids, and the autotiles rendered from them.
- `src/chat.rs`: chat commands as the server reads them, and the client's
  chat window.
- `src/server.rs`, `src/networking.rs`: who is connected and playing, which
  maps exist, and who hears what; every request becomes a plan that the
  program carries out.
- `src/auth.rs`, `src/names.rs`, `src/paths.rs`: password hashes, the cache
  of taken character names, where files live inside the runtime folder.
- `src/client.rs`, `src/connection.rs`, `src/editor.rs`: decisions of the
  game client, its connection queues, and its map editor.
- `app/`: the server program around the library: it finds the runtime
  folder (`RUNTIME_PATH` in a debug build, else the executable's folder),
  and handles sockets, files, and the floating-point movement of
  characters.
- `tests/`: tests of the library on concrete values.
