# c6ol_core

Connect6 Online, verified with Verus: the game logic and its compact record
format, the WebSocket protocol, the server's handling of games and
connections, and the decisions of the web client.

- `src/` is the verified library:
  - `game`: points, directions, moves, records (making, undoing and redoing
    moves, winning rows), and the plain and delta-encoded record formats
    with their bit and nibble streams; `roundtrip` and `history` hold the
    laws that tie encoding to decoding and moves to their undoing.
  - `protocol`: game ids in base 62, client and server messages.
  - `session`: a game on the server and what each player's message does.
  - `connection`: what a connection does with each message of its client.
  - `ui`: the web client's view arithmetic, board selection, state updates,
    menu, dialogs and addresses.
  - `argon2id`: passcode hashing.
- `app/` is the server program: command line, database, game tasks and the
  WebSocket endpoint, built on the library.
- `tests/` exercises the library on concrete values.
