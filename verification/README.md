# simple_ljt_client

A terminal client for a card game. The library (`src/`) is written in Verus
and verified:

- `card`: cards, the order in which a hand is kept (`Card::sort_cards`), how
  cards and hands are shown, and how a card is read from its two-character
  code.
- `proto`: the messages exchanged with the game server, as plain values.
- `player`: the client's own player and hand, and the players at the table.
- `game`: the table as the client knows it, how a message from the server
  changes it, and the requests the client sends.
- `ui`: what the hand looks like on screen, and the login form
  (`ui::loginui`).

`app/` holds the terminal program around it (drawing with `tui`, keys from
`crossterm`, channels from `tokio`), and `tests/` exercises the library.
