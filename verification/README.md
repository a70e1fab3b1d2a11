# keyforge

Rules engine for a two-player KeyForge-style card game, written in Verus and proved
against its contracts.

- `src/` — the verified library:
  - `card.rs`: card definitions and card instances (power, armor, damage, ward, healing).
  - `victory.rs`: the three keys and forging.
  - `zones.rs`: the battleline and a player's zones, and the card moves between them.
  - `model.rs`: the mathematical model of a game and of every game step.
  - `game.rs`: the game state and its operations (Step 1 forging, choosing a house,
    playing, reaping, fighting, ending the turn).
  - `server.rs`: applying a client's request to the game, refusing requests from the
    player who is not active, requests that name a card that is not where it must be, and
    requests the rules do not allow now.
  - `view.rs` and `protocol.rs`: the messages and the per-player view of the game.
  - `client.rs`: what a client does with server messages and clicks.
  - `cards.rs`, `deck.rs`, `deck_store.rs`, `vault.rs`: the card list, deck building,
    the saved deck list and reading a deck id out of a Vault URL.
  - `laws.rs`: properties relating several operations; `action_laws.rs`: what attacking,
    playing, unstunning, discarding and destroying do to the turn's bookkeeping and to the
    zones; `conservation.rs`: every card stays in exactly one zone through the game's steps.
- `app/` — the windowed client (macroquad), network and file I/O, and the serde forms of
  the protocol types.
- `tests/` — tests of the library.
