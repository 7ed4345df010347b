# hokm

The Hokm trick-taking card game (four seats, two teams, a trump suit named by the
chooser), as a library whose behaviour is stated in Verus contracts and proved.

## Layout

- `src/` — the verified library.
  - `types.rs`: seats, teams, cards, phases, actions, events, errors.
  - `rules.rs`: who takes a trick.
  - `game.rs`: the game state machine (`GameState::apply_action`, `legal_actions`),
    with its mathematical model `GameView` and the rules as `GameView::step`.
  - `deal.rs`, `rng.rs`: the deck, the seeded shuffle, the pre-draw that names the
    hokm chooser, and dealing from the dealer's left.
  - `ai.rs`: the bots (Easy, Medium, Hard).
  - `sorting.rs`, `table.rs`: display orders, card labels, the bot's hokm choice, the
    trump check and round setup.
  - `autoplay.rs`: bots playing on their own until a person must act.
  - `session.rs`: the terminal client's match (seat 0 is the human).
  - `gui.rs`: the graphical client's table, round by round.
  - `laws.rs`: properties that span several functions.
  - `card.rs`: a minimal card model.
- `tests/` — tests on concrete values.
- `app/` — the clients: the terminal one by default, the window with `--gui`.
