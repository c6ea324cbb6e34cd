# Stellar Nebula Nomad

The game rules of Nebula Nomad, a space-exploration game on Stellar, as a
library verified with Verus, and the Soroban contract that serves them.

- `src/` — the verified library. One module per game system (navigation
  planner, wormholes, portals, alliances, market oracle, prize distribution,
  treasure vaults, audio seeds, configuration updates, …). Each module keeps
  its state in a store struct of its own; every public function states in its
  contract what it returns and how it changes the store, and the modules'
  laws are public proof functions (`lemma_*`).
- `app/` — the Soroban contract: authentication, events, the ledger clock,
  and the conversion between ledger values and the library's types. It keeps
  the library's stores in the memory of the host process, not in ledger
  storage, so the game state does not outlive the process. Ship ownership and
  energy balances come from the caller, as the ship and energy contracts are
  not part of this project.
- `tests/` — tests of the library on concrete values.

The only outside call the library makes is SHA-256 through the Soroban
environment, in `randomness_oracle`.
