# Liquidation bot

A bot that follows a lending pool: it keeps the balances of the pool's users in
a cache, applies the events of the pool to it, and looks for users whose health
factor is below one.

`src/` is the library: the state and the rules, with contracts that Verus
proves. `src/laws.rs` states what holds of the library as a whole. Reading the
chain, the channels between the workers, the HTTP server and the arithmetic on
doubles are in `app/`, which hands the library plain values and takes plain
values back. `tests/` runs the library with the crates that it calls.

| module | what it holds |
| --- | --- |
| `uint`, `ray`, `float` | 256-bit numbers, fixed-point arithmetic, doubles as bits |
| `address`, `tokens`, `users`, `matrix`, `types` | the data |
| `cache` | the state, its start and its users |
| `userdata` | reading a user from the pool |
| `events`, `reserves`, `market` | events, interest, prices and thresholds |
| `sync`, `health` | matrices and health factors |
| `dispatch` | the turns of the workers |
| `stats`, `probe` | telling the state and comparing it with the pool |
| `provider` | stand-ins for the pool |
| `laws` | statements that relate several functions |

Start the application with the WebSocket URL of a node in `BOT_WS_URL`:

    BOT_WS_URL=... RUST_LOG=debug bot start

It serves its state on port 3000, for example at `/full_state`, `/users`,
`/collateral_matrix`, `/prices` and `/health_factors`.
