# excentra_pulse

A market simulation bot for a spot exchange: maker bots keep bids and asks
around the mid price, taker bots place market orders whose direction follows a
rotating bias. The decision logic is written in Verus and proved against its
contracts; the network, the environment and the async runtime stay outside.

## Layout

- `src/decimal.rs`, `src/dec_order.rs`: the decimal value type, modelled as an
  integer number of units of 10^-28, and its comparisons. Arithmetic goes
  through `rust_decimal`'s checked operations.
- `src/utils/`: order sizing (`maths.rs`) and balance rules (`balance.rs`).
  Every function that draws a random number has a twin that takes the draw as
  an argument and has an exact contract.
- `src/bot/`: the bias, the state machine that decides each step of a bot
  (`machine.rs`), and the laws that hold of it (`laws.rs`).
- `src/price_service.rs`: the cache of reference prices.
- `src/config.rs`: roles, and the bots' configurations read from a list of
  environment variables (`configs_from_vars`).
- `src/client.rs`, `src/types.rs`, `src/constants.rs`: error classification,
  response types and constants.
- `app/`: the driver. It performs the actions the machine asks for (HTTP calls,
  sleeps), feeds back the events, and collects the environment variables.
- `tests/`: scenarios on concrete values.
