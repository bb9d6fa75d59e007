# fast_discord_tui

The decision logic of a Discord counting proxy, written in Verus and proved
against its contracts.

The proxy watches a channel where users count upwards. For each new message it
decides whether to answer, and with what: the next number (`"1243 gg"` is
answered with `"1244 ggs!"`), the first item of a manually filled queue, or
nothing (own messages, bot messages and messages already handled). It keeps
per-channel counting progress, can rotate between several account tokens, and
persists prompted settings in a `.env` file.

Layout:

- `src/text.rs`, `src/number.rs`: characters, trimming and decimal numbers,
  with specifications of what `str::trim`, `str::parse` and `Display` do.
- `src/proxy/utils.rs`: channel ids, counting messages, snowflake nonces.
- `src/proxy/state.rs`: the proxy state (queues, processed messages, own
  identity, token rotation, counting runs), its abstract view, and laws over it.
- `src/proxy/trigger_rules.rs`, `src/proxy/queue.rs`: the trigger rules and the
  bookkeeping around sending a reaction, as functions from state and input to
  state and action.
- `src/config.rs`: start-up configuration (profiles, token lists, menu choices,
  `.env` file updates).
- `src/entropy.rs`: the trusted reads of the system clock and of `rand`;
  `String::push` in `src/text.rs` is the only other trusted call.
- `app/`: the program around the library: prompts, files, HTTP and the async
  tasks.
