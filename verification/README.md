# autovirt

The logic of the AutoVirt Discord bot as a verified library, with the bot
itself around it.

- `src/` is the library, verified with Verus: text helpers (`text`), the
  uwu filter (`uwu`), the persona's canned lines and the begging list
  (`mommy`), the autoreply rules (`rules`), the moyai board (`board`), the
  board table's rows (`db`) and what each command computes before it answers
  (`commands`). Random choices go through `rng`.
- `tests/` runs the library on concrete values.
- `app/` is the bot: it connects to Discord and Postgres, reads the persona's
  lines from `responses.json`, and hands the library plain values.
