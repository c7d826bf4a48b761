# Horace

A small Discord bot for the RPS community: message statistics, public roles that
members join and leave themselves, and reminders.

- `src/` is the verified library (Verus): reading commands, ranking and tabulating
  statistics, finding and listing public roles, parsing and scheduling reminders, and
  every reply text. Its contracts are stated over `Seq<char>` views and spec functions.
- `app/` is the bot around it: the Discord client and command framework (serenity), the
  PostgreSQL connection pool, the reminder loop and the clock.
- `tests/` runs the library on concrete values.

Set `DISCORD_TOKEN` and `POSTGRES_CONNSTRING` in the environment to run the bot.
